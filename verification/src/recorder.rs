//! Recording target outputs for a snapshot manifest.

use vstd::prelude::*;
use vstd::string::*;
use vstd::utf8::*;

use crate::bytes::copy_bytes;
use crate::bytes::lemma_bytes_less_strict;
use crate::bytes::lemma_bytes_less_total;
use crate::bytes::lemma_bytes_less_transitive;
use crate::bytes::utf8;
use crate::digest::hex_digest;
use crate::digest::is_hex_digest;
use crate::disk::FileKind;
use crate::disk::Lookup;
use crate::entry::digest_for;
use crate::entry::file_verified;
use crate::entry::files_verified;
use crate::entry::listed_digest;
use crate::entry::stored_at;
use crate::entry::verified_manifest;
use crate::entry::verified_rlib_cache_manifest;
use crate::entry::verify_rlib_cache_manifest_files;
use crate::entry::EntryError;
use crate::entry::StoredFile;
use crate::ordering::lemma_sorted_keys;
use crate::ordering::order_of;
use crate::ordering::sort;
use crate::ordering::sorted;
use crate::ordering::Ranked;
use crate::outputs::OutputFile;
use crate::snapshot::descent_error;
use crate::snapshot::directory_error;
use crate::snapshot::metadata_mode;
use crate::snapshot::plain_records;
use crate::snapshot::record_before;
use crate::snapshot::record_less;
use crate::snapshot::regular_file;
use crate::snapshot::regular_file_metadata;
use crate::snapshot::text_before;
use crate::snapshot::text_less;
use crate::snapshot::validate_cache_digest;
use crate::snapshot::validate_descendant_directory_no_follow;
use crate::snapshot::validate_directory_no_follow;
use crate::snapshot::Record;
use crate::snapshot::SnapshotDisk;
use crate::snapshot::SnapshotError;
use crate::snapshot::SnapshotMetadata;
use crate::snapshot::SnapshotRecord;
use crate::snapshot::PERMISSION_MODE_MASK;
use crate::snapshot::SNAPSHOT_VERSION;
use crate::snapshot_paths::encode_safe_filename;
use crate::snapshot_paths::encode_safe_relative;
use crate::snapshot_paths::encoded_path;
use crate::snapshot_paths::is_safe_component;
use crate::snapshot_paths::path_as_utf8;
use crate::snapshot_paths::root_error;
use crate::snapshot_paths::validate_absolute_root;
use crate::snapshot_paths::PathError;
use crate::text::text_is;
use crate::text::texts;
use crate::unix_path::components;
use crate::unix_path::file_name;
use crate::unix_path::join_path;
use crate::unix_path::joined;
use crate::unix_path::path_before;
use crate::unix_path::path_below;
use crate::unix_path::path_file_name;
use crate::unix_path::path_less;
use crate::unix_path::paths_equal;
use crate::unix_path::same_path;
use crate::unix_path::strip_path_prefix;

verus! {

/// A target output and the cache entry that it came from.
pub struct PendingRecord {
    pub cache_entry: Vec<u8>,
    pub target_output: Vec<u8>,
}

/// A recorded output as plain values: the cache entry and the target output.
pub type Pending = (Seq<u8>, Seq<u8>);

/// Recorded outputs as plain values.
pub open spec fn plain_pending(list: Seq<PendingRecord>) -> Seq<Pending> {
    list.map_values(|pending: PendingRecord| (pending.cache_entry@, pending.target_output@))
}

impl Ranked for PendingRecord {
    open spec fn precedes(self, other: Self) -> bool {
        path_less(self.target_output@, other.target_output@) || (same_path(
            self.target_output@,
            other.target_output@,
        ) && path_less(self.cache_entry@, other.cache_entry@))
    }

    fn comes_before(&self, other: &Self) -> (before: bool) {
        path_before(self.target_output.as_slice(), other.target_output.as_slice()) || (paths_equal(
            self.target_output.as_slice(),
            other.target_output.as_slice(),
        ) && path_before(self.cache_entry.as_slice(), other.cache_entry.as_slice()))
    }
}

/// Collects the target outputs that came from the artifact cache.
pub struct Recorder {
    pub output_path: Vec<u8>,
    pub target_root: Vec<u8>,
    pub cache_root: Vec<u8>,
    pub pending: Vec<PendingRecord>,
}

/// What happens to a manifest that an earlier build left.
#[derive(Clone, Copy, Debug, PartialEq, Eq, Structural)]
pub enum Invalidation {
    /// It is removed.
    Remove,
    /// There is none.
    Nothing,
}

impl Recorder {
    /// The recorded outputs, in the order in which they were recorded.
    pub open spec fn recorded(&self) -> Seq<Pending> {
        plain_pending(self.pending@)
    }

    /// A recorder with nothing recorded. Both roots have to be absolute, free
    /// of traversal, and text.
    pub fn new(output_path: Vec<u8>, target_root: Vec<u8>, cache_root: Vec<u8>) -> (recorder:
        Result<Self, SnapshotError>)
        ensures
            match recorder {
                Ok(recorder) => root_error(target_root@) is None && root_error(cache_root@) is None
                    && recorder.output_path == output_path && recorder.target_root == target_root
                    && recorder.cache_root == cache_root && recorder.recorded() == Seq::<
                    Pending,
                >::empty(),
                Err(error) => match root_error(target_root@) {
                    Some(path_error) => error == SnapshotError::TargetRoot(path_error),
                    None => root_error(cache_root@) is Some && error == SnapshotError::CacheRoot(
                        root_error(cache_root@)->Some_0,
                    ),
                },
            },
    {
        match validate_absolute_root(target_root.as_slice()) {
            Ok(_) => {},
            Err(error) => {
                return Err(SnapshotError::TargetRoot(error));
            },
        }
        match validate_absolute_root(cache_root.as_slice()) {
            Ok(_) => {},
            Err(error) => {
                return Err(SnapshotError::CacheRoot(error));
            },
        }
        let pending: Vec<PendingRecord> = Vec::new();
        proof {
            assert(plain_pending(pending@) =~= Seq::<Pending>::empty());
        }
        Ok(Recorder { output_path, target_root, cache_root, pending })
    }

    /// What to do about a manifest that an earlier build left: only a regular
    /// file is replaced.
    pub fn invalidate_output(found: &Lookup<SnapshotMetadata>) -> (action: Result<
        Invalidation,
        SnapshotError,
    >)
        ensures
            action == match *found {
                Lookup::Found(metadata) => if metadata.kind == FileKind::File {
                    Ok::<Invalidation, SnapshotError>(Invalidation::Remove)
                } else {
                    Err::<Invalidation, SnapshotError>(SnapshotError::NotRegularFile)
                },
                Lookup::Missing => Ok::<Invalidation, SnapshotError>(Invalidation::Nothing),
                Lookup::Failed => Err::<Invalidation, SnapshotError>(SnapshotError::Uninspectable),
            },
    {
        match found {
            Lookup::Found(metadata) => if metadata.kind == FileKind::File {
                Ok(Invalidation::Remove)
            } else {
                Err(SnapshotError::NotRegularFile)
            },
            Lookup::Missing => Ok(Invalidation::Nothing),
            Lookup::Failed => Err(SnapshotError::Uninspectable),
        }
    }

    /// Records the outputs of an accepted cache entry. Nothing is checked
    /// before the manifest is written.
    pub fn record(&mut self, cache_entry: &[u8], outputs: &Vec<OutputFile>)
        ensures
            final(self).output_path == old(self).output_path,
            final(self).target_root == old(self).target_root,
            final(self).cache_root == old(self).cache_root,
            final(self).recorded() == old(self).recorded() + Seq::new(
                outputs@.len(),
                |i: int| (cache_entry@, outputs@[i].path@),
            ),
    {
        let ghost before = *self;
        let ghost added = Seq::new(outputs@.len(), |i: int| (cache_entry@, outputs@[i].path@));
        let mut index: usize = 0;
        proof {
            assert(before.recorded() + added.take(0) =~= before.recorded());
        }
        while index < outputs.len()
            invariant
                index <= outputs@.len(),
                added == Seq::new(outputs@.len(), |i: int| (cache_entry@, outputs@[i].path@)),
                self.output_path == before.output_path,
                self.target_root == before.target_root,
                self.cache_root == before.cache_root,
                self.recorded() == before.recorded() + added.take(index as int),
            decreases outputs@.len() - index,
        {
            let ghost pending = self.pending@;
            self.pending.push(
                PendingRecord {
                    cache_entry: copy_bytes(cache_entry),
                    target_output: copy_bytes(outputs[index].path.as_slice()),
                },
            );
            proof {
                assert(self.recorded() =~= plain_pending(pending).push(added[index as int]));
                assert(before.recorded() + added.take(index + 1) =~= (before.recorded()
                    + added.take(index as int)).push(added[index as int]));
            }
            index = index + 1;
        }
        proof {
            assert(added.take(index as int) =~= added);
        }
    }
}

/// The path of a cached file below its entry.
pub open spec fn cached_path(filename: Seq<char>) -> Seq<char> {
    "files/"@ + filename
}

/// The directory of cached files of an entry.
pub open spec fn files_directory(entry: Seq<u8>) -> Seq<u8> {
    joined(entry, utf8("files"@))
}

/// What a manifest says of an output whose paths are in order. `None` where the
/// cache cannot vouch for the output.
pub open spec fn vouched(
    disk: SnapshotDisk,
    pending: Pending,
    target_path: Seq<char>,
    cache_entry: Seq<char>,
    filename: Seq<u8>,
) -> Option<Record> {
    let name = decode_utf8(filename);
    let stored = cached_path(name);
    let files = disk.files(pending.0);
    match verified_manifest(files) {
        Ok(Some(list)) => match (digest_for(list, stored), regular_file(disk.own(pending.1))) {
            (Some(digest), Ok(metadata)) => if files_verified(files, list, seq![stored]) == Ok::<
                bool,
                crate::entry::EntryError,
            >(true) && is_hex_digest(digest) && disk.digest(pending.1) == Some(digest)
                && disk.followed_len(joined(files_directory(pending.0), filename)) == Some(
                metadata.len,
            ) {
                Some(
                    Record {
                        target_path,
                        cache_entry,
                        cache_filename: name,
                        cache_digest: digest,
                        mode: metadata.mode & PERMISSION_MODE_MASK,
                        size: metadata.len,
                        mtime_sec: metadata.modified.seconds,
                        mtime_nsec: metadata.modified.nanoseconds,
                    },
                )
            } else {
                None
            },
            _ => None,
        },
        _ => None,
    }
}

/// What a manifest says of a recorded output. Paths that cannot stand in a
/// manifest are errors; an output that the cache cannot vouch for is left out.
pub open spec fn certified(
    disk: SnapshotDisk,
    target_root: Seq<u8>,
    cache_root: Seq<u8>,
    pending: Pending,
) -> Result<Option<Record>, SnapshotError> {
    match path_below(pending.1, target_root) {
        None => Err(SnapshotError::OutsideTargetRoot),
        Some(target_relative) => match encoded_path(target_relative) {
            Err(error) => Err(SnapshotError::TargetPath(error)),
            Ok(target_path) => match path_below(pending.0, cache_root) {
                None => Err(SnapshotError::OutsideCacheRoot),
                Some(cache_relative) => match encoded_path(cache_relative) {
                    Err(error) => Err(SnapshotError::CacheEntry(error)),
                    Ok(cache_entry) => if descent_error(
                        disk,
                        cache_root,
                        components(cache_relative),
                    ) is Some {
                        Ok(None)
                    } else {
                        match file_name(pending.1) {
                            None => Err(SnapshotError::NoFilename),
                            Some(filename) => if !valid_utf8(filename) {
                                Err(SnapshotError::CacheFilename(PathError::NotText))
                            } else if !is_safe_component(decode_utf8(filename)) {
                                Err(SnapshotError::CacheFilename(PathError::UnsafeComponent))
                            } else if directory_error(
                                disk.own(files_directory(pending.0)),
                            ) is Some {
                                Ok(None)
                            } else {
                                Ok(vouched(disk, pending, target_path, cache_entry, filename))
                            },
                        }
                    },
                },
            },
        },
    }
}

/// What a manifest says of an output whose paths are in order.
fn vouch(
    disk: &SnapshotDisk,
    pending: &PendingRecord,
    target_path: String,
    cache_entry: String,
    filename: &[u8],
    cache_filename: String,
) -> (record: Option<SnapshotRecord>)
    requires
        cache_filename@ == decode_utf8(filename@),
    ensures
        match record {
            Some(record) => vouched(
                *disk,
                (pending.cache_entry@, pending.target_output@),
                target_path@,
                cache_entry@,
                filename@,
            ) == Some(record@),
            None => vouched(
                *disk,
                (pending.cache_entry@, pending.target_output@),
                target_path@,
                cache_entry@,
                filename@,
            ) is None,
        },
{
    let directory = join_path(pending.cache_entry.as_slice(), "files".as_bytes());
    let stored = join_path(directory.as_slice(), filename);
    let mut stored_path = "files/".to_owned();
    stored_path.append(cache_filename.as_str());
    let at: usize = disk.find_entry(pending.cache_entry.as_slice());
    let empty: Vec<StoredFile> = Vec::new();
    let files = if at < disk.entries.len() {
        &disk.entries[at].files
    } else {
        &empty
    };
    proof {
        assert(files@ =~= disk.files(pending.cache_entry@));
    }
    let expected = match verified_rlib_cache_manifest(files) {
        Ok(Some(expected)) => expected,
        _ => {
            return None;
        },
    };
    let mut required: Vec<String> = Vec::new();
    required.push(stored_path.as_str().to_owned());
    proof {
        assert(texts(required@) =~= seq![cached_path(cache_filename@)]);
    }
    match verify_rlib_cache_manifest_files(files, &expected, &required) {
        Ok(true) => {},
        _ => {
            return None;
        },
    }
    let cache_digest = match listed_digest(&expected, stored_path.as_str()) {
        Some(digest) => digest,
        None => {
            return None;
        },
    };
    if validate_cache_digest(cache_digest.as_str()).is_err() {
        return None;
    }
    let metadata = match regular_file_metadata(disk, pending.target_output.as_slice()) {
        Ok(metadata) => metadata,
        Err(_) => {
            return None;
        },
    };
    match disk.rlib_cache_digest(pending.target_output.as_slice()) {
        Some(output_digest) => {
            if !text_is(output_digest.as_str(), cache_digest.as_str()) {
                return None;
            }
        },
        None => {
            return None;
        },
    }
    match disk.length(stored.as_slice()) {
        Some(length) => {
            if length != metadata.len {
                return None;
            }
        },
        None => {
            return None;
        },
    }
    Some(
        SnapshotRecord {
            target_path,
            cache_entry,
            cache_filename,
            cache_digest,
            mode: metadata_mode(&metadata),
            size: metadata.len,
            mtime_sec: metadata.modified.seconds,
            mtime_nsec: metadata.modified.nanoseconds,
        },
    )
}

/// What a manifest says of a recorded output.
pub fn certify(
    disk: &SnapshotDisk,
    target_root: &[u8],
    cache_root: &[u8],
    pending: &PendingRecord,
) -> (record: Result<Option<SnapshotRecord>, SnapshotError>)
    ensures
        match (
            record,
            certified(
                *disk,
                target_root@,
                cache_root@,
                (pending.cache_entry@, pending.target_output@),
            ),
        ) {
            (Ok(Some(record)), Ok(Some(expected))) => record@ == expected,
            (Ok(None), Ok(None)) => true,
            (Err(error), Err(expected)) => error == expected,
            _ => false,
        },
{
    let target_relative = match strip_path_prefix(pending.target_output.as_slice(), target_root) {
        Some(relative) => relative,
        None => {
            return Err(SnapshotError::OutsideTargetRoot);
        },
    };
    let target_path = match encode_safe_relative(target_relative.as_slice()) {
        Ok(path) => path,
        Err(error) => {
            return Err(SnapshotError::TargetPath(error));
        },
    };
    let cache_relative = match strip_path_prefix(pending.cache_entry.as_slice(), cache_root) {
        Some(relative) => relative,
        None => {
            return Err(SnapshotError::OutsideCacheRoot);
        },
    };
    let cache_entry = match encode_safe_relative(cache_relative.as_slice()) {
        Ok(path) => path,
        Err(error) => {
            return Err(SnapshotError::CacheEntry(error));
        },
    };
    if validate_descendant_directory_no_follow(
        disk,
        cache_root,
        cache_relative.as_slice(),
    ).is_err() {
        return Ok(None);
    }
    let filename = match path_file_name(pending.target_output.as_slice()) {
        Some(filename) => filename,
        None => {
            return Err(SnapshotError::NoFilename);
        },
    };
    let cache_filename = match encode_safe_filename(filename.as_slice()) {
        Ok(name) => name,
        Err(error) => {
            return Err(SnapshotError::CacheFilename(error));
        },
    };
    let directory = join_path(pending.cache_entry.as_slice(), "files".as_bytes());
    if validate_directory_no_follow(disk, directory.as_slice()).is_err() {
        return Ok(None);
    }
    Ok(vouch(disk, pending, target_path, cache_entry, filename.as_slice(), cache_filename))
}

/// `list`, which is in the order of target paths, with a record added: of two
/// records of one target path the lesser stays.
pub open spec fn with_record(list: Seq<Record>, record: Record) -> Seq<Record>
    decreases list.len(),
{
    if list.len() == 0 {
        seq![record]
    } else if list.last().target_path == record.target_path {
        if record_less(record, list.last()) {
            list.drop_last().push(record)
        } else {
            list
        }
    } else if text_less(record.target_path, list.last().target_path) {
        with_record(list.drop_last(), record).push(list.last())
    } else {
        list.push(record)
    }
}

/// The records of recorded outputs, or the first error among them.
pub open spec fn gathered(
    disk: SnapshotDisk,
    target_root: Seq<u8>,
    cache_root: Seq<u8>,
    pending: Seq<Pending>,
) -> Result<Seq<Record>, SnapshotError>
    decreases pending.len(),
{
    if pending.len() == 0 {
        Ok(Seq::empty())
    } else {
        match gathered(disk, target_root, cache_root, pending.drop_last()) {
            Err(error) => Err(error),
            Ok(before) => match certified(disk, target_root, cache_root, pending.last()) {
                Err(error) => Err(error),
                Ok(None) => Ok(before),
                Ok(Some(record)) => Ok(with_record(before, record)),
            },
        }
    }
}

/// An error among the first outputs is the error of all.
proof fn lemma_gathered_error(
    disk: SnapshotDisk,
    target_root: Seq<u8>,
    cache_root: Seq<u8>,
    pending: Seq<Pending>,
    count: int,
)
    requires
        0 <= count <= pending.len(),
        gathered(disk, target_root, cache_root, pending.take(count)) is Err,
    ensures
        gathered(disk, target_root, cache_root, pending) == gathered(
            disk,
            target_root,
            cache_root,
            pending.take(count),
        ),
    decreases pending.len() - count,
{
    if count < pending.len() {
        assert(pending.take(count + 1).drop_last() =~= pending.take(count));
        lemma_gathered_error(disk, target_root, cache_root, pending, count + 1);
    } else {
        assert(pending.take(count) =~= pending);
    }
}

/// Adds a record to a list in the order of target paths.
fn add_record(list: &mut Vec<SnapshotRecord>, record: SnapshotRecord)
    ensures
        plain_records(final(list)@) == with_record(plain_records(old(list)@), record@),
{
    let ghost before = list@;
    let ghost plain = plain_records(before);
    let ghost result = with_record(plain, record@);
    let mut at: usize = list.len();
    proof {
        assert(plain.take(at as int) =~= plain);
        assert(result =~= with_record(plain.take(at as int), record@) + plain.skip(at as int));
    }
    while at > 0
        invariant
            at <= list@.len(),
            list@ == before,
            before == old(list)@,
            plain == plain_records(before),
            result == with_record(plain, record@),
            result == with_record(plain.take(at as int), record@) + plain.skip(at as int),
        decreases at,
    {
        let ghost front = plain.take(at as int);
        proof {
            assert(front.last() == before[at - 1]@);
            assert(front.drop_last() =~= plain.take(at - 1));
        }
        if text_is(list[at - 1].target_path.as_str(), record.target_path.as_str()) {
            if record_before(&record, &list[at - 1]) {
                list.set(at - 1, record);
                proof {
                    assert(plain_records(list@) =~= front.drop_last().push(record@) + plain.skip(
                        at as int,
                    ));
                }
            } else {
                proof {
                    assert(plain =~= front + plain.skip(at as int));
                }
            }
            return;
        }
        if !text_before(record.target_path.as_str(), list[at - 1].target_path.as_str()) {
            proof {
                assert(with_record(front, record@) == front.push(record@));
            }
            list.insert(at, record);
            proof {
                assert(plain_records(list@) =~= front.push(record@) + plain.skip(at as int));
            }
            return;
        }
        proof {
            assert(with_record(front, record@) == with_record(front.drop_last(), record@).push(
                front.last(),
            ));
            assert(result =~= with_record(plain.take(at - 1), record@) + plain.skip(at - 1));
        }
        at = at - 1;
    }
    proof {
        assert(plain.take(0) =~= Seq::<Record>::empty());
    }
    list.insert(0, record);
    proof {
        assert(plain_records(list@) =~= seq![record@] + plain.skip(0));
    }
}

/// The records of recorded outputs.
fn gather(
    disk: &SnapshotDisk,
    target_root: &[u8],
    cache_root: &[u8],
    pending: &Vec<PendingRecord>,
) -> (records: Result<Vec<SnapshotRecord>, SnapshotError>)
    ensures
        match (records, gathered(*disk, target_root@, cache_root@, plain_pending(pending@))) {
            (Ok(records), Ok(expected)) => plain_records(records@) == expected,
            (Err(error), Err(expected)) => error == expected,
            _ => false,
        },
{
    let ghost all = plain_pending(pending@);
    let mut records: Vec<SnapshotRecord> = Vec::new();
    let mut index: usize = 0;
    proof {
        assert(all.take(0) =~= Seq::empty());
        assert(plain_records(records@) =~= Seq::<Record>::empty());
    }
    while index < pending.len()
        invariant
            index <= pending@.len(),
            all == plain_pending(pending@),
            gathered(*disk, target_root@, cache_root@, all.take(index as int)) == Ok::<
                Seq<Record>,
                SnapshotError,
            >(plain_records(records@)),
        decreases pending@.len() - index,
    {
        proof {
            assert(all.take(index + 1).drop_last() =~= all.take(index as int));
            assert(all.take(index + 1).last() == all[index as int]);
        }
        match certify(disk, target_root, cache_root, &pending[index]) {
            Err(error) => {
                proof {
                    lemma_gathered_error(*disk, target_root@, cache_root@, all, index + 1);
                }
                return Err(error);
            },
            Ok(None) => {},
            Ok(Some(record)) => {
                add_record(&mut records, record);
            },
        }
        index = index + 1;
    }
    proof {
        assert(all.take(index as int) =~= all);
    }
    Ok(records)
}

/// A manifest of target outputs.
pub struct SnapshotManifest {
    pub version: u32,
    pub target_root: String,
    pub records: Vec<SnapshotRecord>,
}

/// How many target outputs a manifest certifies.
#[derive(Clone, Copy, Debug, PartialEq, Eq, Structural)]
pub struct ManifestSummary {
    pub files: u64,
    pub logical_bytes: u64,
}

/// Why the roots of a snapshot cannot be used.
pub open spec fn roots_error(
    disk: SnapshotDisk,
    target_root: Seq<u8>,
    cache_root: Seq<u8>,
) -> Option<SnapshotError> {
    match root_error(target_root) {
        Some(error) => Some(SnapshotError::TargetRoot(error)),
        None => match root_error(cache_root) {
            Some(error) => Some(SnapshotError::CacheRoot(error)),
            None => match directory_error(disk.own(target_root)) {
                Some(error) => Some(error),
                None => directory_error(disk.own(cache_root)),
            },
        },
    }
}

/// Whether the roots of a snapshot are directories with paths that can stand
/// in a manifest.
pub fn validate_roots(disk: &SnapshotDisk, target_root: &[u8], cache_root: &[u8]) -> (result:
    Result<(), SnapshotError>)
    ensures
        match result {
            Ok(_) => roots_error(*disk, target_root@, cache_root@) is None,
            Err(error) => roots_error(*disk, target_root@, cache_root@) == Some(error),
        },
{
    match validate_absolute_root(target_root) {
        Ok(_) => {},
        Err(error) => {
            return Err(SnapshotError::TargetRoot(error));
        },
    }
    match validate_absolute_root(cache_root) {
        Ok(_) => {},
        Err(error) => {
            return Err(SnapshotError::CacheRoot(error));
        },
    }
    match validate_directory_no_follow(disk, target_root) {
        Ok(_) => {},
        Err(error) => {
            return Err(error);
        },
    }
    validate_directory_no_follow(disk, cache_root)
}

/// A copy of recorded outputs.
fn copy_pending(list: &Vec<PendingRecord>) -> (copy: Vec<PendingRecord>)
    ensures
        plain_pending(copy@) == plain_pending(list@),
{
    let mut copy: Vec<PendingRecord> = Vec::new();
    let mut index: usize = 0;
    while index < list.len()
        invariant
            index <= list@.len(),
            copy@.len() == index,
            plain_pending(copy@) == plain_pending(list@).take(index as int),
        decreases list@.len() - index,
    {
        let ghost before = copy@;
        copy.push(
            PendingRecord {
                cache_entry: copy_bytes(list[index].cache_entry.as_slice()),
                target_output: copy_bytes(list[index].target_output.as_slice()),
            },
        );
        proof {
            assert(plain_pending(copy@) =~= plain_pending(before).push(
                plain_pending(list@)[index as int],
            ));
            assert(plain_pending(list@).take(index + 1) =~= plain_pending(list@).take(
                index as int,
            ).push(plain_pending(list@)[index as int]));
        }
        index = index + 1;
    }
    proof {
        assert(plain_pending(list@).take(index as int) =~= plain_pending(list@));
    }
    copy
}

/// The order of recorded outputs.
pub open spec fn pending_less(left: Pending, right: Pending) -> bool {
    path_less(left.1, right.1) || (same_path(left.1, right.1) && path_less(left.0, right.0))
}

/// The order of recorded outputs, as a function value.
pub open spec fn pending_order() -> spec_fn(Pending, Pending) -> bool {
    |left: Pending, right: Pending| pending_less(left, right)
}

/// Sorting recorded outputs, seen as plain values.
proof fn lemma_plain_sorted(list: Seq<PendingRecord>)
    ensures
        plain_pending(sorted(list, order_of())) == sorted(plain_pending(list), pending_order()),
{
    let key = |pending: PendingRecord| (pending.cache_entry@, pending.target_output@);
    lemma_sorted_keys(list, order_of::<PendingRecord>(), key, pending_order());
    assert(plain_pending(list) =~= list.map_values(key));
    assert(plain_pending(sorted(list, order_of())) =~= sorted(list, order_of()).map_values(key));
}

impl Recorder {
    /// The records of everything that was recorded, taken in the order of the
    /// target outputs, then of the cache entries.
    pub open spec fn records(&self, disk: SnapshotDisk) -> Result<Seq<Record>, SnapshotError> {
        gathered(
            disk,
            self.target_root@,
            self.cache_root@,
            sorted(self.recorded(), pending_order()),
        )
    }

    /// The manifest of everything that was recorded.
    pub fn write(&self, disk: &SnapshotDisk) -> (manifest: Result<SnapshotManifest, SnapshotError>)
        ensures
            match manifest {
                Ok(manifest) => roots_error(*disk, self.target_root@, self.cache_root@) is None
                    && manifest.version == SNAPSHOT_VERSION && manifest.target_root@ == decode_utf8(
                    self.target_root@,
                ) && self.records(*disk) == Ok::<Seq<Record>, SnapshotError>(
                    plain_records(manifest.records@),
                ),
                Err(error) => match roots_error(*disk, self.target_root@, self.cache_root@) {
                    Some(expected) => error == expected,
                    None => self.records(*disk) == Err::<Seq<Record>, SnapshotError>(error),
                },
            },
    {
        match validate_roots(disk, self.target_root.as_slice(), self.cache_root.as_slice()) {
            Ok(_) => {},
            Err(error) => {
                return Err(error);
            },
        }
        let target_root = match path_as_utf8(self.target_root.as_slice()) {
            Ok(text) => text,
            Err(error) => {
                return Err(SnapshotError::TargetRoot(error));
            },
        };
        let copy = copy_pending(&self.pending);
        proof {
            lemma_plain_sorted(copy@);
        }
        let pending = sort(copy);
        match gather(disk, self.target_root.as_slice(), self.cache_root.as_slice(), &pending) {
            Ok(records) => Ok(
                SnapshotManifest { version: SNAPSHOT_VERSION, target_root, records },
            ),
            Err(error) => Err(error),
        }
    }
}

/// The sizes of records together.
pub open spec fn total_size(records: Seq<Record>) -> int
    decreases records.len(),
{
    if records.len() == 0 {
        0
    } else {
        total_size(records.drop_last()) + records.last().size
    }
}

/// The sizes of the first records are no more than those of all.
proof fn lemma_total_size_grows(records: Seq<Record>, count: int)
    requires
        0 <= count <= records.len(),
    ensures
        0 <= total_size(records.take(count)) <= total_size(records),
    decreases records.len(),
{
    if count < records.len() {
        lemma_total_size_grows(records.drop_last(), count);
        assert(records.drop_last().take(count) =~= records.take(count));
    } else {
        assert(records.take(count) =~= records);
        if records.len() > 0 {
            lemma_total_size_grows(records.drop_last(), count - 1);
            assert(records.drop_last().take(count - 1) =~= records.drop_last());
        }
    }
}

/// How many outputs and bytes a manifest certifies. `None` where the number of
/// bytes does not fit.
pub fn manifest_summary(manifest: &SnapshotManifest) -> (summary: Option<ManifestSummary>)
    ensures
        match summary {
            Some(summary) => summary.files == manifest.records@.len() && summary.logical_bytes
                == total_size(plain_records(manifest.records@)),
            None => total_size(plain_records(manifest.records@)) > u64::MAX,
        },
{
    let ghost all = plain_records(manifest.records@);
    let mut bytes: u64 = 0;
    let mut index: usize = 0;
    proof {
        assert(all.take(0) =~= Seq::empty());
    }
    while index < manifest.records.len()
        invariant
            index <= manifest.records@.len(),
            all == plain_records(manifest.records@),
            bytes == total_size(all.take(index as int)),
        decreases manifest.records@.len() - index,
    {
        proof {
            assert(all.take(index + 1).drop_last() =~= all.take(index as int));
            assert(all.take(index + 1).last() == all[index as int]);
            lemma_total_size_grows(all, index + 1);
        }
        match bytes.checked_add(manifest.records[index].size) {
            Some(sum) => {
                bytes = sum;
            },
            None => {
                return None;
            },
        }
        index = index + 1;
    }
    proof {
        assert(all.take(index as int) =~= all);
    }
    Some(ManifestSummary { files: manifest.records.len() as u64, logical_bytes: bytes })
}

/// Whether records are in the strict order of their target paths.
pub open spec fn in_target_order(list: Seq<Record>) -> bool {
    forall|i: int, j: int|
        0 <= i < j < list.len() ==> text_less(
            (#[trigger] list[i]).target_path,
            (#[trigger] list[j]).target_path,
        )
}

/// Whether one of the recorded outputs gives a record.
pub open spec fn is_found(
    disk: SnapshotDisk,
    target_root: Seq<u8>,
    cache_root: Seq<u8>,
    pending: Seq<Pending>,
    record: Record,
) -> bool {
    exists|p: Pending|
        #[trigger] pending.contains(p) && certified(disk, target_root, cache_root, p) == Ok::<
            Option<Record>,
            SnapshotError,
        >(Some(record))
}

/// Whether a record is the least of those that recorded outputs give for its
/// target path.
pub open spec fn is_least(
    disk: SnapshotDisk,
    target_root: Seq<u8>,
    cache_root: Seq<u8>,
    pending: Seq<Pending>,
    record: Record,
) -> bool {
    &&& is_found(disk, target_root, cache_root, pending, record)
    &&& forall|other: Record|
        other.target_path == record.target_path && #[trigger] is_found(
            disk,
            target_root,
            cache_root,
            pending,
            other,
        ) ==> !record_less(other, record)
}

/// Whether a list holds the target path of every record that is found.
pub open spec fn holds_targets(
    disk: SnapshotDisk,
    target_root: Seq<u8>,
    cache_root: Seq<u8>,
    pending: Seq<Pending>,
    list: Seq<Record>,
) -> bool {
    forall|record: Record|
        #[trigger] is_found(disk, target_root, cache_root, pending, record) ==> exists|i: int|
            0 <= i < list.len() && (#[trigger] list[i]).target_path == record.target_path
}

/// The order of texts is strict and total.
pub proof fn lemma_text_order(left: Seq<char>, right: Seq<char>)
    ensures
        !text_less(left, left),
        text_less(left, right) ==> !text_less(right, left),
        left == right || text_less(left, right) || text_less(right, left),
{
    lemma_bytes_less_strict(utf8(left), utf8(right));
    lemma_bytes_less_total(utf8(left), utf8(right));
    encode_utf8_decode_utf8(left);
    encode_utf8_decode_utf8(right);
}

/// The order of records is total.
proof fn lemma_record_order_total(left: Record, right: Record)
    ensures
        left == right || record_less(left, right) || record_less(right, left),
{
    lemma_text_order(left.target_path, right.target_path);
    lemma_text_order(left.cache_entry, right.cache_entry);
    lemma_text_order(left.cache_filename, right.cache_filename);
    lemma_text_order(left.cache_digest, right.cache_digest);
    if !record_less(left, right) && !record_less(right, left) {
        assert(left =~= right);
    }
}

/// The order of texts is transitive.
proof fn lemma_text_order_transitive(left: Seq<char>, middle: Seq<char>, right: Seq<char>)
    ensures
        text_less(left, middle) && text_less(middle, right) ==> text_less(left, right),
{
    if text_less(left, middle) && text_less(middle, right) {
        lemma_bytes_less_transitive(utf8(left), utf8(middle), utf8(right));
    }
}

/// The order of records is transitive.
proof fn lemma_record_order_transitive(left: Record, middle: Record, right: Record)
    requires
        record_less(left, middle),
        record_less(middle, right),
    ensures
        record_less(left, right),
{
    lemma_text_order(left.target_path, middle.target_path);
    lemma_text_order(left.cache_entry, middle.cache_entry);
    lemma_text_order(left.cache_filename, middle.cache_filename);
    lemma_text_order(left.cache_digest, middle.cache_digest);
    lemma_text_order_transitive(left.target_path, middle.target_path, right.target_path);
    lemma_text_order_transitive(left.cache_entry, middle.cache_entry, right.cache_entry);
    lemma_text_order_transitive(left.cache_filename, middle.cache_filename, right.cache_filename);
    lemma_text_order_transitive(left.cache_digest, middle.cache_digest, right.cache_digest);
}

/// Of two records, the one that stays.
pub open spec fn lesser(record: Record, old_record: Record) -> Record {
    if record_less(record, old_record) {
        record
    } else {
        old_record
    }
}

/// What adding a record to a list in order does.
proof fn lemma_with_record(list: Seq<Record>, record: Record)
    requires
        in_target_order(list),
    ensures
        in_target_order(with_record(list, record)),
        forall|i: int|
            0 <= i < list.len() && (#[trigger] list[i]).target_path == record.target_path
                ==> with_record(list, record) == list.update(i, lesser(record, list[i])),
        (forall|i: int|
            0 <= i < list.len() ==> (#[trigger] list[i]).target_path != record.target_path) ==> {
            &&& with_record(list, record).contains(record)
            &&& forall|other: Record|
                #[trigger] with_record(list, record).contains(other) <==> other == record
                    || list.contains(other)
        },
    decreases list.len(),
{
    let result = with_record(list, record);
    if list.len() == 0 {
        assert(result[0] == record);
        assert forall|other: Record| #[trigger] result.contains(other) implies other == record
            || list.contains(other) by {}
    } else {
        let last = list.last();
        let front = list.drop_last();
        assert(last == list[list.len() - 1]);
        assert forall|i: int, j: int| 0 <= i < j < front.len() implies text_less(
            (#[trigger] front[i]).target_path,
            (#[trigger] front[j]).target_path,
        ) by {
            assert(front[i] == list[i] && front[j] == list[j]);
        }
        assert forall|i: int| 0 <= i < front.len() implies text_less(
            (#[trigger] front[i]).target_path,
            last.target_path,
        ) by {
            assert(front[i] == list[i]);
        }
        lemma_text_order(record.target_path, last.target_path);
        if last.target_path == record.target_path {
            assert forall|i: int|
                0 <= i < list.len() && (#[trigger] list[i]).target_path
                    == record.target_path implies result == list.update(
                i,
                lesser(record, list[i]),
            ) by {
                if i < list.len() - 1 {
                    assert(front[i] == list[i]);
                }
                assert(result =~= list.update(i, lesser(record, list[i])));
            }
        } else if text_less(record.target_path, last.target_path) {
            lemma_with_record(front, record);
            let smaller = with_record(front, record);
            assert(result == smaller.push(last));
            assert forall|i: int| 0 <= i < smaller.len() implies text_less(
                (#[trigger] smaller[i]).target_path,
                last.target_path,
            ) by {
                if exists|k: int|
                    0 <= k < front.len() && (#[trigger] front[k]).target_path
                        == record.target_path {
                    let k = choose|k: int|
                        0 <= k < front.len() && (#[trigger] front[k]).target_path
                            == record.target_path;
                    assert(smaller == front.update(k, lesser(record, front[k])));
                    if i != k {
                        assert(smaller[i] == front[i]);
                    }
                } else {
                    assert(smaller.contains(smaller[i]));
                    if smaller[i] != record {
                        let k = choose|k: int| 0 <= k < front.len() && front[k] == smaller[i];
                        assert(front[k].target_path == smaller[i].target_path);
                    }
                }
            }
            assert forall|i: int|
                0 <= i < list.len() && (#[trigger] list[i]).target_path
                    == record.target_path implies result == list.update(
                i,
                lesser(record, list[i]),
            ) by {
                assert(i < front.len());
                assert(front[i].target_path == record.target_path);
                assert(result =~= list.update(i, lesser(record, list[i])));
            }
            if forall|i: int|
                0 <= i < list.len() ==> (#[trigger] list[i]).target_path != record.target_path {
                assert forall|i: int| 0 <= i < front.len() implies (#[trigger] front[i]).target_path
                    != record.target_path by {
                    assert(front[i] == list[i]);
                }
                assert forall|other: Record|
                    #[trigger] result.contains(other) <==> other == record || list.contains(
                        other,
                    ) by {
                    lemma_contains_push(smaller, last, other);
                    lemma_contains_push(front, last, other);
                    assert(front.push(last) =~= list);
                    assert(smaller.contains(other) <==> other == record || front.contains(other));
                }
            }
        } else {
            assert(result == list.push(record));
            assert forall|i: int| 0 <= i < list.len() implies text_less(
                (#[trigger] list[i]).target_path,
                record.target_path,
            ) by {
                if i < list.len() - 1 {
                    assert(front[i] == list[i]);
                    lemma_text_order_transitive(
                        list[i].target_path,
                        last.target_path,
                        record.target_path,
                    );
                }
            }
            assert forall|i: int| 0 <= i < list.len() implies (#[trigger] list[i]).target_path
                != record.target_path by {
                lemma_text_order(list[i].target_path, record.target_path);
            }
            assert forall|other: Record|
                #[trigger] result.contains(other) <==> other == record || list.contains(other) by {
                lemma_contains_push(list, record, other);
            }
        }
    }
}

/// What a list with one more item holds.
pub proof fn lemma_contains_push<T>(list: Seq<T>, item: T, other: T)
    ensures
        list.push(item).contains(other) <==> other == item || list.contains(other),
{
    let longer = list.push(item);
    if list.contains(other) {
        let i = choose|i: int| 0 <= i < list.len() && list[i] == other;
        assert(longer[i] == other);
    }
    assert(longer[list.len() as int] == item);
    if longer.contains(other) {
        let i = choose|i: int| 0 <= i < longer.len() && longer[i] == other;
        if i < list.len() {
            assert(list[i] == other);
        }
    }
}

/// The records of a manifest are in the order of their target paths, and of
/// all records that outputs give for one target path it holds the least.
pub proof fn law_manifests_hold_least_records(
    disk: SnapshotDisk,
    target_root: Seq<u8>,
    cache_root: Seq<u8>,
    pending: Seq<Pending>,
)
    requires
        gathered(disk, target_root, cache_root, pending) is Ok,
    ensures
        in_target_order(gathered(disk, target_root, cache_root, pending)->Ok_0),
        forall|i: int|
            0 <= i < gathered(disk, target_root, cache_root, pending)->Ok_0.len() ==> is_least(
                disk,
                target_root,
                cache_root,
                pending,
                #[trigger] gathered(disk, target_root, cache_root, pending)->Ok_0[i],
            ),
        holds_targets(
            disk,
            target_root,
            cache_root,
            pending,
            gathered(disk, target_root, cache_root, pending)->Ok_0,
        ),
    decreases pending.len(),
{
    let list = gathered(disk, target_root, cache_root, pending)->Ok_0;
    if pending.len() > 0 {
        let before = pending.drop_last();
        let last = pending.last();
        law_manifests_hold_least_records(disk, target_root, cache_root, before);
        let earlier = gathered(disk, target_root, cache_root, before)->Ok_0;
        let outcome = certified(disk, target_root, cache_root, last);
        assert forall|record: Record|
            #[trigger] is_found(disk, target_root, cache_root, pending, record) <==> is_found(
                disk,
                target_root,
                cache_root,
                before,
                record,
            ) || outcome == Ok::<Option<Record>, SnapshotError>(Some(record)) by {
            assert(before.push(last) =~= pending);
            assert forall|p: Pending| #[trigger] pending.contains(p) <==> p == last
                || before.contains(p) by {
                lemma_contains_push(before, last, p);
            }
            assert(pending.contains(last));
            if is_found(disk, target_root, cache_root, before, record) {
                let p = choose|p: Pending|
                    #[trigger] before.contains(p) && certified(disk, target_root, cache_root, p)
                        == Ok::<Option<Record>, SnapshotError>(Some(record));
                assert(pending.contains(p));
            }
        }
        match outcome {
            Ok(Some(record)) => {
                lemma_with_record(earlier, record);
                lemma_added_record(disk, target_root, cache_root, pending, record, earlier, list);
            },
            _ => {
                assert(list == earlier);
                assert forall|i: int| 0 <= i < list.len() implies is_least(
                    disk,
                    target_root,
                    cache_root,
                    pending,
                    #[trigger] list[i],
                ) by {
                    assert(is_least(disk, target_root, cache_root, before, earlier[i]));
                }
                assert forall|record: Record|
                    #[trigger] is_found(
                        disk,
                        target_root,
                        cache_root,
                        pending,
                        record,
                    ) implies exists|i: int|
                    0 <= i < list.len() && (#[trigger] list[i]).target_path
                        == record.target_path by {
                    assert(is_found(disk, target_root, cache_root, before, record));
                }
            },
        }
    }
}

/// Adding the record of the last output keeps the least records.
#[verifier::rlimit(60)]
proof fn lemma_added_record(
    disk: SnapshotDisk,
    target_root: Seq<u8>,
    cache_root: Seq<u8>,
    pending: Seq<Pending>,
    record: Record,
    earlier: Seq<Record>,
    list: Seq<Record>,
)
    requires
        pending.len() > 0,
        in_target_order(earlier),
        list == with_record(earlier, record),
        forall|i: int|
            0 <= i < earlier.len() ==> is_least(
                disk,
                target_root,
                cache_root,
                pending.drop_last(),
                #[trigger] earlier[i],
            ),
        holds_targets(disk, target_root, cache_root, pending.drop_last(), earlier),
        forall|other: Record|
            #[trigger] is_found(disk, target_root, cache_root, pending, other) <==> is_found(
                disk,
                target_root,
                cache_root,
                pending.drop_last(),
                other,
            ) || other == record,
    ensures
        forall|i: int|
            0 <= i < list.len() ==> is_least(
                disk,
                target_root,
                cache_root,
                pending,
                #[trigger] list[i],
            ),
        holds_targets(disk, target_root, cache_root, pending, list),
{
    let before = pending.drop_last();
    lemma_with_record(earlier, record);
    assert(!record_less(record, record)) by {
        lemma_text_order(record.target_path, record.target_path);
    }
    if exists|k: int|
        0 <= k < earlier.len() && (#[trigger] earlier[k]).target_path == record.target_path {
        let k = choose|k: int|
            0 <= k < earlier.len() && (#[trigger] earlier[k]).target_path == record.target_path;
        assert(list == earlier.update(k, lesser(record, earlier[k])));
        assert forall|i: int| 0 <= i < list.len() implies is_least(
            disk,
            target_root,
            cache_root,
            pending,
            #[trigger] list[i],
        ) by {
            assert(is_least(disk, target_root, cache_root, before, earlier[i]));
            assert(is_least(disk, target_root, cache_root, before, earlier[k]));
            let kept = list[i];
            assert(is_found(disk, target_root, cache_root, pending, kept));
            assert forall|other: Record|
                other.target_path == kept.target_path && #[trigger] is_found(
                    disk,
                    target_root,
                    cache_root,
                    pending,
                    other,
                ) implies !record_less(other, kept) by {
                if i == k {
                    if kept == record {
                        if record_less(other, record) && record_less(record, earlier[k]) {
                            lemma_record_order_transitive(other, record, earlier[k]);
                        }
                    }
                } else {
                    assert(kept == earlier[i]);
                    if other == record {
                        if i < k {
                            lemma_text_order(earlier[i].target_path, earlier[k].target_path);
                        } else {
                            lemma_text_order(earlier[k].target_path, earlier[i].target_path);
                        }
                    }
                }
            }
        }
        assert forall|other: Record|
            #[trigger] is_found(disk, target_root, cache_root, pending, other) implies exists|
            i: int,
        | 0 <= i < list.len() && (#[trigger] list[i]).target_path == other.target_path by {
            if is_found(disk, target_root, cache_root, before, other) {
                let i = choose|i: int|
                    0 <= i < earlier.len() && (#[trigger] earlier[i]).target_path
                        == other.target_path;
                assert(list[i].target_path == other.target_path);
            } else {
                assert(list[k].target_path == record.target_path);
            }
        }
    } else {
        assert forall|i: int| 0 <= i < list.len() implies is_least(
            disk,
            target_root,
            cache_root,
            pending,
            #[trigger] list[i],
        ) by {
            let kept = list[i];
            assert(list.contains(kept));
            if kept != record {
                let k = choose|k: int| 0 <= k < earlier.len() && earlier[k] == kept;
                assert(is_least(disk, target_root, cache_root, before, earlier[k]));
            }
            assert(is_found(disk, target_root, cache_root, pending, kept));
            assert forall|other: Record|
                other.target_path == kept.target_path && #[trigger] is_found(
                    disk,
                    target_root,
                    cache_root,
                    pending,
                    other,
                ) implies !record_less(other, kept) by {
                if kept == record && other != record {
                    assert(is_found(disk, target_root, cache_root, before, other));
                    let k = choose|k: int|
                        0 <= k < earlier.len() && (#[trigger] earlier[k]).target_path
                            == other.target_path;
                    assert(earlier[k].target_path == record.target_path);
                } else if kept != record && other == record {
                    let k = choose|k: int| 0 <= k < earlier.len() && earlier[k] == kept;
                    assert(earlier[k].target_path == record.target_path);
                }
            }
        }
        assert forall|other: Record|
            #[trigger] is_found(disk, target_root, cache_root, pending, other) implies exists|
            i: int,
        | 0 <= i < list.len() && (#[trigger] list[i]).target_path == other.target_path by {
            if is_found(disk, target_root, cache_root, before, other) {
                let k = choose|k: int|
                    0 <= k < earlier.len() && (#[trigger] earlier[k]).target_path
                        == other.target_path;
                assert(earlier.contains(earlier[k]));
                assert(list.contains(earlier[k]));
                let i = choose|i: int| 0 <= i < list.len() && list[i] == earlier[k];
                assert(list[i].target_path == other.target_path);
            } else {
                assert(list.contains(record));
                let i = choose|i: int| 0 <= i < list.len() && list[i] == record;
                assert(list[i].target_path == other.target_path);
            }
        }
    }
}

/// Lists in order with the same items are equal.
proof fn lemma_ordered_lists_equal(left: Seq<Record>, right: Seq<Record>)
    requires
        in_target_order(left),
        in_target_order(right),
        forall|record: Record| #[trigger] left.contains(record) <==> right.contains(record),
    ensures
        left == right,
    decreases left.len(),
{
    if left.len() == 0 || right.len() == 0 {
        if left.len() > 0 {
            assert(left.contains(left[0]));
            assert(right.contains(left[0]));
        }
        if right.len() > 0 {
            assert(right.contains(right[0]));
            assert(left.contains(right[0]));
        }
        assert(left =~= right);
    } else {
        let l = left.last();
        let r = right.last();
        assert(left.contains(l));
        assert(right.contains(l));
        assert(right.contains(r));
        assert(left.contains(r));
        let i = choose|i: int| 0 <= i < right.len() && right[i] == l;
        let j = choose|j: int| 0 <= j < left.len() && left[j] == r;
        assert(l == left[left.len() - 1]);
        assert(r == right[right.len() - 1]);
        if l != r {
            assert(text_less(right[i].target_path, right[right.len() - 1].target_path));
            assert(text_less(left[j].target_path, left[left.len() - 1].target_path));
            lemma_text_order(l.target_path, r.target_path);
        }
        let lf = left.drop_last();
        let rf = right.drop_last();
        assert forall|record: Record| #[trigger] lf.contains(record) <==> rf.contains(record) by {
            lemma_contains_push(lf, l, record);
            lemma_contains_push(rf, r, record);
            assert(lf.push(l) =~= left);
            assert(rf.push(r) =~= right);
            assert(left.contains(record) <==> right.contains(record));
            if lf.contains(l) {
                let k = choose|k: int| 0 <= k < lf.len() && lf[k] == l;
                assert(text_less(left[k].target_path, left[left.len() - 1].target_path));
                lemma_text_order(l.target_path, l.target_path);
            }
            if rf.contains(r) {
                let k = choose|k: int| 0 <= k < rf.len() && rf[k] == r;
                assert(text_less(right[k].target_path, right[right.len() - 1].target_path));
                lemma_text_order(r.target_path, r.target_path);
            }
        }
        assert forall|i: int, j: int| 0 <= i < j < lf.len() implies text_less(
            (#[trigger] lf[i]).target_path,
            (#[trigger] lf[j]).target_path,
        ) by {
            assert(lf[i] == left[i] && lf[j] == left[j]);
        }
        assert forall|i: int, j: int| 0 <= i < j < rf.len() implies text_less(
            (#[trigger] rf[i]).target_path,
            (#[trigger] rf[j]).target_path,
        ) by {
            assert(rf[i] == right[i] && rf[j] == right[j]);
        }
        lemma_ordered_lists_equal(lf, rf);
        assert(lf.push(l) =~= left);
        assert(rf.push(r) =~= right);
    }
}

/// A manifest does not depend on the order in which outputs were recorded, nor
/// on how often.
pub proof fn law_manifests_ignore_recording_order(
    disk: SnapshotDisk,
    target_root: Seq<u8>,
    cache_root: Seq<u8>,
    left: Seq<Pending>,
    right: Seq<Pending>,
)
    requires
        forall|pending: Pending| #[trigger] left.contains(pending) <==> right.contains(pending),
        gathered(disk, target_root, cache_root, left) is Ok,
        gathered(disk, target_root, cache_root, right) is Ok,
    ensures
        gathered(disk, target_root, cache_root, left) == gathered(
            disk,
            target_root,
            cache_root,
            right,
        ),
{
    law_manifests_hold_least_records(disk, target_root, cache_root, left);
    law_manifests_hold_least_records(disk, target_root, cache_root, right);
    let l = gathered(disk, target_root, cache_root, left)->Ok_0;
    let r = gathered(disk, target_root, cache_root, right)->Ok_0;
    assert forall|record: Record|
        #[trigger] is_found(disk, target_root, cache_root, left, record) <==> is_found(
            disk,
            target_root,
            cache_root,
            right,
            record,
        ) by {
        if is_found(disk, target_root, cache_root, right, record) {
            let p = choose|p: Pending|
                #[trigger] right.contains(p) && certified(disk, target_root, cache_root, p) == Ok::<
                    Option<Record>,
                    SnapshotError,
                >(Some(record));
            assert(left.contains(p));
        }
    }
    assert forall|record: Record| #[trigger] l.contains(record) <==> r.contains(record) by {
        if l.contains(record) {
            lemma_least_is_held(disk, target_root, cache_root, left, right, l, r, record);
        }
        if r.contains(record) {
            assert forall|other: Record|
                #[trigger] is_found(disk, target_root, cache_root, right, other) <==> is_found(
                    disk,
                    target_root,
                    cache_root,
                    left,
                    other,
                ) by {
                assert(is_found(disk, target_root, cache_root, left, other) || !is_found(
                    disk,
                    target_root,
                    cache_root,
                    left,
                    other,
                ));
            }
            lemma_least_is_held(disk, target_root, cache_root, right, left, r, l, record);
        }
    }
    lemma_ordered_lists_equal(l, r);
}

/// A record of one manifest stands in another that is made from the same.
proof fn lemma_least_is_held(
    disk: SnapshotDisk,
    target_root: Seq<u8>,
    cache_root: Seq<u8>,
    left: Seq<Pending>,
    right: Seq<Pending>,
    l: Seq<Record>,
    r: Seq<Record>,
    record: Record,
)
    requires
        forall|i: int|
            0 <= i < l.len() ==> is_least(disk, target_root, cache_root, left, #[trigger] l[i]),
        forall|i: int|
            0 <= i < r.len() ==> is_least(disk, target_root, cache_root, right, #[trigger] r[i]),
        holds_targets(disk, target_root, cache_root, right, r),
        forall|other: Record|
            #[trigger] is_found(disk, target_root, cache_root, left, other) <==> is_found(
                disk,
                target_root,
                cache_root,
                right,
                other,
            ),
        l.contains(record),
    ensures
        r.contains(record),
{
    let i = choose|i: int| 0 <= i < l.len() && l[i] == record;
    assert(is_least(disk, target_root, cache_root, left, l[i]));
    assert(is_found(disk, target_root, cache_root, right, record));
    let k = choose|k: int|
        0 <= k < r.len() && (#[trigger] r[k]).target_path == record.target_path;
    assert(is_least(disk, target_root, cache_root, right, r[k]));
    assert(is_found(disk, target_root, cache_root, left, r[k]));
    lemma_record_order_total(record, r[k]);
    assert(r[k] == record);
}

/// A record is made only of an output that the cache vouches for: the output is a
/// regular file with the digest that the entry lists for it, the entry holds a file
/// with that digest and the same length, and the record tells the output's length,
/// time and permissions.
pub proof fn law_records_are_vouched_for(
    disk: SnapshotDisk,
    target_root: Seq<u8>,
    cache_root: Seq<u8>,
    pending: Pending,
)
    ensures
        certified(disk, target_root, cache_root, pending) matches Ok(Some(record)) ==> {
            let name = "files/"@ + record.cache_filename;
            &&& disk.own(pending.1) matches Lookup::Found(metadata) && metadata.kind
                == FileKind::File && record.size == metadata.len && record.mtime_sec
                == metadata.modified.seconds && record.mtime_nsec == metadata.modified.nanoseconds
                && record.mode == metadata.mode & 0xfff
            &&& disk.digest(pending.1) == Some(record.cache_digest)
            &&& is_hex_digest(record.cache_digest)
            &&& stored_at(disk.files(pending.0), name) matches Lookup::Found(contents)
                && hex_digest(contents) == record.cache_digest
            &&& disk.followed_len(
                joined(joined(pending.0, utf8("files"@)), file_name(pending.1)->Some_0),
            ) == Some(record.size)
            &&& file_name(pending.1) is Some
            &&& record.cache_filename == decode_utf8(file_name(pending.1)->Some_0)
        },
{
    if let Ok(Some(record)) = certified(disk, target_root, cache_root, pending) {
        let files = disk.files(pending.0);
        let list = verified_manifest(files)->Ok_0->Some_0;
        let stored = cached_path(record.cache_filename);
        let required = seq![stored];
        assert(required.drop_last() =~= Seq::<Seq<char>>::empty());
        assert(required.last() == stored);
        assert(files_verified(files, list, required.drop_last()) == Ok::<bool, EntryError>(true));
        assert(files_verified(files, list, required) == file_verified(files, list, stored));
    }
}

} // verus!
