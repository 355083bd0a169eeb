//! Exact-path manifests for thin target-directory snapshots.
//!
//! A snapshot manifest lists the target outputs that the shared artifact cache
//! can rebuild.

use vstd::prelude::*;
use vstd::string::*;
use vstd::utf8::*;

use crate::bytes::bytes_before;
use crate::bytes::bytes_equal;
use crate::bytes::bytes_less;
use crate::bytes::copy_bytes;
use crate::bytes::utf8;
use crate::digest::blake3_hex;
use crate::digest::hex_digest;
use crate::digest::is_blake3_hex_digest;
use crate::digest::is_hex_digest;
use crate::disk::FileKind;
use crate::disk::Lookup;
use crate::disk::Timestamp;
use crate::entry::EntryError;
use crate::entry::StoredFile;
use crate::snapshot_paths::decode_safe_filename;
use crate::snapshot_paths::decode_safe_relative;
use crate::snapshot_paths::decoded_path;
use crate::snapshot_paths::is_safe_component;
use crate::snapshot_paths::PathError;
use crate::text::text_is;
use crate::unix_path::byte_strings;
use crate::unix_path::components;
use crate::unix_path::join_path;
use crate::unix_path::joined;
use crate::unix_path::parent;
use crate::unix_path::path_components;
use crate::unix_path::path_parent;
use crate::unix_path::DOT;
use crate::unix_path::SEPARATOR;

verus! {

/// The version of the manifests.
pub const SNAPSHOT_VERSION: u32 = 1;

/// The bits of a file mode that a manifest keeps.
pub const PERMISSION_MODE_MASK: u32 = 0xfff;

/// Why a manifest cannot be written or followed.
#[derive(Clone, Copy, Debug, PartialEq, Eq, Structural)]
pub enum SnapshotError {
    TargetRoot(PathError),
    CacheRoot(PathError),
    TargetPath(PathError),
    CacheEntry(PathError),
    CacheFilename(PathError),
    /// A node cannot be inspected.
    Uninspectable,
    /// A node is not a directory, symbolic links not followed.
    NotDirectory,
    /// A node is not a regular file, symbolic links not followed.
    NotRegularFile,
    /// A path has other components than names.
    UnsafeComponent,
    OutsideTargetRoot,
    OutsideCacheRoot,
    NoFilename,
    UnsupportedVersion(u32),
    TargetRootMismatch,
    InvalidDigest,
    InvalidMode,
    InvalidNanoseconds,
    RepeatedTarget,
    FilenameMismatch,
    Entry(EntryError),
    IncompleteEntry,
    DigestMismatch,
    CorruptFile,
    SizeMismatch,
    /// A target that exists differs from what the manifest says.
    TargetMismatch,
    /// A target appeared while it was restored.
    TargetAppeared,
    /// The cached file changed while it was copied.
    SourceChanged,
    /// The file system cannot represent the metadata of a target.
    UnrepresentableMetadata,
}

/// The metadata of a node, symbolic links not followed.
#[derive(Clone, Copy, Debug, PartialEq, Eq, Structural)]
pub struct SnapshotMetadata {
    pub kind: FileKind,
    pub len: u64,
    pub mode: u32,
    pub modified: Timestamp,
}

/// What is known of one path.
pub struct SnapshotNode {
    pub path: Vec<u8>,
    /// Its metadata, symbolic links not followed.
    pub own: Lookup<SnapshotMetadata>,
    /// The length of what it stands for, symbolic links followed.
    pub followed_len: Option<u64>,
    /// Its contents, where they could be read.
    pub contents: Option<Vec<u8>>,
}

/// The files of one cache entry.
pub struct EntryFiles {
    pub path: Vec<u8>,
    pub files: Vec<StoredFile>,
}

/// What is on disk. A path that is not listed is absent, and an entry that is
/// not listed is empty.
pub struct SnapshotDisk {
    pub nodes: Vec<SnapshotNode>,
    pub entries: Vec<EntryFiles>,
}

/// What is known of `path`.
pub open spec fn node_at(nodes: Seq<SnapshotNode>, path: Seq<u8>) -> Option<SnapshotNode>
    decreases nodes.len(),
{
    if nodes.len() == 0 {
        None
    } else if nodes[0].path@ == path {
        Some(nodes[0])
    } else {
        node_at(nodes.drop_first(), path)
    }
}

/// The files of the entry at `path`.
pub open spec fn files_at(entries: Seq<EntryFiles>, path: Seq<u8>) -> Seq<StoredFile>
    decreases entries.len(),
{
    if entries.len() == 0 {
        Seq::empty()
    } else if entries[0].path@ == path {
        entries[0].files@
    } else {
        files_at(entries.drop_first(), path)
    }
}

/// The digest of a node's contents.
pub open spec fn node_digest(node: SnapshotNode) -> Option<Seq<char>> {
    match node.contents {
        Some(contents) => Some(hex_digest(contents@)),
        None => None,
    }
}

impl SnapshotDisk {
    /// The metadata of `path` itself.
    pub open spec fn own(&self, path: Seq<u8>) -> Lookup<SnapshotMetadata> {
        match node_at(self.nodes@, path) {
            Some(node) => node.own,
            None => Lookup::Missing,
        }
    }

    /// The length of what `path` stands for.
    pub open spec fn followed_len(&self, path: Seq<u8>) -> Option<u64> {
        match node_at(self.nodes@, path) {
            Some(node) => node.followed_len,
            None => None,
        }
    }

    /// The digest of the contents of `path`.
    pub open spec fn digest(&self, path: Seq<u8>) -> Option<Seq<char>> {
        match node_at(self.nodes@, path) {
            Some(node) => node_digest(node),
            None => None,
        }
    }

    /// The files of the entry at `path`.
    pub open spec fn files(&self, path: Seq<u8>) -> Seq<StoredFile> {
        files_at(self.entries@, path)
    }

    /// The position of `path`, or the number of nodes.
    fn find(&self, path: &[u8]) -> (at: usize)
        ensures
            at <= self.nodes@.len(),
            at < self.nodes@.len() ==> node_at(self.nodes@, path@) == Some(self.nodes@[at as int]),
            at == self.nodes@.len() ==> node_at(self.nodes@, path@) is None,
    {
        let mut at: usize = 0;
        proof {
            assert(self.nodes@.skip(0) =~= self.nodes@);
        }
        while at < self.nodes.len()
            invariant
                at <= self.nodes@.len(),
                node_at(self.nodes@, path@) == node_at(self.nodes@.skip(at as int), path@),
            decreases self.nodes@.len() - at,
        {
            proof {
                assert(self.nodes@.skip(at as int)[0] == self.nodes@[at as int]);
                assert(self.nodes@.skip(at as int).drop_first() =~= self.nodes@.skip(at + 1));
            }
            if bytes_equal(self.nodes[at].path.as_slice(), path) {
                return at;
            }
            at = at + 1;
        }
        proof {
            assert(self.nodes@.skip(at as int).len() == 0);
        }
        at
    }

    /// The metadata of `path` itself.
    pub fn symlink_metadata(&self, path: &[u8]) -> (own: Lookup<SnapshotMetadata>)
        ensures
            own == self.own(path@),
    {
        let at: usize = self.find(path);
        if at < self.nodes.len() {
            match &self.nodes[at].own {
                Lookup::Found(metadata) => Lookup::Found(*metadata),
                Lookup::Missing => Lookup::Missing,
                Lookup::Failed => Lookup::Failed,
            }
        } else {
            Lookup::Missing
        }
    }

    /// The length of what `path` stands for.
    pub fn length(&self, path: &[u8]) -> (len: Option<u64>)
        ensures
            len == self.followed_len(path@),
    {
        let at: usize = self.find(path);
        if at < self.nodes.len() {
            self.nodes[at].followed_len
        } else {
            None
        }
    }

    /// The digest of the contents of `path`.
    pub fn rlib_cache_digest(&self, path: &[u8]) -> (digest: Option<String>)
        ensures
            match digest {
                Some(digest) => self.digest(path@) == Some(digest@),
                None => self.digest(path@) is None,
            },
    {
        let at: usize = self.find(path);
        if at < self.nodes.len() {
            match &self.nodes[at].contents {
                Some(contents) => Some(blake3_hex(contents.as_slice())),
                None => None,
            }
        } else {
            None
        }
    }

    /// The position of the entry at `path`, or the number of entries.
    pub fn find_entry(&self, path: &[u8]) -> (at: usize)
        ensures
            at <= self.entries@.len(),
            at < self.entries@.len() ==> self.files(path@) == self.entries@[at as int].files@,
            at == self.entries@.len() ==> self.files(path@).len() == 0,
    {
        let mut at: usize = 0;
        proof {
            assert(self.entries@.skip(0) =~= self.entries@);
        }
        while at < self.entries.len()
            invariant
                at <= self.entries@.len(),
                self.files(path@) == files_at(self.entries@.skip(at as int), path@),
            decreases self.entries@.len() - at,
        {
            proof {
                assert(self.entries@.skip(at as int)[0] == self.entries@[at as int]);
                assert(self.entries@.skip(at as int).drop_first() =~= self.entries@.skip(at + 1));
            }
            if bytes_equal(self.entries[at].path.as_slice(), path) {
                return at;
            }
            at = at + 1;
        }
        proof {
            assert(self.entries@.skip(at as int).len() == 0);
        }
        at
    }
}

/// Whether a component of a path is a name.
pub open spec fn is_name(component: Seq<u8>) -> bool {
    component != seq![SEPARATOR] && component != seq![DOT] && component != seq![DOT, DOT]
}

/// Whether a component of a path is a name.
pub fn component_is_name(component: &[u8]) -> (named: bool)
    ensures
        named == is_name(component@),
{
    let root: [u8; 1] = [SEPARATOR];
    let dot: [u8; 1] = [DOT];
    let above: [u8; 2] = [DOT, DOT];
    proof {
        assert(root@ =~= seq![SEPARATOR]);
        assert(dot@ =~= seq![DOT]);
        assert(above@ =~= seq![DOT, DOT]);
    }
    !bytes_equal(component, &root) && !bytes_equal(component, &dot) && !bytes_equal(
        component,
        &above,
    )
}

/// Why a node is no directory.
pub open spec fn directory_error(own: Lookup<SnapshotMetadata>) -> Option<SnapshotError> {
    match own {
        Lookup::Found(metadata) => if metadata.kind == FileKind::Directory {
            None
        } else {
            Some(SnapshotError::NotDirectory)
        },
        _ => Some(SnapshotError::Uninspectable),
    }
}

/// Whether a path is a directory, symbolic links not followed.
pub fn validate_directory_no_follow(disk: &SnapshotDisk, path: &[u8]) -> (result: Result<
    (),
    SnapshotError,
>)
    ensures
        match result {
            Ok(_) => directory_error(disk.own(path@)) is None,
            Err(error) => directory_error(disk.own(path@)) == Some(error),
        },
{
    match disk.symlink_metadata(path) {
        Lookup::Found(metadata) => if metadata.kind == FileKind::Directory {
            Ok(())
        } else {
            Err(SnapshotError::NotDirectory)
        },
        _ => Err(SnapshotError::Uninspectable),
    }
}

/// Why a walk from `root` down through `list` meets something else than
/// directories.
pub open spec fn descent_error(
    disk: SnapshotDisk,
    root: Seq<u8>,
    list: Seq<Seq<u8>>,
) -> Option<SnapshotError>
    decreases list.len(),
{
    if list.len() == 0 {
        None
    } else if !is_name(list[0]) {
        Some(SnapshotError::UnsafeComponent)
    } else {
        match directory_error(disk.own(joined(root, list[0]))) {
            Some(error) => Some(error),
            None => descent_error(disk, joined(root, list[0]), list.drop_first()),
        }
    }
}

/// Whether a walk from `root` down `relative` meets only directories, symbolic
/// links not followed.
pub fn validate_descendant_directory_no_follow(
    disk: &SnapshotDisk,
    root: &[u8],
    relative: &[u8],
) -> (result: Result<(), SnapshotError>)
    ensures
        match result {
            Ok(_) => descent_error(*disk, root@, components(relative@)) is None,
            Err(error) => descent_error(*disk, root@, components(relative@)) == Some(error),
        },
{
    let list = path_components(relative);
    let ghost all = components(relative@);
    let mut current = copy_bytes(root);
    let mut index: usize = 0;
    proof {
        assert(all.skip(0) =~= all);
    }
    while index < list.len()
        invariant
            index <= list@.len(),
            all == byte_strings(list@),
            all == components(relative@),
            descent_error(*disk, root@, all) == descent_error(
                *disk,
                current@,
                all.skip(index as int),
            ),
        decreases list@.len() - index,
    {
        proof {
            assert(all.skip(index as int)[0] == list@[index as int]@);
            assert(all.skip(index as int).drop_first() =~= all.skip(index + 1));
        }
        if !component_is_name(list[index].as_slice()) {
            return Err(SnapshotError::UnsafeComponent);
        }
        current = join_path(current.as_slice(), list[index].as_slice());
        match validate_directory_no_follow(disk, current.as_slice()) {
            Ok(_) => {},
            Err(error) => {
                return Err(error);
            },
        }
        index = index + 1;
    }
    proof {
        assert(all.skip(index as int).len() == 0);
    }
    Ok(())
}

/// Why the directories above a target cannot be made: the walk ends at the
/// first that is absent.
pub open spec fn parent_walk_error(
    disk: SnapshotDisk,
    root: Seq<u8>,
    list: Seq<Seq<u8>>,
) -> Option<SnapshotError>
    decreases list.len(),
{
    if list.len() == 0 {
        None
    } else if !is_name(list[0]) {
        Some(SnapshotError::UnsafeComponent)
    } else {
        match disk.own(joined(root, list[0])) {
            Lookup::Found(metadata) => if metadata.kind == FileKind::Directory {
                parent_walk_error(disk, joined(root, list[0]), list.drop_first())
            } else {
                Some(SnapshotError::NotDirectory)
            },
            Lookup::Missing => None,
            Lookup::Failed => Some(SnapshotError::Uninspectable),
        }
    }
}

/// Why the directories above a target cannot be made.
pub open spec fn target_parent_error(
    disk: SnapshotDisk,
    root: Seq<u8>,
    relative: Seq<u8>,
) -> Option<SnapshotError> {
    match parent(relative) {
        None => None,
        Some(above) => parent_walk_error(disk, root, components(above)),
    }
}

/// Whether the directories above a target are directories, as far as they
/// exist.
pub fn validate_target_parent_no_follow(
    disk: &SnapshotDisk,
    target_root: &[u8],
    relative: &[u8],
) -> (result: Result<(), SnapshotError>)
    ensures
        match result {
            Ok(_) => target_parent_error(*disk, target_root@, relative@) is None,
            Err(error) => target_parent_error(*disk, target_root@, relative@) == Some(error),
        },
{
    let above = match path_parent(relative) {
        Some(above) => above,
        None => {
            return Ok(());
        },
    };
    let list = path_components(above.as_slice());
    let ghost all = components(above@);
    let mut current = copy_bytes(target_root);
    let mut index: usize = 0;
    proof {
        assert(all.skip(0) =~= all);
    }
    while index < list.len()
        invariant
            index <= list@.len(),
            all == byte_strings(list@),
            target_parent_error(*disk, target_root@, relative@) == parent_walk_error(
                *disk,
                current@,
                all.skip(index as int),
            ),
        decreases list@.len() - index,
    {
        proof {
            assert(all.skip(index as int)[0] == list@[index as int]@);
            assert(all.skip(index as int).drop_first() =~= all.skip(index + 1));
        }
        if !component_is_name(list[index].as_slice()) {
            return Err(SnapshotError::UnsafeComponent);
        }
        current = join_path(current.as_slice(), list[index].as_slice());
        match disk.symlink_metadata(current.as_slice()) {
            Lookup::Found(metadata) => {
                if metadata.kind != FileKind::Directory {
                    return Err(SnapshotError::NotDirectory);
                }
            },
            Lookup::Missing => {
                return Ok(());
            },
            Lookup::Failed => {
                return Err(SnapshotError::Uninspectable);
            },
        }
        index = index + 1;
    }
    proof {
        assert(all.skip(index as int).len() == 0);
    }
    Ok(())
}

/// The metadata of a regular file.
pub open spec fn regular_file(own: Lookup<SnapshotMetadata>) -> Result<
    SnapshotMetadata,
    SnapshotError,
> {
    match own {
        Lookup::Found(metadata) => if metadata.kind == FileKind::File {
            Ok(metadata)
        } else {
            Err(SnapshotError::NotRegularFile)
        },
        _ => Err(SnapshotError::Uninspectable),
    }
}

/// The metadata of a regular file, symbolic links not followed.
pub fn regular_file_metadata(disk: &SnapshotDisk, path: &[u8]) -> (metadata: Result<
    SnapshotMetadata,
    SnapshotError,
>)
    ensures
        metadata == regular_file(disk.own(path@)),
{
    match disk.symlink_metadata(path) {
        Lookup::Found(metadata) => if metadata.kind == FileKind::File {
            Ok(metadata)
        } else {
            Err(SnapshotError::NotRegularFile)
        },
        _ => Err(SnapshotError::Uninspectable),
    }
}

/// The permission bits of a file.
pub fn metadata_mode(metadata: &SnapshotMetadata) -> (mode: u32)
    ensures
        mode == metadata.mode & PERMISSION_MODE_MASK,
{
    metadata.mode & PERMISSION_MODE_MASK
}

/// Whether `digest` is a BLAKE3 digest.
pub fn validate_cache_digest(digest: &str) -> (result: Result<(), SnapshotError>)
    ensures
        match result {
            Ok(_) => is_hex_digest(digest@),
            Err(error) => !is_hex_digest(digest@) && error == SnapshotError::InvalidDigest,
        },
{
    if is_blake3_hex_digest(digest) {
        Ok(())
    } else {
        Err(SnapshotError::InvalidDigest)
    }
}

/// A target output and the cached file that it can be rebuilt from.
#[derive(Debug)]
pub struct SnapshotRecord {
    pub target_path: String,
    pub cache_entry: String,
    pub cache_filename: String,
    pub cache_digest: String,
    pub mode: u32,
    pub size: u64,
    pub mtime_sec: i64,
    pub mtime_nsec: u32,
}

/// A record as plain values.
#[verifier::ext_equal]
pub struct Record {
    pub target_path: Seq<char>,
    pub cache_entry: Seq<char>,
    pub cache_filename: Seq<char>,
    pub cache_digest: Seq<char>,
    pub mode: u32,
    pub size: u64,
    pub mtime_sec: i64,
    pub mtime_nsec: u32,
}

impl View for SnapshotRecord {
    type V = Record;

    open spec fn view(&self) -> Record {
        Record {
            target_path: self.target_path@,
            cache_entry: self.cache_entry@,
            cache_filename: self.cache_filename@,
            cache_digest: self.cache_digest@,
            mode: self.mode,
            size: self.size,
            mtime_sec: self.mtime_sec,
            mtime_nsec: self.mtime_nsec,
        }
    }
}

/// Records as plain values.
pub open spec fn plain_records(list: Seq<SnapshotRecord>) -> Seq<Record> {
    list.map_values(|record: SnapshotRecord| record@)
}

/// The order of texts: by their encodings.
pub open spec fn text_less(left: Seq<char>, right: Seq<char>) -> bool {
    bytes_less(utf8(left), utf8(right))
}

/// Whether `left` comes before `right`.
pub fn text_before(left: &str, right: &str) -> (before: bool)
    ensures
        before == text_less(left@, right@),
{
    bytes_before(left.as_bytes(), right.as_bytes())
}

/// The order of records: field by field.
pub open spec fn record_less(left: Record, right: Record) -> bool {
    if left.target_path != right.target_path {
        text_less(left.target_path, right.target_path)
    } else if left.cache_entry != right.cache_entry {
        text_less(left.cache_entry, right.cache_entry)
    } else if left.cache_filename != right.cache_filename {
        text_less(left.cache_filename, right.cache_filename)
    } else if left.cache_digest != right.cache_digest {
        text_less(left.cache_digest, right.cache_digest)
    } else if left.mode != right.mode {
        left.mode < right.mode
    } else if left.size != right.size {
        left.size < right.size
    } else if left.mtime_sec != right.mtime_sec {
        left.mtime_sec < right.mtime_sec
    } else {
        left.mtime_nsec < right.mtime_nsec
    }
}

/// Whether `left` comes before `right`.
pub fn record_before(left: &SnapshotRecord, right: &SnapshotRecord) -> (before: bool)
    ensures
        before == record_less(left@, right@),
{
    if !text_is(left.target_path.as_str(), right.target_path.as_str()) {
        text_before(left.target_path.as_str(), right.target_path.as_str())
    } else if !text_is(left.cache_entry.as_str(), right.cache_entry.as_str()) {
        text_before(left.cache_entry.as_str(), right.cache_entry.as_str())
    } else if !text_is(left.cache_filename.as_str(), right.cache_filename.as_str()) {
        text_before(left.cache_filename.as_str(), right.cache_filename.as_str())
    } else if !text_is(left.cache_digest.as_str(), right.cache_digest.as_str()) {
        text_before(left.cache_digest.as_str(), right.cache_digest.as_str())
    } else if left.mode != right.mode {
        left.mode < right.mode
    } else if left.size != right.size {
        left.size < right.size
    } else if left.mtime_sec != right.mtime_sec {
        left.mtime_sec < right.mtime_sec
    } else {
        left.mtime_nsec < right.mtime_nsec
    }
}

/// Why a record is not valid.
pub open spec fn record_error(record: Record) -> Option<SnapshotError> {
    match decoded_path(record.target_path) {
        Err(error) => Some(SnapshotError::TargetPath(error)),
        Ok(_) => match decoded_path(record.cache_entry) {
            Err(error) => Some(SnapshotError::CacheEntry(error)),
            Ok(_) => if !is_safe_component(record.cache_filename) {
                Some(SnapshotError::CacheFilename(PathError::UnsafeComponent))
            } else if !is_hex_digest(record.cache_digest) {
                Some(SnapshotError::InvalidDigest)
            } else if record.mode & !PERMISSION_MODE_MASK != 0 {
                Some(SnapshotError::InvalidMode)
            } else if record.mtime_nsec >= 1_000_000_000 {
                Some(SnapshotError::InvalidNanoseconds)
            } else {
                None
            },
        },
    }
}

/// Whether a record is valid.
pub fn validate_snapshot_record(record: &SnapshotRecord) -> (result: Result<(), SnapshotError>)
    ensures
        match result {
            Ok(_) => record_error(record@) is None,
            Err(error) => record_error(record@) == Some(error),
        },
{
    match decode_safe_relative(record.target_path.as_str()) {
        Err(error) => {
            return Err(SnapshotError::TargetPath(error));
        },
        Ok(_) => {},
    }
    match decode_safe_relative(record.cache_entry.as_str()) {
        Err(error) => {
            return Err(SnapshotError::CacheEntry(error));
        },
        Ok(_) => {},
    }
    match decode_safe_filename(record.cache_filename.as_str()) {
        Err(error) => {
            return Err(SnapshotError::CacheFilename(error));
        },
        Ok(_) => {},
    }
    match validate_cache_digest(record.cache_digest.as_str()) {
        Err(error) => {
            return Err(error);
        },
        Ok(_) => {},
    }
    if record.mode & !PERMISSION_MODE_MASK != 0 {
        return Err(SnapshotError::InvalidMode);
    }
    if record.mtime_nsec >= 1_000_000_000 {
        return Err(SnapshotError::InvalidNanoseconds);
    }
    Ok(())
}

/// Whether metadata are those that a record has.
pub open spec fn metadata_matches(metadata: SnapshotMetadata, record: Record) -> bool {
    &&& metadata.kind == FileKind::File
    &&& metadata.len == record.size
    &&& metadata.mode & PERMISSION_MODE_MASK == record.mode
    &&& metadata.modified.seconds == record.mtime_sec
    &&& metadata.modified.nanoseconds == record.mtime_nsec
}

/// Whether a file is what a record says. The contents are read only where the
/// metadata are right; they may not be readable.
pub open spec fn matches_record(
    metadata: SnapshotMetadata,
    digest: Option<Seq<char>>,
    record: Record,
) -> Result<bool, SnapshotError> {
    if !metadata_matches(metadata, record) {
        Ok(false)
    } else {
        match digest {
            None => Err(SnapshotError::Uninspectable),
            Some(digest) => Ok(digest == record.cache_digest),
        }
    }
}

/// Whether a file is what a record says.
pub fn file_matches_record(
    metadata: &SnapshotMetadata,
    digest: &Option<String>,
    record: &SnapshotRecord,
) -> (matching: Result<bool, SnapshotError>)
    ensures
        matching == matches_record(*metadata, crate::bytes::optional_text(*digest), record@),
{
    if metadata.kind != FileKind::File || metadata.len != record.size || metadata_mode(metadata)
        != record.mode || metadata.modified.seconds != record.mtime_sec
        || metadata.modified.nanoseconds != record.mtime_nsec {
        return Ok(false);
    }
    match digest {
        None => Err(SnapshotError::Uninspectable),
        Some(digest) => Ok(text_is(digest.as_str(), record.cache_digest.as_str())),
    }
}

} // verus!
