//! Restoring target outputs from a snapshot manifest.
//!
//! Every cache entry and every existing target is checked before the first
//! target is written.

use vstd::prelude::*;
use vstd::string::*;
use vstd::utf8::*;

use crate::bytes::bytes_equal;
use crate::bytes::copy_bytes;
use crate::bytes::optional_text;
use crate::bytes::utf8;
use crate::disk::FileKind;
use crate::disk::Lookup;
use crate::entry::digest_for;
use crate::entry::files_verified;
use crate::entry::listed_digest;
use crate::entry::verified_manifest;
use crate::entry::verified_rlib_cache_manifest;
use crate::entry::verify_rlib_cache_manifest_files;
use crate::entry::StoredFile;
use crate::recorder::cached_path;
use crate::recorder::files_directory;
use crate::recorder::roots_error;
use crate::recorder::validate_roots;
use crate::recorder::SnapshotManifest;
use crate::snapshot::component_is_name;
use crate::snapshot::descent_error;
use crate::snapshot::directory_error;
use crate::snapshot::file_matches_record;
use crate::snapshot::is_name;
use crate::snapshot::matches_record;
use crate::snapshot::plain_records;
use crate::snapshot::record_error;
use crate::snapshot::regular_file;
use crate::snapshot::regular_file_metadata;
use crate::snapshot::target_parent_error;
use crate::snapshot::validate_descendant_directory_no_follow;
use crate::snapshot::validate_directory_no_follow;
use crate::snapshot::validate_snapshot_record;
use crate::snapshot::validate_target_parent_no_follow;
use crate::snapshot::Record;
use crate::snapshot::SnapshotDisk;
use crate::snapshot::SnapshotError;
use crate::snapshot::SnapshotMetadata;
use crate::snapshot::SnapshotRecord;
use crate::snapshot::SNAPSHOT_VERSION;
use crate::snapshot_paths::decode_safe_filename;
use crate::snapshot_paths::decode_safe_relative;
use crate::snapshot_paths::decoded_path;
use crate::snapshot_paths::path_as_utf8;
use crate::snapshot_paths::root_error;
use crate::snapshot_paths::validate_absolute_root;
use crate::text::text_is;
use crate::text::texts;
use crate::unix_path::byte_strings;
use crate::unix_path::components;
use crate::unix_path::file_name;
use crate::unix_path::join_path;
use crate::unix_path::joined;
use crate::unix_path::path_below;
use crate::unix_path::path_components;
use crate::unix_path::path_file_name;
use crate::unix_path::strip_path_prefix;

verus! {

/// A target that is restored, and the cached file that it comes from.
pub struct RestorePlan {
    pub target: Vec<u8>,
    pub stored: Vec<u8>,
    /// The position of its record in the manifest.
    pub record: usize,
    /// Whether the target is there already, as the record says.
    pub already_exists: bool,
}

/// A plan as plain values: the target, the cached file, and whether the target
/// is there already.
pub type Plan = (Seq<u8>, Seq<u8>, bool);

/// Plans as plain values.
pub open spec fn plain_plans(list: Seq<RestorePlan>) -> Seq<Plan> {
    list.map_values(|plan: RestorePlan| (plan.target@, plan.stored@, plan.already_exists))
}

/// Why the cached file of a record cannot be used.
pub open spec fn source_error(
    disk: SnapshotDisk,
    cache_root: Seq<u8>,
    record: Record,
) -> Option<SnapshotError> {
    let relative = decoded_path(record.cache_entry)->Ok_0;
    let entry = joined(cache_root, relative);
    let stored = joined(files_directory(entry), utf8(record.cache_filename));
    let path = cached_path(record.cache_filename);
    let files = disk.files(entry);
    match descent_error(disk, cache_root, components(relative)) {
        Some(error) => Some(error),
        None => match directory_error(disk.own(files_directory(entry))) {
            Some(error) => Some(error),
            None => match verified_manifest(files) {
                Err(error) => Some(SnapshotError::Entry(error)),
                Ok(None) => Some(SnapshotError::IncompleteEntry),
                Ok(Some(list)) => if digest_for(list, path) != Some(record.cache_digest) {
                    Some(SnapshotError::DigestMismatch)
                } else {
                    match files_verified(files, list, seq![path]) {
                        Err(error) => Some(SnapshotError::Entry(error)),
                        Ok(false) => Some(SnapshotError::CorruptFile),
                        Ok(true) => match regular_file(disk.own(stored)) {
                            Err(error) => Some(error),
                            Ok(metadata) => if metadata.len != record.size {
                                Some(SnapshotError::SizeMismatch)
                            } else {
                                None
                            },
                        },
                    }
                },
            },
        },
    }
}

/// Whether a target is there already. One that differs from its record is an
/// error.
pub open spec fn target_exists(
    disk: SnapshotDisk,
    target: Seq<u8>,
    record: Record,
) -> Result<bool, SnapshotError> {
    match disk.own(target) {
        Lookup::Found(metadata) => if metadata.kind != FileKind::File {
            Err(SnapshotError::TargetMismatch)
        } else {
            match matches_record(metadata, disk.digest(target), record) {
                Err(error) => Err(error),
                Ok(false) => Err(SnapshotError::TargetMismatch),
                Ok(true) => Ok(true),
            }
        },
        Lookup::Missing => Ok(false),
        Lookup::Failed => Err(SnapshotError::Uninspectable),
    }
}

/// Whether one of the records has a target path.
pub open spec fn holds_target(records: Seq<Record>, target_path: Seq<char>) -> bool {
    exists|i: int| 0 <= i < records.len() && (#[trigger] records[i]).target_path == target_path
}

/// The plan for a record that follows `before`.
pub open spec fn planned(
    disk: SnapshotDisk,
    target_root: Seq<u8>,
    cache_root: Seq<u8>,
    before: Seq<Record>,
    record: Record,
) -> Result<Plan, SnapshotError> {
    let target_relative = decoded_path(record.target_path)->Ok_0;
    let target = joined(target_root, target_relative);
    let entry = joined(cache_root, decoded_path(record.cache_entry)->Ok_0);
    match record_error(record) {
        Some(error) => Err(error),
        None => if holds_target(before, record.target_path) {
            Err(SnapshotError::RepeatedTarget)
        } else if file_name(target_relative) != Some(utf8(record.cache_filename)) {
            Err(SnapshotError::FilenameMismatch)
        } else {
            match source_error(disk, cache_root, record) {
                Some(error) => Err(error),
                None => match target_parent_error(disk, target_root, target_relative) {
                    Some(error) => Err(error),
                    None => match target_exists(disk, target, record) {
                        Err(error) => Err(error),
                        Ok(exists) => Ok(
                            (
                                target,
                                joined(files_directory(entry), utf8(record.cache_filename)),
                                exists,
                            ),
                        ),
                    },
                },
            }
        },
    }
}

/// The plans for records, or the first error among them.
pub open spec fn all_planned(
    disk: SnapshotDisk,
    target_root: Seq<u8>,
    cache_root: Seq<u8>,
    records: Seq<Record>,
) -> Result<Seq<Plan>, SnapshotError>
    decreases records.len(),
{
    if records.len() == 0 {
        Ok(Seq::empty())
    } else {
        match all_planned(disk, target_root, cache_root, records.drop_last()) {
            Err(error) => Err(error),
            Ok(before) => match planned(
                disk,
                target_root,
                cache_root,
                records.drop_last(),
                records.last(),
            ) {
                Err(error) => Err(error),
                Ok(plan) => Ok(before.push(plan)),
            },
        }
    }
}

/// An error among the first records is the error of all.
proof fn lemma_planned_error(
    disk: SnapshotDisk,
    target_root: Seq<u8>,
    cache_root: Seq<u8>,
    records: Seq<Record>,
    count: int,
)
    requires
        0 <= count <= records.len(),
        all_planned(disk, target_root, cache_root, records.take(count)) is Err,
    ensures
        all_planned(disk, target_root, cache_root, records) == all_planned(
            disk,
            target_root,
            cache_root,
            records.take(count),
        ),
    decreases records.len() - count,
{
    if count < records.len() {
        assert(records.take(count + 1).drop_last() =~= records.take(count));
        lemma_planned_error(disk, target_root, cache_root, records, count + 1);
    } else {
        assert(records.take(count) =~= records);
    }
}

/// Whether the cached file of a valid record can be used.
fn check_source(disk: &SnapshotDisk, cache_root: &[u8], record: &SnapshotRecord) -> (result: Result<
    (),
    SnapshotError,
>)
    requires
        record_error(record@) is None,
    ensures
        match result {
            Ok(_) => source_error(*disk, cache_root@, record@) is None,
            Err(error) => source_error(*disk, cache_root@, record@) == Some(error),
        },
{
    let relative = match decode_safe_relative(record.cache_entry.as_str()) {
        Ok(relative) => relative,
        Err(error) => {
            return Err(SnapshotError::CacheEntry(error));
        },
    };
    let entry = join_path(cache_root, relative.as_slice());
    match validate_descendant_directory_no_follow(disk, cache_root, relative.as_slice()) {
        Ok(_) => {},
        Err(error) => {
            return Err(error);
        },
    }
    let directory = join_path(entry.as_slice(), "files".as_bytes());
    match validate_directory_no_follow(disk, directory.as_slice()) {
        Ok(_) => {},
        Err(error) => {
            return Err(error);
        },
    }
    let stored = join_path(directory.as_slice(), record.cache_filename.as_str().as_bytes());
    let at: usize = disk.find_entry(entry.as_slice());
    let empty: Vec<StoredFile> = Vec::new();
    let files = if at < disk.entries.len() {
        &disk.entries[at].files
    } else {
        &empty
    };
    proof {
        assert(files@ =~= disk.files(entry@));
    }
    let expected = match verified_rlib_cache_manifest(files) {
        Ok(Some(expected)) => expected,
        Ok(None) => {
            return Err(SnapshotError::IncompleteEntry);
        },
        Err(error) => {
            return Err(SnapshotError::Entry(error));
        },
    };
    let mut path = "files/".to_owned();
    path.append(record.cache_filename.as_str());
    match listed_digest(&expected, path.as_str()) {
        Some(digest) => {
            if !text_is(digest.as_str(), record.cache_digest.as_str()) {
                return Err(SnapshotError::DigestMismatch);
            }
        },
        None => {
            return Err(SnapshotError::DigestMismatch);
        },
    }
    let mut required: Vec<String> = Vec::new();
    required.push(path);
    proof {
        assert(texts(required@) =~= seq![cached_path(record.cache_filename@)]);
    }
    match verify_rlib_cache_manifest_files(files, &expected, &required) {
        Ok(true) => {},
        Ok(false) => {
            return Err(SnapshotError::CorruptFile);
        },
        Err(error) => {
            return Err(SnapshotError::Entry(error));
        },
    }
    match regular_file_metadata(disk, stored.as_slice()) {
        Err(error) => Err(error),
        Ok(metadata) => if metadata.len != record.size {
            Err(SnapshotError::SizeMismatch)
        } else {
            Ok(())
        },
    }
}

/// Whether a target is there already.
fn check_target(disk: &SnapshotDisk, target: &[u8], record: &SnapshotRecord) -> (exists: Result<
    bool,
    SnapshotError,
>)
    ensures
        exists == target_exists(*disk, target@, record@),
{
    match disk.symlink_metadata(target) {
        Lookup::Found(metadata) => {
            if metadata.kind != FileKind::File {
                return Err(SnapshotError::TargetMismatch);
            }
            let digest = disk.rlib_cache_digest(target);
            match file_matches_record(&metadata, &digest, record) {
                Err(error) => Err(error),
                Ok(false) => Err(SnapshotError::TargetMismatch),
                Ok(true) => Ok(true),
            }
        },
        Lookup::Missing => Ok(false),
        Lookup::Failed => Err(SnapshotError::Uninspectable),
    }
}

/// Whether one of the first `count` records has a target path.
fn target_is_held(records: &Vec<SnapshotRecord>, count: usize, target_path: &str) -> (held: bool)
    requires
        count <= records@.len(),
    ensures
        held == holds_target(plain_records(records@).take(count as int), target_path@),
{
    let ghost list = plain_records(records@).take(count as int);
    let mut index: usize = 0;
    while index < count
        invariant
            index <= count <= records@.len(),
            list == plain_records(records@).take(count as int),
            forall|i: int| 0 <= i < index ==> (#[trigger] list[i]).target_path != target_path@,
        decreases count - index,
    {
        proof {
            assert(list[index as int].target_path == records@[index as int].target_path@);
        }
        if text_is(records[index].target_path.as_str(), target_path) {
            return true;
        }
        index = index + 1;
    }
    false
}

/// The plan for the record at a position of a manifest.
fn plan_record(
    disk: &SnapshotDisk,
    target_root: &[u8],
    cache_root: &[u8],
    records: &Vec<SnapshotRecord>,
    index: usize,
) -> (plan: Result<RestorePlan, SnapshotError>)
    requires
        index < records@.len(),
    ensures
        match (
            plan,
            planned(
                *disk,
                target_root@,
                cache_root@,
                plain_records(records@).take(index as int),
                records@[index as int]@,
            ),
        ) {
            (Ok(plan), Ok(expected)) => plan.record == index && (
                plan.target@,
                plan.stored@,
                plan.already_exists,
            ) == expected,
            (Err(error), Err(expected)) => error == expected,
            _ => false,
        },
{
    let record = &records[index];
    match validate_snapshot_record(record) {
        Ok(_) => {},
        Err(error) => {
            return Err(error);
        },
    }
    if target_is_held(records, index, record.target_path.as_str()) {
        return Err(SnapshotError::RepeatedTarget);
    }
    let target_relative = match decode_safe_relative(record.target_path.as_str()) {
        Ok(relative) => relative,
        Err(error) => {
            return Err(SnapshotError::TargetPath(error));
        },
    };
    let cache_relative = match decode_safe_relative(record.cache_entry.as_str()) {
        Ok(relative) => relative,
        Err(error) => {
            return Err(SnapshotError::CacheEntry(error));
        },
    };
    let filename = match decode_safe_filename(record.cache_filename.as_str()) {
        Ok(filename) => filename,
        Err(error) => {
            return Err(SnapshotError::CacheFilename(error));
        },
    };
    match path_file_name(target_relative.as_slice()) {
        Some(name) => {
            if !bytes_equal(name.as_slice(), filename.as_slice()) {
                return Err(SnapshotError::FilenameMismatch);
            }
        },
        None => {
            return Err(SnapshotError::FilenameMismatch);
        },
    }
    match check_source(disk, cache_root, record) {
        Ok(_) => {},
        Err(error) => {
            return Err(error);
        },
    }
    match validate_target_parent_no_follow(disk, target_root, target_relative.as_slice()) {
        Ok(_) => {},
        Err(error) => {
            return Err(error);
        },
    }
    let target = join_path(target_root, target_relative.as_slice());
    let entry = join_path(cache_root, cache_relative.as_slice());
    let directory = join_path(entry.as_slice(), "files".as_bytes());
    let stored = join_path(directory.as_slice(), filename.as_slice());
    match check_target(disk, target.as_slice(), record) {
        Ok(already_exists) => Ok(RestorePlan { target, stored, record: index, already_exists }),
        Err(error) => Err(error),
    }
}

/// Why a manifest is not for these roots.
pub open spec fn manifest_error(
    disk: SnapshotDisk,
    target_root: Seq<u8>,
    cache_root: Seq<u8>,
    version: u32,
    recorded_root: Seq<char>,
) -> Option<SnapshotError> {
    match root_error(target_root) {
        Some(error) => Some(SnapshotError::TargetRoot(error)),
        None => match root_error(cache_root) {
            Some(error) => Some(SnapshotError::CacheRoot(error)),
            None => if version != SNAPSHOT_VERSION {
                Some(SnapshotError::UnsupportedVersion(version))
            } else if recorded_root != decode_utf8(target_root) {
                Some(SnapshotError::TargetRootMismatch)
            } else {
                roots_error(disk, target_root, cache_root)
            },
        },
    }
}

/// Whether a manifest is for these roots.
pub fn validate_manifest(
    disk: &SnapshotDisk,
    target_root: &[u8],
    cache_root: &[u8],
    manifest: &SnapshotManifest,
) -> (result: Result<(), SnapshotError>)
    ensures
        match result {
            Ok(_) => manifest_error(
                *disk,
                target_root@,
                cache_root@,
                manifest.version,
                manifest.target_root@,
            ) is None,
            Err(error) => manifest_error(
                *disk,
                target_root@,
                cache_root@,
                manifest.version,
                manifest.target_root@,
            ) == Some(error),
        },
{
    match validate_absolute_root(target_root) {
        Ok(_) => {},
        Err(error) => {
            return Err(SnapshotError::TargetRoot(error));
        },
    }
    match validate_absolute_root(cache_root) {
        Ok(_) => {},
        Err(error) => {
            return Err(SnapshotError::CacheRoot(error));
        },
    }
    if manifest.version != SNAPSHOT_VERSION {
        return Err(SnapshotError::UnsupportedVersion(manifest.version));
    }
    let requested = match path_as_utf8(target_root) {
        Ok(text) => text,
        Err(error) => {
            return Err(SnapshotError::TargetRoot(error));
        },
    };
    if !text_is(manifest.target_root.as_str(), requested.as_str()) {
        return Err(SnapshotError::TargetRootMismatch);
    }
    validate_roots(disk, target_root, cache_root)
}

/// The plans for the targets of a manifest: where the manifest, a cached file
/// or an existing target is not as it should be, nothing is restored.
pub fn plan_restore(
    disk: &SnapshotDisk,
    target_root: &[u8],
    cache_root: &[u8],
    manifest: &SnapshotManifest,
) -> (plans: Result<Vec<RestorePlan>, SnapshotError>)
    ensures
        match plans {
            Ok(plans) => manifest_error(
                *disk,
                target_root@,
                cache_root@,
                manifest.version,
                manifest.target_root@,
            ) is None && all_planned(
                *disk,
                target_root@,
                cache_root@,
                plain_records(manifest.records@),
            ) == Ok::<Seq<Plan>, SnapshotError>(plain_plans(plans@)) && plans@.len()
                == manifest.records@.len() && forall|i: int|
                0 <= i < plans@.len() ==> (#[trigger] plans@[i]).record == i,
            Err(error) => match manifest_error(
                *disk,
                target_root@,
                cache_root@,
                manifest.version,
                manifest.target_root@,
            ) {
                Some(expected) => error == expected,
                None => all_planned(
                    *disk,
                    target_root@,
                    cache_root@,
                    plain_records(manifest.records@),
                ) == Err::<Seq<Plan>, SnapshotError>(error),
            },
        },
{
    match validate_manifest(disk, target_root, cache_root, manifest) {
        Ok(_) => {},
        Err(error) => {
            return Err(error);
        },
    }
    let ghost all = plain_records(manifest.records@);
    let mut plans: Vec<RestorePlan> = Vec::new();
    let mut index: usize = 0;
    proof {
        assert(all.take(0) =~= Seq::empty());
        assert(plain_plans(plans@) =~= Seq::<Plan>::empty());
    }
    while index < manifest.records.len()
        invariant
            index <= manifest.records@.len(),
            all == plain_records(manifest.records@),
            manifest_error(
                *disk,
                target_root@,
                cache_root@,
                manifest.version,
                manifest.target_root@,
            ) is None,
            all_planned(*disk, target_root@, cache_root@, all.take(index as int)) == Ok::<
                Seq<Plan>,
                SnapshotError,
            >(plain_plans(plans@)),
            plans@.len() == index,
            forall|i: int| 0 <= i < plans@.len() ==> (#[trigger] plans@[i]).record == i,
        decreases manifest.records@.len() - index,
    {
        proof {
            assert(all.take(index + 1).drop_last() =~= all.take(index as int));
            assert(all.take(index + 1).last() == manifest.records@[index as int]@);
        }
        match plan_record(disk, target_root, cache_root, &manifest.records, index) {
            Err(error) => {
                proof {
                    lemma_planned_error(*disk, target_root@, cache_root@, all, index + 1);
                }
                return Err(error);
            },
            Ok(plan) => {
                let ghost before = plans@;
                proof {
                    assert(plain_plans(before.push(plan)) =~= plain_plans(before).push(
                        (plan.target@, plan.stored@, plan.already_exists),
                    ));
                }
                plans.push(plan);
            },
        }
        index = index + 1;
    }
    proof {
        assert(all.take(index as int) =~= all);
    }
    Ok(plans)
}

/// The directories that a walk from `root` down through `list` meets, up to the
/// first component that is no name.
pub open spec fn directories_down(root: Seq<u8>, list: Seq<Seq<u8>>) -> Seq<Seq<u8>>
    decreases list.len(),
{
    if list.len() == 0 || !is_name(list[0]) {
        Seq::empty()
    } else {
        seq![joined(root, list[0])] + directories_down(joined(root, list[0]), list.drop_first())
    }
}

/// The directories that are made above a target, from the top. `complete` is
/// false where the way down leads through something else than names: no
/// directory is made behind it.
pub struct ParentDirectories {
    pub directories: Vec<Vec<u8>>,
    pub complete: bool,
}

/// The directories that are made above a target.
pub fn target_parent_directories(target_root: &[u8], above: &[u8]) -> (result: Result<
    ParentDirectories,
    SnapshotError,
>)
    ensures
        match (result, path_below(above@, target_root@)) {
            (Ok(result), Some(relative)) => byte_strings(result.directories@) == directories_down(
                target_root@,
                components(relative),
            ) && result.complete == (forall|i: int|
                0 <= i < components(relative).len() ==> is_name(
                    #[trigger] components(relative)[i],
                )),
            (Err(error), None) => error == SnapshotError::OutsideTargetRoot,
            _ => false,
        },
{
    let relative = match strip_path_prefix(above, target_root) {
        Some(relative) => relative,
        None => {
            return Err(SnapshotError::OutsideTargetRoot);
        },
    };
    let list = path_components(relative.as_slice());
    let ghost all = components(relative@);
    let mut current = copy_bytes(target_root);
    let mut directories: Vec<Vec<u8>> = Vec::new();
    let mut index: usize = 0;
    proof {
        assert(all.len() == list@.len());
        assert(all.skip(0) =~= all);
        assert(byte_strings(directories@) =~= Seq::<Seq<u8>>::empty());
        assert(Seq::<Seq<u8>>::empty() + directories_down(target_root@, all) =~= directories_down(
            target_root@,
            all,
        ));
    }
    while index < list.len()
        invariant
            index <= list@.len(),
            all == byte_strings(list@),
            path_below(above@, target_root@) == Some(relative@),
            all == components(relative@),
            directories_down(target_root@, all) == byte_strings(directories@) + directories_down(
                current@,
                all.skip(index as int),
            ),
            forall|i: int| 0 <= i < index ==> is_name(#[trigger] all[i]),
        decreases list@.len() - index,
    {
        proof {
            assert(all.skip(index as int)[0] == list@[index as int]@);
            assert(all.skip(index as int).drop_first() =~= all.skip(index + 1));
            assert(all[index as int] == list@[index as int]@);
        }
        if !component_is_name(list[index].as_slice()) {
            proof {
                assert(byte_strings(directories@) + Seq::<Seq<u8>>::empty() =~= byte_strings(
                    directories@,
                ));
            }
            return Ok(ParentDirectories { directories, complete: false });
        }
        let ghost before = directories@;
        let ghost above_current = current@;
        current = join_path(current.as_slice(), list[index].as_slice());
        directories.push(copy_bytes(current.as_slice()));
        proof {
            assert(byte_strings(directories@) =~= byte_strings(before).push(current@));
            assert(byte_strings(before) + (seq![current@] + directories_down(
                current@,
                all.skip(index + 1),
            )) =~= byte_strings(directories@) + directories_down(current@, all.skip(index + 1)));
        }
        index = index + 1;
    }
    proof {
        assert(all.skip(index as int).len() == 0);
        assert(byte_strings(directories@) + Seq::<Seq<u8>>::empty() =~= byte_strings(directories@));
    }
    Ok(ParentDirectories { directories, complete: true })
}

/// What came of making a directory.
#[derive(Clone, Copy, Debug, PartialEq, Eq, Structural)]
pub enum DirectoryCreation {
    Made,
    /// Something is there already; what it is, if it could be inspected.
    Exists(Option<FileKind>),
    Failed,
}

/// Whether a directory stands where one was to be made.
pub fn create_target_parent_no_follow(creation: DirectoryCreation) -> (result: Result<
    (),
    SnapshotError,
>)
    ensures
        result == match creation {
            DirectoryCreation::Made | DirectoryCreation::Exists(Some(FileKind::Directory)) => Ok::<
                (),
                SnapshotError,
            >(()),
            DirectoryCreation::Exists(Some(_)) => Err::<(), SnapshotError>(
                SnapshotError::NotDirectory,
            ),
            _ => Err::<(), SnapshotError>(SnapshotError::Uninspectable),
        },
{
    match creation {
        DirectoryCreation::Made => Ok(()),
        DirectoryCreation::Exists(Some(FileKind::Directory)) => Ok(()),
        DirectoryCreation::Exists(Some(_)) => Err(SnapshotError::NotDirectory),
        DirectoryCreation::Exists(None) => Err(SnapshotError::Uninspectable),
        DirectoryCreation::Failed => Err(SnapshotError::Uninspectable),
    }
}

/// How a target was made from its cached file.
#[derive(Clone, Copy, Debug, PartialEq, Eq, Structural)]
pub enum ReconstructionKind {
    Cloned,
    Copied,
}

/// How a file is made: a clone where one is allowed, the platform has them and
/// the attempt succeeded; a byte copy else.
pub fn reconstruction_kind(allow_clone: bool, platform_clones: bool, cloned: bool) -> (kind:
    ReconstructionKind)
    ensures
        kind == if allow_clone && platform_clones && cloned {
            ReconstructionKind::Cloned
        } else {
            ReconstructionKind::Copied
        },
{
    if allow_clone && platform_clones && cloned {
        ReconstructionKind::Cloned
    } else {
        ReconstructionKind::Copied
    }
}

/// Whether a file that was made may be put in place as the target of a record.
pub open spec fn reconstruction(
    record: Record,
    appeared: bool,
    copied: u64,
    written: Lookup<SnapshotMetadata>,
    digest: Option<Seq<char>>,
) -> Result<(), SnapshotError> {
    if appeared {
        Err(SnapshotError::TargetAppeared)
    } else if copied != record.size {
        Err(SnapshotError::SourceChanged)
    } else {
        match regular_file(written) {
            Err(error) => Err(error),
            Ok(metadata) => match matches_record(metadata, digest, record) {
                Err(error) => Err(error),
                Ok(false) => Err(SnapshotError::UnrepresentableMetadata),
                Ok(true) => Ok(()),
            },
        }
    }
}

/// Whether a file that was made may be put in place as the target of a record.
/// `appeared` says that the target is there by now, `copied` how many bytes were
/// written, `written` and `digest` what the file is.
pub fn check_reconstruction(
    record: &SnapshotRecord,
    appeared: bool,
    copied: u64,
    written: &Lookup<SnapshotMetadata>,
    digest: &Option<String>,
) -> (result: Result<(), SnapshotError>)
    ensures
        result == reconstruction(record@, appeared, copied, *written, optional_text(*digest)),
{
    if appeared {
        return Err(SnapshotError::TargetAppeared);
    }
    if copied != record.size {
        return Err(SnapshotError::SourceChanged);
    }
    let metadata = match written {
        Lookup::Found(metadata) => {
            if metadata.kind != FileKind::File {
                return Err(SnapshotError::NotRegularFile);
            }
            metadata
        },
        _ => {
            return Err(SnapshotError::Uninspectable);
        },
    };
    match file_matches_record(metadata, digest, record) {
        Err(error) => Err(error),
        Ok(false) => Err(SnapshotError::UnrepresentableMetadata),
        Ok(true) => Ok(()),
    }
}

/// How a target came to be in place.
#[derive(Clone, Copy, Debug, PartialEq, Eq, Structural)]
pub enum Restored {
    Existing,
    Made(ReconstructionKind),
}

/// Counts the files that a restore handled.
#[derive(Clone, Copy, Debug, PartialEq, Eq, Structural)]
pub struct RestoreSummary {
    pub cloned_files: u64,
    pub cloned_bytes: u64,
    pub copied_files: u64,
    pub copied_bytes: u64,
    pub existing_files: u64,
    pub existing_bytes: u64,
}

impl Default for RestoreSummary {
    fn default() -> (summary: Self)
        ensures
            summary == no_files(),
    {
        RestoreSummary {
            cloned_files: 0,
            cloned_bytes: 0,
            copied_files: 0,
            copied_bytes: 0,
            existing_files: 0,
            existing_bytes: 0,
        }
    }
}

/// The summary of no files.
pub open spec fn no_files() -> RestoreSummary {
    RestoreSummary {
        cloned_files: 0,
        cloned_bytes: 0,
        copied_files: 0,
        copied_bytes: 0,
        existing_files: 0,
        existing_bytes: 0,
    }
}

impl RestoreSummary {
    /// The number of files.
    pub open spec fn files(&self) -> int {
        self.cloned_files + self.copied_files + self.existing_files
    }

    /// The number of bytes.
    pub open spec fn bytes(&self) -> int {
        self.cloned_bytes + self.copied_bytes + self.existing_bytes
    }

    /// Counts a file of `size` bytes.
    pub fn count(&mut self, size: u64, how: Restored)
        requires
            old(self).files() < u64::MAX,
            old(self).bytes() + size <= u64::MAX,
        ensures
            final(self).files() == old(self).files() + 1,
            final(self).bytes() == old(self).bytes() + size,
            *final(self) == match how {
                Restored::Existing => (RestoreSummary {
                    existing_files: (old(self).existing_files + 1) as u64,
                    existing_bytes: (old(self).existing_bytes + size) as u64,
                    ..*old(self)
                }),
                Restored::Made(ReconstructionKind::Cloned) => (RestoreSummary {
                    cloned_files: (old(self).cloned_files + 1) as u64,
                    cloned_bytes: (old(self).cloned_bytes + size) as u64,
                    ..*old(self)
                }),
                Restored::Made(ReconstructionKind::Copied) => (RestoreSummary {
                    copied_files: (old(self).copied_files + 1) as u64,
                    copied_bytes: (old(self).copied_bytes + size) as u64,
                    ..*old(self)
                }),
            },
    {
        match how {
            Restored::Existing => {
                self.existing_files = self.existing_files + 1;
                self.existing_bytes = self.existing_bytes + size;
            },
            Restored::Made(ReconstructionKind::Cloned) => {
                self.cloned_files = self.cloned_files + 1;
                self.cloned_bytes = self.cloned_bytes + size;
            },
            Restored::Made(ReconstructionKind::Copied) => {
                self.copied_files = self.copied_files + 1;
                self.copied_bytes = self.copied_bytes + size;
            },
        }
    }
}

/// A target that is in place: how large it is and how it came there.
#[derive(Clone, Copy, Debug, PartialEq, Eq, Structural)]
pub struct RestoredFile {
    pub size: u64,
    pub how: Restored,
}

/// How many files came to be in place in a way.
pub open spec fn files_by(list: Seq<RestoredFile>, how: Restored) -> int
    decreases list.len(),
{
    if list.len() == 0 {
        0
    } else {
        files_by(list.drop_last(), how) + if list.last().how == how {
            1int
        } else {
            0
        }
    }
}

/// How many bytes came to be in place in a way.
pub open spec fn bytes_by(list: Seq<RestoredFile>, how: Restored) -> int
    decreases list.len(),
{
    if list.len() == 0 {
        0
    } else {
        bytes_by(list.drop_last(), how) + if list.last().how == how {
            list.last().size as int
        } else {
            0
        }
    }
}

/// How many bytes are in place.
pub open spec fn bytes_in_place(list: Seq<RestoredFile>) -> int
    decreases list.len(),
{
    if list.len() == 0 {
        0
    } else {
        bytes_in_place(list.drop_last()) + list.last().size
    }
}

/// The first files have no more bytes than all.
proof fn lemma_bytes_grow(list: Seq<RestoredFile>, count: int)
    requires
        0 <= count <= list.len(),
    ensures
        0 <= bytes_in_place(list.take(count)) <= bytes_in_place(list),
    decreases list.len(),
{
    if count < list.len() {
        lemma_bytes_grow(list.drop_last(), count);
        assert(list.drop_last().take(count) =~= list.take(count));
    } else {
        assert(list.take(count) =~= list);
        if list.len() > 0 {
            lemma_bytes_grow(list.drop_last(), count - 1);
            assert(list.drop_last().take(count - 1) =~= list.drop_last());
        }
    }
}

/// Whether a summary counts files by how they came to be in place.
pub open spec fn sums_up(summary: RestoreSummary, list: Seq<RestoredFile>) -> bool {
    let cloned = Restored::Made(ReconstructionKind::Cloned);
    let copied = Restored::Made(ReconstructionKind::Copied);
    &&& summary.cloned_files == files_by(list, cloned)
    &&& summary.cloned_bytes == bytes_by(list, cloned)
    &&& summary.copied_files == files_by(list, copied)
    &&& summary.copied_bytes == bytes_by(list, copied)
    &&& summary.existing_files == files_by(list, Restored::Existing)
    &&& summary.existing_bytes == bytes_by(list, Restored::Existing)
    &&& summary.files() == list.len()
    &&& summary.bytes() == bytes_in_place(list)
}

/// Counts the files that a restore handled: each once, by how it came to be in
/// place. `None` where the number of bytes does not fit.
pub fn summarize_restore(list: &Vec<RestoredFile>) -> (summary: Option<RestoreSummary>)
    ensures
        match summary {
            Some(summary) => sums_up(summary, list@),
            None => bytes_in_place(list@) > u64::MAX,
        },
{
    let mut summary = RestoreSummary::default();
    let mut bytes: u64 = 0;
    let mut index: usize = 0;
    proof {
        assert(list@.take(0) =~= Seq::empty());
    }
    while index < list.len()
        invariant
            index <= list@.len(),
            sums_up(summary, list@.take(index as int)),
            bytes == bytes_in_place(list@.take(index as int)),
        decreases list@.len() - index,
    {
        proof {
            assert(list@.take(index + 1).drop_last() =~= list@.take(index as int));
            assert(list@.take(index + 1).last() == list@[index as int]);
            lemma_bytes_grow(list@, index + 1);
        }
        let file = list[index];
        match bytes.checked_add(file.size) {
            Some(sum) => {
                bytes = sum;
            },
            None => {
                return None;
            },
        }
        summary.count(file.size, file.how);
        index = index + 1;
    }
    proof {
        assert(list@.take(index as int) =~= list@);
    }
    Some(summary)
}

/// No two targets of a plan are the same path of the manifest.
pub proof fn law_planned_targets_are_distinct(
    disk: SnapshotDisk,
    target_root: Seq<u8>,
    cache_root: Seq<u8>,
    records: Seq<Record>,
)
    requires
        all_planned(disk, target_root, cache_root, records) is Ok,
    ensures
        forall|i: int, j: int|
            0 <= i < j < records.len() ==> (#[trigger] records[i]).target_path != (
            #[trigger] records[j]).target_path,
    decreases records.len(),
{
    if records.len() > 0 {
        let before = records.drop_last();
        law_planned_targets_are_distinct(disk, target_root, cache_root, before);
        assert forall|i: int, j: int| 0 <= i < j < records.len() implies (
        #[trigger] records[i]).target_path != (#[trigger] records[j]).target_path by {
            assert(before[i] == records[i]);
            if j < before.len() {
                assert(before[j] == records[j]);
            } else {
                assert(records[j] == records.last());
                assert(!holds_target(before, records.last().target_path));
            }
        }
    }
}

/// Every record of a plan is valid, and its cached file is in the cache with
/// the digest and the size that the record has.
pub proof fn law_planned_files_are_vouched_for(
    disk: SnapshotDisk,
    target_root: Seq<u8>,
    cache_root: Seq<u8>,
    records: Seq<Record>,
    index: int,
)
    requires
        all_planned(disk, target_root, cache_root, records) is Ok,
        0 <= index < records.len(),
    ensures
        record_error(records[index]) is None,
        source_error(disk, cache_root, records[index]) is None,
    decreases records.len(),
{
    if index < records.len() - 1 {
        law_planned_files_are_vouched_for(
            disk,
            target_root,
            cache_root,
            records.drop_last(),
            index,
        );
    }
}

} // verus!
