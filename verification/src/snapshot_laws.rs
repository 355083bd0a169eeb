//! What a manifest that was written promises of the restore that follows it.

use vstd::prelude::*;
use vstd::string::*;
use vstd::utf8::*;

use crate::bytes::utf8;
use crate::disk::FileKind;
use crate::disk::Lookup;
use crate::entry::file_verified;
use crate::entry::files_verified;
use crate::entry::stored_at;
use crate::entry::verified_manifest;
use crate::entry::EntryError;
use crate::path_laws::law_joined_components;
use crate::path_laws::law_paths_below;
use crate::recorder::cached_path;
use crate::recorder::certified;
use crate::recorder::files_directory;
use crate::recorder::gathered;
use crate::recorder::in_target_order;
use crate::recorder::is_found;
use crate::recorder::is_least;
use crate::recorder::law_manifests_hold_least_records;
use crate::recorder::lemma_text_order;
use crate::recorder::roots_error;
use crate::recorder::total_size;
use crate::recorder::Pending;
use crate::snapshot::descent_error;
use crate::snapshot::record_error;
use crate::snapshot::target_parent_error;
use crate::snapshot::Record;
use crate::snapshot::SnapshotDisk;
use crate::snapshot::SnapshotError;
use crate::snapshot::SnapshotMetadata;
use crate::snapshot::PERMISSION_MODE_MASK;
use crate::snapshot::SNAPSHOT_VERSION;
use crate::snapshot_paths::component_texts;
use crate::snapshot_paths::decoded_path;
use crate::snapshot_paths::encoded_path;
use crate::snapshot_paths::is_safe_component;
use crate::snapshot_paths::law_decoded_paths_encode;
use crate::snapshot_paths::law_encoded_paths_decode;
use crate::snapshot_paths::lemma_component_texts;
use crate::snapshot_paths::lemma_decoded_start;
use crate::snapshot_paths::lemma_safe_piece;
use crate::snapshot_restore::all_planned;
use crate::snapshot_restore::bytes_by;
use crate::snapshot_restore::files_by;
use crate::snapshot_restore::holds_target;
use crate::snapshot_restore::manifest_error;
use crate::snapshot_restore::planned;
use crate::snapshot_restore::reconstruction;
use crate::snapshot_restore::source_error;
use crate::snapshot_restore::sums_up;
use crate::snapshot_restore::target_exists;
use crate::snapshot_restore::Plan;
use crate::snapshot_restore::ReconstructionKind;
use crate::snapshot_restore::RestoreSummary;
use crate::snapshot_restore::Restored;
use crate::snapshot_restore::RestoredFile;
use crate::unix_path::components;
use crate::unix_path::file_name;
use crate::unix_path::first_piece;
use crate::unix_path::is_absolute;
use crate::unix_path::joined;
use crate::unix_path::lemma_first_byte_unique;
use crate::unix_path::path_below;
use crate::unix_path::path_starts_with;
use crate::unix_path::SEPARATOR;

verus! {

/// Whether everything that is known of two paths, each on its disk, is the
/// same.
pub open spec fn alike(disk: SnapshotDisk, path: Seq<u8>, later: SnapshotDisk, other: Seq<u8>) -> bool {
    &&& later.own(other) == disk.own(path)
    &&& later.followed_len(other) == disk.followed_len(path)
    &&& later.digest(other) == disk.digest(path)
    &&& later.files(other) == disk.files(path)
}

/// Whether a disk is one that a file system can show: the times of a node are
/// in range, the length of a regular file is that of what it stands for, and
/// the files of an entry are regular files.
pub open spec fn is_coherent(disk: SnapshotDisk) -> bool {
    &&& forall|path: Seq<u8>|
        match #[trigger] disk.own(path) {
            Lookup::Found(metadata) => metadata.modified.nanoseconds < 1_000_000_000 && (
            metadata.kind == FileKind::File ==> disk.followed_len(path) == Some(metadata.len)),
            _ => true,
        }
    &&& forall|entry: Seq<u8>, name: Seq<char>|
        #![trigger stored_at(disk.files(entry), cached_path(name))]
        stored_at(disk.files(entry), cached_path(name)) is Found ==> {
            match disk.own(joined(files_directory(entry), utf8(name))) {
                Lookup::Found(metadata) => metadata.kind == FileKind::File,
                _ => false,
            }
        }
}

/// The path that a manifest leads to for a path below a root.
pub open spec fn spelled(path: Seq<u8>, root: Seq<u8>) -> Seq<u8> {
    joined(root, decoded_path(encoded_path(path_below(path, root)->Some_0)->Ok_0)->Ok_0)
}

/// Whether a disk knows a recorded output, its entry and its cached file also
/// by the paths that a manifest leads to. It does where the output and the
/// entry were recorded by these paths.
pub open spec fn is_spelled_out(
    disk: SnapshotDisk,
    target_root: Seq<u8>,
    cache_root: Seq<u8>,
    pending: Pending,
) -> bool {
    let entry = spelled(pending.0, cache_root);
    &&& alike(disk, pending.1, disk, spelled(pending.1, target_root))
    &&& alike(disk, pending.0, disk, entry)
    &&& alike(disk, files_directory(pending.0), disk, files_directory(entry))
    &&& alike(
        disk,
        joined(files_directory(pending.0), file_name(pending.1)->Some_0),
        disk,
        joined(files_directory(entry), file_name(pending.1)->Some_0),
    )
}

/// Whether nothing at or below `root` changed.
pub open spec fn is_kept(disk: SnapshotDisk, later: SnapshotDisk, root: Seq<u8>) -> bool {
    forall|path: Seq<u8>|
        path_starts_with(path, root) ==> #[trigger] alike(disk, path, later, path)
}

/// Whether nothing happened at or below `root` but that nodes went.
pub open spec fn is_thinned(disk: SnapshotDisk, later: SnapshotDisk, root: Seq<u8>) -> bool {
    forall|path: Seq<u8>|
        #![trigger later.own(path)]
        path_starts_with(path, root) ==> later.own(path) is Missing || alike(
            disk,
            path,
            later,
            path,
        )
}

/// Whether the directories above the targets of records can be made.
pub open spec fn parents_are_usable(
    disk: SnapshotDisk,
    target_root: Seq<u8>,
    records: Seq<Record>,
) -> bool {
    forall|i: int|
        0 <= i < records.len() ==> target_parent_error(
            disk,
            target_root,
            decoded_path((#[trigger] records[i]).target_path)->Ok_0,
        ) is None
}

/// The plan that a record asks for.
pub open spec fn plan_of(
    disk: SnapshotDisk,
    target_root: Seq<u8>,
    cache_root: Seq<u8>,
    record: Record,
) -> Plan {
    let target = joined(target_root, decoded_path(record.target_path)->Ok_0);
    let entry = joined(cache_root, decoded_path(record.cache_entry)->Ok_0);
    (
        target,
        joined(files_directory(entry), utf8(record.cache_filename)),
        !(disk.own(target) is Missing),
    )
}

/// What is written of a path below a root and read back leads to the path.
proof fn lemma_path_is_found_again(path: Seq<u8>, root: Seq<u8>)
    requires
        is_absolute(root),
        path_below(path, root) is Some,
        encoded_path(path_below(path, root)->Some_0) is Ok,
    ensures
        ({
            let relative = path_below(path, root)->Some_0;
            let again = decoded_path(encoded_path(relative)->Ok_0);
            &&& again is Ok
            &&& components(again->Ok_0) == components(relative)
            &&& components(relative).len() > 0
            &&& components(joined(root, again->Ok_0)) == components(path)
            &&& is_absolute(joined(root, again->Ok_0))
            &&& is_absolute(path)
            &&& components(path) == components(root) + components(relative)
        }),
{
    let relative = path_below(path, root)->Some_0;
    law_encoded_paths_decode(relative);
    law_paths_below(path, root);
    let text = encoded_path(relative)->Ok_0;
    lemma_decoded_start(text);
    law_joined_components(root, decoded_path(text)->Ok_0);
}

/// A safe name joined to an absolute path.
proof fn lemma_joined_name(base: Seq<u8>, name: Seq<char>)
    requires
        is_absolute(base),
        is_safe_component(name),
    ensures
        is_absolute(joined(base, utf8(name))),
        components(joined(base, utf8(name))) == components(base) + components(utf8(name)),
{
    lemma_safe_piece(name);
    let bytes = utf8(name);
    assert(bytes.contains(bytes[0]));
    assert forall|k: int| 0 <= k < bytes.len() implies bytes[k] != SEPARATOR by {
        assert(bytes.contains(bytes[k]));
    }
    lemma_first_byte_unique(bytes, SEPARATOR, bytes.len() as int);
    assert(first_piece(bytes) =~= bytes);
    law_joined_components(base, bytes);
}

/// A way down through directories below a root that was kept is still one.
proof fn lemma_descent_is_kept(
    disk: SnapshotDisk,
    later: SnapshotDisk,
    root: Seq<u8>,
    from: Seq<u8>,
    list: Seq<Seq<u8>>,
)
    requires
        is_kept(disk, later, root),
        is_absolute(root),
        is_absolute(from),
        path_starts_with(from, root),
        forall|i: int|
            0 <= i < list.len() ==> exists|name: Seq<char>|
                is_safe_component(name) && #[trigger] utf8(name) == #[trigger] list[i],
    ensures
        descent_error(later, from, list) == descent_error(disk, from, list),
    decreases list.len(),
{
    if list.len() > 0 {
        let name = choose|name: Seq<char>|
            is_safe_component(name) && #[trigger] utf8(name) == list[0];
        let next = joined(from, list[0]);
        lemma_joined_name(from, name);
        assert(path_starts_with(next, root)) by {
            let whole = components(next);
            assert(components(root) =~= whole.take(components(root).len() as int));
        }
        assert(alike(disk, next, later, next));
        let rest = list.drop_first();
        assert forall|i: int| 0 <= i < rest.len() implies exists|name: Seq<char>|
            is_safe_component(name) && #[trigger] utf8(name) == #[trigger] rest[i] by {
            assert(rest[i] == list[i + 1]);
        }
        lemma_descent_is_kept(disk, later, root, next, rest);
    }
}

/// What is written of an output can be restored.
proof fn lemma_record_is_planned(
    disk: SnapshotDisk,
    later: SnapshotDisk,
    target_root: Seq<u8>,
    cache_root: Seq<u8>,
    pending: Pending,
    record: Record,
    before: Seq<Record>,
)
    requires
        is_absolute(target_root),
        is_absolute(cache_root),
        is_coherent(disk),
        is_spelled_out(disk, target_root, cache_root, pending),
        is_kept(disk, later, cache_root),
        is_thinned(disk, later, target_root),
        certified(disk, target_root, cache_root, pending) == Ok::<Option<Record>, SnapshotError>(
            Some(record),
        ),
        !holds_target(before, record.target_path),
        target_parent_error(later, target_root, decoded_path(record.target_path)->Ok_0) is None,
    ensures
        planned(later, target_root, cache_root, before, record) == Ok::<Plan, SnapshotError>(
            plan_of(later, target_root, cache_root, record),
        ),
{
    let target_relative = path_below(pending.1, target_root)->Some_0;
    let cache_relative = path_below(pending.0, cache_root)->Some_0;
    lemma_path_is_found_again(pending.1, target_root);
    lemma_path_is_found_again(pending.0, cache_root);
    let target = spelled(pending.1, target_root);
    let entry = spelled(pending.0, cache_root);
    let filename = file_name(pending.1)->Some_0;
    let name = record.cache_filename;
    let stored = joined(files_directory(entry), filename);
    decode_utf8_encode_utf8(filename);
    let again = decoded_path(record.target_path)->Ok_0;
    assert(components(again).last() == components(pending.1).last());
    assert(record_error(record) is None) by {
        let mode = record.mode;
        let full = disk.own(pending.1)->Found_0.mode;
        assert((full & 0xfff) & !0xfffu32 == 0) by (bit_vector);
        assert(PERMISSION_MODE_MASK == 0xfff);
    }
    assert(file_name(again) == Some(utf8(name)));
    lemma_source_is_kept(disk, later, target_root, cache_root, pending, record);
    assert(path_starts_with(target, target_root)) by {
        assert(components(target_root) =~= components(target).take(
            components(target_root).len() as int,
        ));
    }
    assert(later.own(target) is Missing || alike(disk, target, later, target));
}

/// The cached file of an output that a manifest vouches for can be used.
proof fn lemma_source_is_kept(
    disk: SnapshotDisk,
    later: SnapshotDisk,
    target_root: Seq<u8>,
    cache_root: Seq<u8>,
    pending: Pending,
    record: Record,
)
    requires
        is_absolute(target_root),
        is_absolute(cache_root),
        is_coherent(disk),
        is_spelled_out(disk, target_root, cache_root, pending),
        is_kept(disk, later, cache_root),
        certified(disk, target_root, cache_root, pending) == Ok::<Option<Record>, SnapshotError>(
            Some(record),
        ),
    ensures
        source_error(later, cache_root, record) is None,
{
    let relative = path_below(pending.0, cache_root)->Some_0;
    lemma_path_is_found_again(pending.0, cache_root);
    let entry = spelled(pending.0, cache_root);
    let again = decoded_path(record.cache_entry)->Ok_0;
    let filename = file_name(pending.1)->Some_0;
    let name = record.cache_filename;
    decode_utf8_encode_utf8(filename);
    assert(utf8(name) == filename);
    let list = components(relative);
    lemma_component_texts(list);
    let texts = component_texts(list)->Ok_0;
    assert forall|i: int| 0 <= i < list.len() implies exists|name: Seq<char>|
        is_safe_component(name) && #[trigger] utf8(name) == #[trigger] list[i] by {
        assert(is_safe_component(texts[i]) && utf8(texts[i]) == list[i]);
    }
    let root = components(cache_root);
    assert(path_starts_with(cache_root, cache_root)) by {
        assert(root =~= root.take(root.len() as int));
    }
    lemma_descent_is_kept(disk, later, cache_root, cache_root, list);
    let directory = files_directory(entry);
    let stored = joined(directory, filename);
    assert(is_safe_component("files"@)) by {
        reveal_strlit("files");
        reveal_strlit(".");
        reveal_strlit("..");
        assert("files"@.len() != "."@.len());
        assert("files"@.len() != ".."@.len());
    }
    lemma_joined_name(entry, "files"@);
    lemma_joined_name(directory, name);
    assert(components(entry) == root + components(relative));
    assert(path_starts_with(entry, cache_root)) by {
        assert(root =~= components(entry).take(root.len() as int));
    }
    assert(path_starts_with(directory, cache_root)) by {
        assert(root =~= components(directory).take(root.len() as int));
    }
    assert(path_starts_with(stored, cache_root)) by {
        assert(root =~= components(stored).take(root.len() as int));
    }
    assert(alike(disk, entry, later, entry));
    assert(alike(disk, directory, later, directory));
    assert(alike(disk, stored, later, stored));
    let path = cached_path(name);
    let files = disk.files(entry);
    assert(files == disk.files(pending.0));
    let lines = verified_manifest(files)->Ok_0->Some_0;
    assert(seq![path].drop_last() =~= Seq::<Seq<char>>::empty());
    assert(files_verified(files, lines, Seq::empty()) == Ok::<bool, EntryError>(true));
    assert(seq![path].last() == path);
    assert(file_verified(files, lines, path) == Ok::<bool, EntryError>(true));
    assert(stored_at(files, path) is Found);
    assert(stored_at(disk.files(entry), cached_path(name)) is Found);
    assert(disk.own(stored) is Found);
}

/// Whether all recorded outputs are known by the paths that a manifest leads
/// to.
pub open spec fn all_spelled_out(
    disk: SnapshotDisk,
    target_root: Seq<u8>,
    cache_root: Seq<u8>,
    pending: Seq<Pending>,
) -> bool {
    forall|p: Pending| #[trigger]
        pending.contains(p) ==> is_spelled_out(disk, target_root, cache_root, p)
}

/// The plans that records ask for.
pub open spec fn plans_of(
    disk: SnapshotDisk,
    target_root: Seq<u8>,
    cache_root: Seq<u8>,
    records: Seq<Record>,
) -> Seq<Plan> {
    Seq::new(records.len(), |i: int| plan_of(disk, target_root, cache_root, records[i]))
}

/// The first records of a manifest can be restored.
proof fn lemma_records_are_planned(
    disk: SnapshotDisk,
    later: SnapshotDisk,
    target_root: Seq<u8>,
    cache_root: Seq<u8>,
    pending: Seq<Pending>,
    records: Seq<Record>,
    count: int,
)
    requires
        is_absolute(target_root),
        is_absolute(cache_root),
        is_coherent(disk),
        all_spelled_out(disk, target_root, cache_root, pending),
        is_kept(disk, later, cache_root),
        is_thinned(disk, later, target_root),
        in_target_order(records),
        forall|i: int|
            0 <= i < records.len() ==> is_found(
                disk,
                target_root,
                cache_root,
                pending,
                #[trigger] records[i],
            ),
        parents_are_usable(later, target_root, records),
        0 <= count <= records.len(),
    ensures
        all_planned(later, target_root, cache_root, records.take(count)) == Ok::<
            Seq<Plan>,
            SnapshotError,
        >(plans_of(later, target_root, cache_root, records.take(count))),
    decreases count,
{
    let list = records.take(count);
    if count == 0 {
        assert(plans_of(later, target_root, cache_root, list) =~= Seq::<Plan>::empty());
    } else {
        lemma_records_are_planned(
            disk,
            later,
            target_root,
            cache_root,
            pending,
            records,
            count - 1,
        );
        let before = records.take(count - 1);
        assert(list.drop_last() =~= before);
        let record = records[count - 1];
        assert(list.last() == record);
        let p = choose|p: Pending|
            #[trigger] pending.contains(p) && certified(disk, target_root, cache_root, p) == Ok::<
                Option<Record>,
                SnapshotError,
            >(Some(record));
        assert(is_found(disk, target_root, cache_root, pending, record));
        assert(!holds_target(before, record.target_path)) by {
            if holds_target(before, record.target_path) {
                let i = choose|i: int|
                    0 <= i < before.len() && (#[trigger] before[i]).target_path
                        == record.target_path;
                assert(before[i] == records[i]);
                lemma_text_order(records[i].target_path, record.target_path);
            }
        }
        lemma_record_is_planned(disk, later, target_root, cache_root, p, record, before);
        assert(plans_of(later, target_root, cache_root, list) =~= plans_of(
            later,
            target_root,
            cache_root,
            before,
        ).push(plan_of(later, target_root, cache_root, record)));
    }
}

/// A manifest that was written can be restored: where the cache was kept, and
/// nothing happened to the targets but that some of them went, the manifest is
/// accepted, and every target that is gone is planned to be made from its
/// cached file.
pub proof fn law_written_manifests_are_restorable(
    disk: SnapshotDisk,
    later: SnapshotDisk,
    target_root: Seq<u8>,
    cache_root: Seq<u8>,
    pending: Seq<Pending>,
)
    requires
        roots_error(later, target_root, cache_root) is None,
        gathered(disk, target_root, cache_root, pending) is Ok,
        is_coherent(disk),
        all_spelled_out(disk, target_root, cache_root, pending),
        is_kept(disk, later, cache_root),
        is_thinned(disk, later, target_root),
        parents_are_usable(
            later,
            target_root,
            gathered(disk, target_root, cache_root, pending)->Ok_0,
        ),
    ensures
        manifest_error(
            later,
            target_root,
            cache_root,
            SNAPSHOT_VERSION,
            decode_utf8(target_root),
        ) is None,
        all_planned(
            later,
            target_root,
            cache_root,
            gathered(disk, target_root, cache_root, pending)->Ok_0,
        ) == Ok::<Seq<Plan>, SnapshotError>(
            plans_of(
                later,
                target_root,
                cache_root,
                gathered(disk, target_root, cache_root, pending)->Ok_0,
            ),
        ),
{
    let records = gathered(disk, target_root, cache_root, pending)->Ok_0;
    law_manifests_hold_least_records(disk, target_root, cache_root, pending);
    assert forall|i: int| 0 <= i < records.len() implies is_found(
        disk,
        target_root,
        cache_root,
        pending,
        #[trigger] records[i],
    ) by {
        assert(is_least(disk, target_root, cache_root, pending, records[i]));
    }
    lemma_records_are_planned(
        disk,
        later,
        target_root,
        cache_root,
        pending,
        records,
        records.len() as int,
    );
    assert(records.take(records.len() as int) =~= records);
}

/// Whether two regular files have the same size, permissions and time of
/// modification, and contents of one digest.
pub open spec fn is_same_file(
    metadata: SnapshotMetadata,
    digest: Option<Seq<char>>,
    other: SnapshotMetadata,
    other_digest: Option<Seq<char>>,
) -> bool {
    &&& metadata.kind == FileKind::File
    &&& other.kind == FileKind::File
    &&& metadata.len == other.len
    &&& metadata.mode & PERMISSION_MODE_MASK == other.mode & PERMISSION_MODE_MASK
    &&& metadata.modified.seconds == other.modified.seconds
    &&& metadata.modified.nanoseconds == other.modified.nanoseconds
    &&& digest is Some
    &&& digest == other_digest
}

/// Whether a file is as a recorded output was on a disk.
pub open spec fn is_as_recorded(
    disk: SnapshotDisk,
    pending: Pending,
    written: Lookup<SnapshotMetadata>,
    digest: Option<Seq<char>>,
) -> bool {
    match (disk.own(pending.1), written) {
        (Lookup::Found(metadata), Lookup::Found(other)) => is_same_file(
            metadata,
            disk.digest(pending.1),
            other,
            digest,
        ),
        _ => false,
    }
}

/// What is restored is what was recorded: a file that is accepted as the target
/// of a record has the size, the permissions, the time of modification and the
/// digest that the output had when the manifest was written.
pub proof fn law_restored_targets_are_as_recorded(
    disk: SnapshotDisk,
    target_root: Seq<u8>,
    cache_root: Seq<u8>,
    pending: Seq<Pending>,
    index: int,
    appeared: bool,
    copied: u64,
    written: Lookup<SnapshotMetadata>,
    digest: Option<Seq<char>>,
)
    requires
        gathered(disk, target_root, cache_root, pending) is Ok,
        0 <= index < gathered(disk, target_root, cache_root, pending)->Ok_0.len(),
        reconstruction(
            gathered(disk, target_root, cache_root, pending)->Ok_0[index],
            appeared,
            copied,
            written,
            digest,
        ) is Ok,
    ensures
        exists|p: Pending| #[trigger]
            pending.contains(p) && certified(disk, target_root, cache_root, p) == Ok::<
                Option<Record>,
                SnapshotError,
            >(Some(gathered(disk, target_root, cache_root, pending)->Ok_0[index]))
                && is_as_recorded(disk, p, written, digest),
        !appeared,
        written is Found,
        written->Found_0.len == copied,
{
    let record = gathered(disk, target_root, cache_root, pending)->Ok_0[index];
    law_manifests_hold_least_records(disk, target_root, cache_root, pending);
    assert(is_least(disk, target_root, cache_root, pending, record));
    assert(is_found(disk, target_root, cache_root, pending, record));
    let p = choose|p: Pending| #[trigger]
        pending.contains(p) && certified(disk, target_root, cache_root, p) == Ok::<
            Option<Record>,
            SnapshotError,
        >(Some(record));
    lemma_accepted_as_recorded(
        disk,
        target_root,
        cache_root,
        p,
        record,
        appeared,
        copied,
        written,
        digest,
    );
}

/// What is accepted for the record of an output is as the output was.
proof fn lemma_accepted_as_recorded(
    disk: SnapshotDisk,
    target_root: Seq<u8>,
    cache_root: Seq<u8>,
    pending: Pending,
    record: Record,
    appeared: bool,
    copied: u64,
    written: Lookup<SnapshotMetadata>,
    digest: Option<Seq<char>>,
)
    requires
        certified(disk, target_root, cache_root, pending) == Ok::<Option<Record>, SnapshotError>(
            Some(record),
        ),
        reconstruction(record, appeared, copied, written, digest) is Ok,
    ensures
        is_as_recorded(disk, pending, written, digest),
        !appeared,
        written is Found,
        written->Found_0.len == copied,
{
}

/// The target of a record.
pub open spec fn target_of(target_root: Seq<u8>, record: Record) -> Seq<u8> {
    joined(target_root, decoded_path(record.target_path)->Ok_0)
}

/// Whether the target of a record stands in place after a restore that was
/// planned on `disk`: it was there and stayed, or what stands there was accepted.
pub open spec fn is_in_place(
    disk: SnapshotDisk,
    later: SnapshotDisk,
    target_root: Seq<u8>,
    record: Record,
) -> bool {
    let target = target_of(target_root, record);
    ||| disk.own(target) is Found && alike(disk, target, later, target)
    ||| reconstruction(record, false, record.size, later.own(target), later.digest(target)) is Ok
}

/// The cached file of a record stays usable where the cache stays.
proof fn lemma_source_stays(
    disk: SnapshotDisk,
    later: SnapshotDisk,
    cache_root: Seq<u8>,
    record: Record,
)
    requires
        is_absolute(cache_root),
        is_kept(disk, later, cache_root),
        record_error(record) is None,
    ensures
        source_error(later, cache_root, record) == source_error(disk, cache_root, record),
{
    let relative = decoded_path(record.cache_entry)->Ok_0;
    let entry = joined(cache_root, relative);
    let name = record.cache_filename;
    lemma_decoded_start(record.cache_entry);
    law_decoded_paths_encode(record.cache_entry);
    law_joined_components(cache_root, relative);
    let list = components(relative);
    lemma_component_texts(list);
    let texts = component_texts(list)->Ok_0;
    assert forall|i: int| 0 <= i < list.len() implies exists|name: Seq<char>|
        is_safe_component(name) && #[trigger] utf8(name) == #[trigger] list[i] by {
        assert(is_safe_component(texts[i]) && utf8(texts[i]) == list[i]);
    }
    let root = components(cache_root);
    assert(path_starts_with(cache_root, cache_root)) by {
        assert(root =~= root.take(root.len() as int));
    }
    lemma_descent_is_kept(disk, later, cache_root, cache_root, list);
    let directory = files_directory(entry);
    let stored = joined(directory, utf8(name));
    assert(is_safe_component("files"@)) by {
        reveal_strlit("files");
        reveal_strlit(".");
        reveal_strlit("..");
        assert("files"@.len() != "."@.len());
        assert("files"@.len() != ".."@.len());
    }
    lemma_joined_name(entry, "files"@);
    lemma_joined_name(directory, name);
    assert(path_starts_with(entry, cache_root)) by {
        assert(root =~= components(entry).take(root.len() as int));
    }
    assert(path_starts_with(directory, cache_root)) by {
        assert(root =~= components(directory).take(root.len() as int));
    }
    assert(path_starts_with(stored, cache_root)) by {
        assert(root =~= components(stored).take(root.len() as int));
    }
    assert(alike(disk, entry, later, entry));
    assert(alike(disk, directory, later, directory));
    assert(alike(disk, stored, later, stored));
}

/// The plans of a second restore: those of the first, each with its target
/// there already.
pub open spec fn all_existing(plans: Seq<Plan>) -> Seq<Plan> {
    Seq::new(plans.len(), |i: int| (plans[i].0, plans[i].1, true))
}

/// A second restore, where the cache and the targets are as the first left
/// them, finds every target there already.
pub proof fn law_second_restore_finds_every_target(
    disk: SnapshotDisk,
    later: SnapshotDisk,
    target_root: Seq<u8>,
    cache_root: Seq<u8>,
    records: Seq<Record>,
)
    requires
        is_absolute(cache_root),
        all_planned(disk, target_root, cache_root, records) is Ok,
        is_kept(disk, later, cache_root),
        parents_are_usable(later, target_root, records),
        forall|i: int|
            0 <= i < records.len() ==> is_in_place(
                disk,
                later,
                target_root,
                #[trigger] records[i],
            ),
    ensures
        all_planned(disk, target_root, cache_root, records)->Ok_0.len() == records.len(),
        all_planned(later, target_root, cache_root, records) == Ok::<Seq<Plan>, SnapshotError>(
            all_existing(all_planned(disk, target_root, cache_root, records)->Ok_0),
        ),
    decreases records.len(),
{
    let plans = all_planned(disk, target_root, cache_root, records)->Ok_0;
    if records.len() == 0 {
        assert(all_existing(plans) =~= Seq::<Plan>::empty());
    } else {
        let before = records.drop_last();
        let record = records.last();
        assert(record == records[records.len() - 1]);
        assert forall|i: int| 0 <= i < before.len() implies is_in_place(
            disk,
            later,
            target_root,
            #[trigger] before[i],
        ) by {
            assert(before[i] == records[i]);
        }
        assert(parents_are_usable(later, target_root, before)) by {
            assert forall|i: int| 0 <= i < before.len() implies target_parent_error(
                later,
                target_root,
                decoded_path((#[trigger] before[i]).target_path)->Ok_0,
            ) is None by {
                assert(before[i] == records[i]);
            }
        }
        law_second_restore_finds_every_target(disk, later, target_root, cache_root, before);
        let earlier = all_planned(disk, target_root, cache_root, before)->Ok_0;
        let plan = planned(disk, target_root, cache_root, before, record)->Ok_0;
        assert(plans == earlier.push(plan));
        lemma_source_stays(disk, later, cache_root, record);
        assert(target_exists(later, target_of(target_root, record), record) == Ok::<
            bool,
            SnapshotError,
        >(true));
        assert(planned(later, target_root, cache_root, before, record) == Ok::<
            Plan,
            SnapshotError,
        >((plan.0, plan.1, true)));
        assert(all_existing(plans) =~= all_existing(earlier).push((plan.0, plan.1, true)));
    }
}

/// Whether files are those of records, all of them there already.
pub open spec fn are_existing(list: Seq<RestoredFile>, records: Seq<Record>) -> bool {
    list.len() == records.len() && forall|i: int|
        0 <= i < list.len() ==> (#[trigger] list[i]).how == Restored::Existing && list[i].size
            == records[i].size
}

/// Where every target of a restore was there already, its summary counts all of
/// them as existing, and nothing else.
pub proof fn law_existing_targets_are_counted_as_such(
    list: Seq<RestoredFile>,
    records: Seq<Record>,
    summary: RestoreSummary,
)
    requires
        are_existing(list, records),
        sums_up(summary, list),
    ensures
        summary.existing_files == records.len(),
        summary.existing_bytes == total_size(records),
        summary.cloned_files == 0,
        summary.cloned_bytes == 0,
        summary.copied_files == 0,
        summary.copied_bytes == 0,
{
    lemma_existing_files(list, records);
}

/// Files that are there already count as such.
proof fn lemma_existing_files(list: Seq<RestoredFile>, records: Seq<Record>)
    requires
        are_existing(list, records),
    ensures
        files_by(list, Restored::Existing) == records.len(),
        bytes_by(list, Restored::Existing) == total_size(records),
        files_by(list, Restored::Made(ReconstructionKind::Cloned)) == 0,
        bytes_by(list, Restored::Made(ReconstructionKind::Cloned)) == 0,
        files_by(list, Restored::Made(ReconstructionKind::Copied)) == 0,
        bytes_by(list, Restored::Made(ReconstructionKind::Copied)) == 0,
    decreases list.len(),
{
    if list.len() > 0 {
        let rest = list.drop_last();
        let before = records.drop_last();
        assert forall|i: int| 0 <= i < rest.len() implies (#[trigger] rest[i]).how
            == Restored::Existing && rest[i].size == before[i].size by {
            assert(rest[i] == list[i] && before[i] == records[i]);
        }
        lemma_existing_files(rest, before);
        assert(list.last() == list[list.len() - 1]);
    }
}

} // verus!
