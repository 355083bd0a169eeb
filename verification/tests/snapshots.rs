use artifact_cache::digest::blake3_hex;
use artifact_cache::disk::FileKind;
use artifact_cache::disk::Lookup;
use artifact_cache::disk::Timestamp;
use artifact_cache::entry::StoredFile;
use artifact_cache::outputs::FileFlavor;
use artifact_cache::outputs::OutputFile;
use artifact_cache::recorder::manifest_summary;
use artifact_cache::recorder::Invalidation;
use artifact_cache::recorder::Recorder;
use artifact_cache::recorder::SnapshotManifest;
use artifact_cache::snapshot::metadata_mode;
use artifact_cache::snapshot::validate_snapshot_record;
use artifact_cache::snapshot::EntryFiles;
use artifact_cache::snapshot::SnapshotDisk;
use artifact_cache::snapshot::SnapshotError;
use artifact_cache::snapshot::SnapshotMetadata;
use artifact_cache::snapshot::SnapshotNode;
use artifact_cache::snapshot::SnapshotRecord;
use artifact_cache::snapshot::SNAPSHOT_VERSION;
use artifact_cache::snapshot_paths::decode_safe_filename;
use artifact_cache::snapshot_paths::decode_safe_relative;
use artifact_cache::snapshot_paths::encode_safe_filename;
use artifact_cache::snapshot_paths::encode_safe_relative;
use artifact_cache::snapshot_paths::validate_absolute_root;
use artifact_cache::snapshot_paths::PathError;
use artifact_cache::snapshot_restore::check_reconstruction;
use artifact_cache::snapshot_restore::create_target_parent_no_follow;
use artifact_cache::snapshot_restore::plan_restore;
use artifact_cache::snapshot_restore::reconstruction_kind;
use artifact_cache::snapshot_restore::summarize_restore;
use artifact_cache::snapshot_restore::target_parent_directories;
use artifact_cache::snapshot_restore::DirectoryCreation;
use artifact_cache::snapshot_restore::ReconstructionKind;
use artifact_cache::snapshot_restore::RestoreSummary;
use artifact_cache::snapshot_restore::Restored;
use artifact_cache::snapshot_restore::RestoredFile;

#[test]
fn safe_relative_paths_round_trip_and_reject_traversal() {
    let path = b"debug/deps/libexample-123.rlib";
    let encoded = encode_safe_relative(path).unwrap();
    assert_eq!(encoded, "debug/deps/libexample-123.rlib");
    assert_eq!(decode_safe_relative(&encoded).unwrap(), path.to_vec());

    for malformed in [
        "",
        ".",
        "..",
        "../escape",
        "debug/../escape",
        "/absolute",
        "debug//file",
        "debug\\file",
        "C:/absolute",
    ] {
        assert!(
            decode_safe_relative(malformed).is_err(),
            "accepted {malformed:?}"
        );
    }
}

#[test]
fn paths_that_cannot_stand_in_a_manifest_are_refused() {
    assert_eq!(
        encode_safe_relative(b"/absolute"),
        Err(PathError::NotSafeRelative)
    );
    assert_eq!(encode_safe_relative(b"a/\xff"), Err(PathError::NotText));
    assert_eq!(
        encode_safe_relative(b"a/b:c"),
        Err(PathError::UnsafeComponent)
    );
    assert_eq!(encode_safe_relative(b""), Err(PathError::Empty));
    assert_eq!(
        encode_safe_relative(b"a//b/./c/"),
        Ok("a/b/c".to_owned())
    );
    assert_eq!(
        decode_safe_relative("a//b"),
        Err(PathError::UnsafeComponent)
    );
    assert_eq!(decode_safe_relative("a/"), Err(PathError::NotSafeRelative));
    assert_eq!(encode_safe_filename(b"\xff"), Err(PathError::NotText));
    assert_eq!(
        decode_safe_filename("a/b"),
        Err(PathError::UnsafeComponent)
    );
    assert_eq!(decode_safe_filename("a.rlib"), Ok(b"a.rlib".to_vec()));
    assert_eq!(
        validate_absolute_root(b"relative"),
        Err(PathError::NotAbsolute)
    );
    assert_eq!(validate_absolute_root(b"/a/../b"), Err(PathError::Traversal));
    assert_eq!(validate_absolute_root(b"/\xff"), Err(PathError::NotText));
    assert_eq!(validate_absolute_root(b"/a/b"), Ok(()));
}

const CONTENTS: &[u8] = b"example artifact";
const TARGET: &str = "/t/target/debug/deps/libexample.rlib";

fn metadata(kind: FileKind, len: u64) -> SnapshotMetadata {
    SnapshotMetadata {
        kind,
        len,
        mode: 0o100644,
        modified: Timestamp {
            seconds: 1_700_000_000,
            nanoseconds: 123_000_000,
        },
    }
}

fn directory_node(path: &str) -> SnapshotNode {
    SnapshotNode {
        path: path.as_bytes().to_vec(),
        own: Lookup::Found(metadata(FileKind::Directory, 0)),
        followed_len: Some(0),
        contents: None,
    }
}

fn file_node(path: &str, contents: &[u8]) -> SnapshotNode {
    SnapshotNode {
        path: path.as_bytes().to_vec(),
        own: Lookup::Found(metadata(FileKind::File, contents.len() as u64)),
        followed_len: Some(contents.len() as u64),
        contents: Some(contents.to_vec()),
    }
}

fn stored(path: &str, contents: &[u8]) -> StoredFile {
    StoredFile {
        path: path.to_owned(),
        contents: Lookup::Found(contents.to_vec()),
    }
}

fn disk(target: Option<&[u8]>, cached: &[u8]) -> SnapshotDisk {
    let manifest = format!("files/libexample.rlib\t{}\n", blake3_hex(CONTENTS));
    let complete = format!("{}\n", blake3_hex(manifest.as_bytes()));
    let mut nodes = vec![
        directory_node("/t/target"),
        directory_node("/t/target/debug"),
        directory_node("/t/target/debug/deps"),
        directory_node("/t/cache"),
        directory_node("/t/cache/action"),
        directory_node("/t/cache/action/input"),
        directory_node("/t/cache/action/input/files"),
        file_node("/t/cache/action/input/files/libexample.rlib", cached),
        file_node("/t/target/debug/deps/libevicted.rlib", b"evicted artifact"),
        directory_node("/t/different-target"),
    ];
    if let Some(contents) = target {
        nodes.push(file_node(TARGET, contents));
    }
    SnapshotDisk {
        nodes,
        entries: vec![EntryFiles {
            path: b"/t/cache/action/input".to_vec(),
            files: vec![
                stored("files/libexample.rlib", cached),
                stored("manifest.blake3", manifest.as_bytes()),
                stored("complete", complete.as_bytes()),
            ],
        }],
    }
}

fn output(path: &str) -> OutputFile {
    OutputFile {
        path: path.as_bytes().to_vec(),
        hardlink: None,
        export_path: None,
        flavor: FileFlavor::Linkable,
    }
}

fn recorder() -> Recorder {
    Recorder::new(
        b"/t/snapshot.json".to_vec(),
        b"/t/target".to_vec(),
        b"/t/cache".to_vec(),
    )
    .ok()
    .unwrap()
}

fn written() -> SnapshotManifest {
    let mut recorder = recorder();
    recorder.record(b"/t/cache/action/input", &vec![output(TARGET)]);
    recorder.record(
        b"/t/cache/evicted-action/evicted-input",
        &vec![output("/t/target/debug/deps/libevicted.rlib")],
    );
    recorder
        .write(&disk(Some(CONTENTS), CONTENTS))
        .ok()
        .unwrap()
}

#[test]
fn recorder_and_restorer_copy_verified_outputs() {
    let manifest = written();
    let summary = manifest_summary(&manifest).unwrap();
    assert_eq!(summary.files, 1);
    assert_eq!(summary.logical_bytes, CONTENTS.len() as u64);

    let plans = plan_restore(&disk(None, CONTENTS), b"/t/target", b"/t/cache", &manifest)
        .ok()
        .unwrap();
    assert_eq!(plans.len(), 1);
    assert!(!plans[0].already_exists);
    assert_eq!(plans[0].target, TARGET.as_bytes());
    assert_eq!(
        plans[0].stored,
        b"/t/cache/action/input/files/libexample.rlib"
    );
    let record = &manifest.records[plans[0].record];
    assert_eq!(
        check_reconstruction(
            record,
            false,
            CONTENTS.len() as u64,
            &Lookup::Found(metadata(FileKind::File, CONTENTS.len() as u64)),
            &Some(blake3_hex(CONTENTS)),
        ),
        Ok(())
    );
    let mut summary = RestoreSummary::default();
    summary.count(record.size, Restored::Made(ReconstructionKind::Copied));
    assert_eq!(summary.cloned_files + summary.copied_files, 1);
    assert_eq!(
        summary.cloned_bytes + summary.copied_bytes,
        CONTENTS.len() as u64
    );

    let plans = plan_restore(
        &disk(Some(CONTENTS), CONTENTS),
        b"/t/target",
        b"/t/cache",
        &manifest,
    )
    .ok()
    .unwrap();
    assert!(plans[0].already_exists);
    let mut second = RestoreSummary::default();
    second.count(record.size, Restored::Existing);
    assert_eq!(second.existing_files, 1);
    assert_eq!(second.existing_bytes, CONTENTS.len() as u64);

    assert_eq!(
        plan_restore(
            &disk(None, CONTENTS),
            b"/t/different-target",
            b"/t/cache",
            &manifest
        )
        .err(),
        Some(SnapshotError::TargetRootMismatch)
    );

    assert_eq!(
        plan_restore(
            &disk(Some(b"private target mutation"), CONTENTS),
            b"/t/target",
            b"/t/cache",
            &manifest
        )
        .err(),
        Some(SnapshotError::TargetMismatch)
    );
}

#[test]
fn manifests_do_not_depend_on_the_order_of_recording() {
    let outputs = [
        (
            "/t/cache/evicted-action/evicted-input",
            "/t/target/debug/deps/libevicted.rlib",
        ),
        ("/t/cache/action/input", TARGET),
        ("/t/cache/action/input", TARGET),
    ];
    let mut recorder = recorder();
    for (entry, path) in outputs {
        recorder.record(entry.as_bytes(), &vec![output(path)]);
    }
    let manifest = recorder
        .write(&disk(Some(CONTENTS), CONTENTS))
        .ok()
        .unwrap();
    assert_eq!(
        format!("{:?}", manifest.records),
        format!("{:?}", written().records)
    );
    assert_eq!(manifest.version, SNAPSHOT_VERSION);
    assert_eq!(manifest.target_root, "/t/target");
    assert_eq!(manifest.records[0].mode, 0o644);
}

#[test]
fn roots_have_to_be_absolute() {
    let error = |target: &str, cache: &str| {
        Recorder::new(
            Vec::new(),
            target.as_bytes().to_vec(),
            cache.as_bytes().to_vec(),
        )
        .err()
    };
    assert_eq!(
        error("target", "cache"),
        Some(SnapshotError::TargetRoot(PathError::NotAbsolute))
    );
    assert_eq!(
        error("/target", "/a/./../b"),
        Some(SnapshotError::CacheRoot(PathError::Traversal))
    );
}

#[test]
fn outputs_outside_the_roots_are_errors() {
    let mut outside_target = recorder();
    outside_target.record(b"/t/cache/action/input", &vec![output("/elsewhere/lib.rlib")]);
    assert_eq!(
        outside_target.write(&disk(None, CONTENTS)).err(),
        Some(SnapshotError::OutsideTargetRoot)
    );
    let mut outside_cache = recorder();
    outside_cache.record(b"/elsewhere", &vec![output(TARGET)]);
    assert_eq!(
        outside_cache.write(&disk(None, CONTENTS)).err(),
        Some(SnapshotError::OutsideCacheRoot)
    );
}

#[test]
fn only_regular_files_are_invalidated() {
    assert_eq!(
        Recorder::invalidate_output(&Lookup::Found(metadata(FileKind::File, 1))),
        Ok(Invalidation::Remove)
    );
    assert_eq!(
        Recorder::invalidate_output(&Lookup::Missing),
        Ok(Invalidation::Nothing)
    );
    assert_eq!(
        Recorder::invalidate_output(&Lookup::Found(metadata(FileKind::Symlink, 1))),
        Err(SnapshotError::NotRegularFile)
    );
    assert_eq!(
        Recorder::invalidate_output(&Lookup::Failed),
        Err(SnapshotError::Uninspectable)
    );
}

fn record() -> SnapshotRecord {
    SnapshotRecord {
        target_path: "debug/deps/libexample.rlib".to_owned(),
        cache_entry: "action/input".to_owned(),
        cache_filename: "libexample.rlib".to_owned(),
        cache_digest: blake3_hex(CONTENTS),
        mode: 0o644,
        size: CONTENTS.len() as u64,
        mtime_sec: 1_700_000_000,
        mtime_nsec: 123_000_000,
    }
}

fn manifest_of(records: Vec<SnapshotRecord>) -> SnapshotManifest {
    SnapshotManifest {
        version: SNAPSHOT_VERSION,
        target_root: "/t/target".to_owned(),
        records,
    }
}

fn planning_error(records: Vec<SnapshotRecord>) -> Option<SnapshotError> {
    plan_restore(
        &disk(None, CONTENTS),
        b"/t/target",
        b"/t/cache",
        &manifest_of(records),
    )
    .err()
}

#[test]
fn invalid_records_are_refused() {
    assert_eq!(validate_snapshot_record(&record()), Ok(()));
    let mut mode = record();
    mode.mode = 0o10000;
    assert_eq!(
        validate_snapshot_record(&mode),
        Err(SnapshotError::InvalidMode)
    );
    let mut nanoseconds = record();
    nanoseconds.mtime_nsec = 1_000_000_000;
    assert_eq!(
        validate_snapshot_record(&nanoseconds),
        Err(SnapshotError::InvalidNanoseconds)
    );
    let mut digest = record();
    digest.cache_digest = "A".repeat(64);
    assert_eq!(
        validate_snapshot_record(&digest),
        Err(SnapshotError::InvalidDigest)
    );
    let mut target = record();
    target.target_path = "../escape".to_owned();
    assert_eq!(
        validate_snapshot_record(&target),
        Err(SnapshotError::TargetPath(PathError::UnsafeComponent))
    );
    let mut filename = record();
    filename.cache_filename = "a/b".to_owned();
    assert_eq!(
        validate_snapshot_record(&filename),
        Err(SnapshotError::CacheFilename(PathError::UnsafeComponent))
    );
}

#[test]
fn plans_fail_with_the_first_error() {
    assert_eq!(
        planning_error(vec![record(), record()]),
        Some(SnapshotError::RepeatedTarget)
    );
    let mut renamed = record();
    renamed.cache_filename = "libother.rlib".to_owned();
    assert_eq!(
        planning_error(vec![renamed]),
        Some(SnapshotError::FilenameMismatch)
    );
    let mut absent = record();
    absent.cache_entry = "action/absent".to_owned();
    assert_eq!(
        planning_error(vec![absent]),
        Some(SnapshotError::Uninspectable)
    );
    let mut digest = record();
    digest.cache_digest = "a".repeat(64);
    assert_eq!(
        planning_error(vec![digest]),
        Some(SnapshotError::DigestMismatch)
    );
    let mut size = record();
    size.size = 1;
    assert_eq!(
        planning_error(vec![size]),
        Some(SnapshotError::SizeMismatch)
    );
    assert_eq!(
        plan_restore(
            &disk(None, b"damaged artifact"),
            b"/t/target",
            b"/t/cache",
            &manifest_of(vec![record()])
        )
        .err(),
        Some(SnapshotError::CorruptFile)
    );
    let mut version = manifest_of(Vec::new());
    version.version = 2;
    assert_eq!(
        plan_restore(&disk(None, CONTENTS), b"/t/target", b"/t/cache", &version).err(),
        Some(SnapshotError::UnsupportedVersion(2))
    );
}

#[test]
fn reconstruction_falls_back_to_a_byte_copy() {
    assert_eq!(
        reconstruction_kind(false, true, true),
        ReconstructionKind::Copied
    );
    assert_eq!(
        reconstruction_kind(true, true, false),
        ReconstructionKind::Copied
    );
    assert_eq!(
        reconstruction_kind(true, true, true),
        ReconstructionKind::Cloned
    );
}

#[test]
fn reconstructed_files_are_checked() {
    let found = Lookup::Found(metadata(FileKind::File, CONTENTS.len() as u64));
    let digest = Some(blake3_hex(CONTENTS));
    let check = |appeared: bool, copied: u64, digest: &Option<String>| {
        check_reconstruction(&record(), appeared, copied, &found, digest)
    };
    assert_eq!(
        check(true, 16, &digest),
        Err(SnapshotError::TargetAppeared)
    );
    assert_eq!(
        check(false, 15, &digest),
        Err(SnapshotError::SourceChanged)
    );
    assert_eq!(
        check(false, 16, &Some("b".repeat(64))),
        Err(SnapshotError::UnrepresentableMetadata)
    );
    assert_eq!(check(false, 16, &None), Err(SnapshotError::Uninspectable));
    assert_eq!(metadata_mode(&metadata(FileKind::File, 1)), 0o644);
}

#[test]
fn directories_above_a_target_are_made_from_the_top() {
    let parents = target_parent_directories(b"/t/target", b"/t/target/debug/deps")
        .ok()
        .unwrap();
    assert_eq!(
        parents.directories,
        vec![b"/t/target/debug".to_vec(), b"/t/target/debug/deps".to_vec()]
    );
    assert!(parents.complete);
    let escaping = target_parent_directories(b"/t/target", b"/t/target/a/../b")
        .ok()
        .unwrap();
    assert_eq!(escaping.directories, vec![b"/t/target/a".to_vec()]);
    assert!(!escaping.complete);
    assert_eq!(
        target_parent_directories(b"/t/target", b"/elsewhere").err(),
        Some(SnapshotError::OutsideTargetRoot)
    );
    assert_eq!(
        create_target_parent_no_follow(DirectoryCreation::Exists(Some(FileKind::Directory))),
        Ok(())
    );
    assert_eq!(
        create_target_parent_no_follow(DirectoryCreation::Exists(Some(FileKind::Symlink))),
        Err(SnapshotError::NotDirectory)
    );
}

#[test]
fn restored_files_are_counted_once() {
    let file = |size: u64, how: Restored| RestoredFile { size, how };
    let summary = summarize_restore(&vec![
        file(3, Restored::Existing),
        file(4, Restored::Made(ReconstructionKind::Cloned)),
        file(5, Restored::Made(ReconstructionKind::Copied)),
        file(6, Restored::Made(ReconstructionKind::Copied)),
    ])
    .unwrap();
    assert_eq!((summary.existing_files, summary.existing_bytes), (1, 3));
    assert_eq!((summary.cloned_files, summary.cloned_bytes), (1, 4));
    assert_eq!((summary.copied_files, summary.copied_bytes), (2, 11));
    assert!(summarize_restore(&vec![
        file(u64::MAX, Restored::Existing),
        file(1, Restored::Existing),
    ])
    .is_none());
}

#[test]
fn second_restores_find_and_count_every_target() {
    let manifest = written();
    let plans = plan_restore(
        &disk(Some(CONTENTS), CONTENTS),
        b"/t/target",
        b"/t/cache",
        &manifest,
    )
    .ok()
    .unwrap();
    assert!(plans.iter().all(|plan| plan.already_exists));
    let files: Vec<RestoredFile> = plans
        .iter()
        .map(|plan| RestoredFile {
            size: manifest.records[plan.record].size,
            how: Restored::Existing,
        })
        .collect();
    let summary = summarize_restore(&files).unwrap();
    assert_eq!(
        (summary.existing_files, summary.existing_bytes),
        (manifest.records.len() as u64, CONTENTS.len() as u64)
    );
    assert_eq!((summary.cloned_files, summary.cloned_bytes), (0, 0));
    assert_eq!((summary.copied_files, summary.copied_bytes), (0, 0));
}

#[test]
fn only_what_was_recorded_is_accepted() {
    let manifest = written();
    let record = &manifest.records[0];
    let as_recorded = metadata(FileKind::File, CONTENTS.len() as u64);
    let accepted = |found: SnapshotMetadata, contents: &[u8]| {
        check_reconstruction(
            record,
            false,
            record.size,
            &Lookup::Found(found),
            &Some(blake3_hex(contents)),
        )
        .is_ok()
    };
    assert!(accepted(as_recorded, CONTENTS));
    assert!(!accepted(as_recorded, b"other"));
    let mut changed = as_recorded;
    changed.mode ^= 0o111;
    assert!(!accepted(changed, CONTENTS));
    let mut changed = as_recorded;
    changed.modified.nanoseconds ^= 1;
    assert!(!accepted(changed, CONTENTS));
    let mut changed = as_recorded;
    changed.len += 1;
    assert!(!accepted(changed, CONTENTS));
}
