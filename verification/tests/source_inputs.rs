use artifact_cache::command::Command;
use artifact_cache::digest::blake3_hex;
use artifact_cache::disk::Lookup;
use artifact_cache::disk::Timestamp;
use artifact_cache::entry::verify_rlib_cache_control_files;
use artifact_cache::entry::verify_rlib_cache_entry;
use artifact_cache::entry::StoredFile;
use artifact_cache::publication::Publication;
use artifact_cache::publication::PublicationEvent;
use artifact_cache::publication::PublicationOutcome;
use artifact_cache::publication::PublicationSkipReason;
use artifact_cache::publication::PublicationStage;
use artifact_cache::restoration::materialize_rlib_cache_file;
use artifact_cache::restoration::restore_materialization;
use artifact_cache::restoration::ArtifactCacheMaterialization;
use artifact_cache::restoration::LinkAttempt;
use artifact_cache::restoration::Restoration;
use artifact_cache::restoration::RestoreEvent;
use artifact_cache::restoration::RestoreStage;
use artifact_cache::source_inputs::rlib_cache_input_support;
use artifact_cache::source_inputs::rlib_cache_inputs_digest_matching_rustc_dep_info;
use artifact_cache::source_inputs::rlib_cache_inputs_digest_with_env;
use artifact_cache::source_inputs::DepInfo;
use artifact_cache::source_inputs::RecordedChecksum;
use artifact_cache::source_inputs::ReportedVariable;
use artifact_cache::source_inputs::RlibCacheInputSupport;
use artifact_cache::source_inputs::SourceFile;
use artifact_cache::staging::stage_entry;
use artifact_cache::staging::StagedOutput;
use artifact_cache::stats::MaterializationKind;
use artifact_cache::unix_path::join_path;
use artifact_cache::unix_path::path_components;
use artifact_cache::unix_path::strip_path_prefix;

fn source(path: &str, contents: &[u8], seconds: i64) -> SourceFile {
    SourceFile {
        path: path.as_bytes().to_vec(),
        recorded: Some(RecordedChecksum {
            len: contents.len() as u64,
            matches: Some(true),
        }),
        is_file: true,
        contents: Some(contents.to_vec()),
        modified: Some(Timestamp {
            seconds,
            nanoseconds: 0,
        }),
    }
}

fn reported(files: Vec<SourceFile>) -> DepInfo {
    DepInfo {
        files,
        env: vec![ReportedVariable {
            name: "MODE".to_owned(),
            value: Some("fast".to_owned()),
        }],
    }
}

#[test]
fn missing_and_generated_dep_info_are_distinct() {
    let support = |dep_info: &Option<DepInfo>| {
        rlib_cache_input_support(dep_info, b"/t", b"/t/build", b"/t/build/debug/deps")
    };
    assert_eq!(support(&None), RlibCacheInputSupport::MissingDepInfo);
    assert_eq!(
        support(&Some(reported(vec![source("build/generated.rs", b"", 1)]))),
        RlibCacheInputSupport::GeneratedBuildInput
    );
    assert_eq!(
        support(&Some(reported(vec![source("src/lib.rs", b"", 1)]))),
        RlibCacheInputSupport::Supported
    );
}

const STARTED: Timestamp = Timestamp {
    seconds: 100,
    nanoseconds: 0,
};

#[test]
fn what_was_published_is_recognized() {
    let files = || vec![source("src/b.rs", b"b", 50), source("src/a.rs", b"a", 50)];
    let stored = rlib_cache_inputs_digest_matching_rustc_dep_info(Some(reported(files())), STARTED)
        .unwrap()
        .unwrap();
    let mut rustc = Command::new("rustc");
    rustc.env("MODE", b"fast");
    assert_eq!(
        rlib_cache_inputs_digest_with_env(Some(reported(files())), &rustc),
        Some(stored.clone())
    );
    rustc.env("MODE", b"slow");
    assert_ne!(
        rlib_cache_inputs_digest_with_env(Some(reported(files())), &rustc),
        Some(stored.clone())
    );
    rustc.env("MODE", b"fast");
    let changed = vec![source("src/b.rs", b"c", 50), source("src/a.rs", b"a", 50)];
    assert_ne!(
        rlib_cache_inputs_digest_with_env(Some(reported(changed)), &rustc),
        Some(stored)
    );
}

#[test]
fn edits_during_a_compilation_are_not_published() {
    let late = Some(reported(vec![source("src/lib.rs", b"a", 100)]));
    assert_eq!(
        rlib_cache_inputs_digest_matching_rustc_dep_info(late, STARTED),
        Ok(None)
    );
    let mut other = source("src/lib.rs", b"a", 50);
    other.recorded = Some(RecordedChecksum {
        len: 1,
        matches: Some(false),
    });
    assert_eq!(
        rlib_cache_inputs_digest_matching_rustc_dep_info(Some(reported(vec![other])), STARTED),
        Ok(None)
    );
    let mut unknown = source("src/lib.rs", b"a", 50);
    unknown.recorded = Some(RecordedChecksum {
        len: 1,
        matches: None,
    });
    assert!(
        rlib_cache_inputs_digest_matching_rustc_dep_info(Some(reported(vec![unknown])), STARTED)
            .is_err()
    );
}

fn staged() -> Vec<StoredFile> {
    stage_entry(
        &vec![StagedOutput {
            name: b"libdemo.rlib".to_vec(),
            contents: b"library".to_vec(),
        }],
        Some(b"demo.d"),
        None,
        "inputs",
        b"/pkg",
        b"/target/debug",
    )
    .files
}

#[test]
fn staged_files_are_read_back() {
    let files = staged();
    let read = |path: &str| {
        files
            .iter()
            .find(|file| file.path == path)
            .map(|file| match &file.contents {
                Lookup::Found(contents) => contents.clone(),
                Lookup::Missing | Lookup::Failed => panic!("{path} is not there"),
            })
    };
    assert_eq!(read("files/libdemo.rlib"), Some(b"library".to_vec()));
    assert_eq!(read("rustc-dep-info"), Some(b"demo.d".to_vec()));
    assert_eq!(read("compiler-messages"), Some(Vec::new()));
    assert_eq!(read("inputs.blake3"), Some(b"inputs\n".to_vec()));
    assert_eq!(read("origin-pkg-root"), Some(b"/pkg".to_vec()));
    assert_eq!(
        read("origin-target-profile-root"),
        Some(b"/target/debug".to_vec())
    );
    let manifest = String::from_utf8(read("manifest.blake3").unwrap()).unwrap();
    assert_eq!(manifest.lines().count(), 6);
    assert_eq!(
        read("complete"),
        Some(format!("{}\n", blake3_hex(manifest.as_bytes())).into_bytes())
    );
}

#[test]
fn digests_are_those_of_blake3() {
    assert_eq!(
        blake3_hex(b""),
        "af1349b9f5f9a1a6a0404dea36dcc9499bcb25c9adc112b7cc9a93cae41f3262"
    );
}

#[test]
fn joined_paths_are_taken_apart_again() {
    let joined = join_path(b"/target/", b"debug/deps");
    assert_eq!(joined, b"/target/debug/deps".to_vec());
    assert_eq!(
        path_components(&joined),
        vec![
            b"/".to_vec(),
            b"target".to_vec(),
            b"debug".to_vec(),
            b"deps".to_vec()
        ]
    );
    assert_eq!(
        strip_path_prefix(b"/target//debug/./deps/", b"/target"),
        Some(b"debug/./deps".to_vec())
    );
    assert_eq!(strip_path_prefix(b"/targets", b"/target"), None);
}

#[test]
fn staged_entries_verify_until_they_are_damaged() {
    let names = Some(vec![b"libdemo.rlib".to_vec()]);
    let mut files = staged();
    assert_eq!(verify_rlib_cache_control_files(&files), Ok(true));
    assert_eq!(verify_rlib_cache_entry(&files, &names), Ok(true));
    assert_eq!(verify_rlib_cache_entry(&files, &None), Ok(false));
    for file in &mut files {
        if file.path == "files/libdemo.rlib" {
            file.contents = Lookup::Found(b"damaged".to_vec());
        }
    }
    assert_eq!(verify_rlib_cache_entry(&files, &names), Ok(false));
    assert_eq!(verify_rlib_cache_control_files(&files), Ok(true));
    for file in &mut files {
        if file.path == "manifest.blake3" {
            file.contents = Lookup::Found(b"other".to_vec());
        }
    }
    assert_eq!(verify_rlib_cache_control_files(&files), Ok(false));
}

#[test]
fn publications_confirm_their_inputs_three_times() {
    let mut publication = Publication::new(None);
    publication.advance(PublicationEvent::Support(RlibCacheInputSupport::Supported));
    for _ in 0..3 {
        publication.advance(PublicationEvent::Verdict(true));
    }
    publication.advance(PublicationEvent::Digest(Some("d".to_owned())));
    assert_eq!(publication.stage, PublicationStage::ActionLock);
    publication.advance(PublicationEvent::Verdict(false));
    assert_eq!(
        publication.outcome,
        Some(Ok(PublicationOutcome::Skipped(
            PublicationSkipReason::ActionLockUnavailable
        )))
    );
    assert_eq!(publication.stage, PublicationStage::Done);
}

fn publication_with_staging(max_size: Option<u64>) -> Publication {
    let mut publication = Publication::new(max_size);
    publication.advance(PublicationEvent::Support(RlibCacheInputSupport::Supported));
    for _ in 0..3 {
        publication.advance(PublicationEvent::Verdict(true));
    }
    publication.advance(PublicationEvent::Digest(Some("d".to_owned())));
    for _ in 0..2 {
        publication.advance(PublicationEvent::Verdict(true));
    }
    assert_eq!(publication.stage, PublicationStage::StagingDirectory);
    publication
}

fn confirm_again(publication: &mut Publication) {
    for _ in 0..3 {
        publication.advance(PublicationEvent::Verdict(true));
    }
    publication.advance(PublicationEvent::Digest(Some("d".to_owned())));
}

#[test]
fn failed_stagings_are_removed() {
    let mut not_made = publication_with_staging(None);
    not_made.advance(PublicationEvent::Failed);
    assert_eq!(not_made.outcome, Some(Err(())));
    assert!(!not_made.removes_staging());

    let mut not_staged = publication_with_staging(None);
    not_staged.advance(PublicationEvent::StagingMade);
    assert!(!not_staged.removes_staging());
    not_staged.advance(PublicationEvent::Failed);
    assert_eq!(not_staged.outcome, Some(Err(())));
    assert!(not_staged.removes_staging());

    let mut not_confirmed = publication_with_staging(None);
    not_confirmed.advance(PublicationEvent::StagingMade);
    not_confirmed.advance(PublicationEvent::Staged {
        entry_files: 1,
        entry_size: 8,
    });
    not_confirmed.advance(PublicationEvent::Failed);
    assert_eq!(not_confirmed.outcome, Some(Err(())));
    assert!(not_confirmed.removes_staging());
}

#[test]
fn oversized_entries_are_not_published() {
    let mut publication = publication_with_staging(Some(10));
    publication.advance(PublicationEvent::StagingMade);
    publication.advance(PublicationEvent::Staged {
        entry_files: 1,
        entry_size: 11,
    });
    assert_eq!(
        publication.outcome,
        Some(Ok(PublicationOutcome::Skipped(
            PublicationSkipReason::EntryTooLarge
        )))
    );
    assert!(publication.removes_staging());
}

#[test]
fn stored_entries_leave_no_staging() {
    let mut publication = publication_with_staging(Some(10));
    publication.advance(PublicationEvent::StagingMade);
    publication.advance(PublicationEvent::Staged {
        entry_files: 1,
        entry_size: 4,
    });
    confirm_again(&mut publication);
    publication.advance(PublicationEvent::Verdict(true));
    publication.advance(PublicationEvent::Recorded(Some(5)));
    confirm_again(&mut publication);
    publication.advance(PublicationEvent::Absent);
    publication.advance(PublicationEvent::Renamed);
    assert_eq!(publication.cache_size, 9);
    publication.advance(PublicationEvent::Written);
    assert_eq!(
        publication.outcome,
        Some(Ok(PublicationOutcome::Stored))
    );
    assert!(!publication.removes_staging());
    assert!(publication.records_snapshot());
}

#[test]
fn generated_inputs_are_not_published() {
    let mut publication = Publication::new(Some(10));
    publication.advance(PublicationEvent::Support(
        RlibCacheInputSupport::GeneratedBuildInput,
    ));
    assert_eq!(
        publication.outcome,
        Some(Ok(PublicationOutcome::Skipped(
            PublicationSkipReason::GeneratedBuildInput
        )))
    );
    assert!(!publication.records_snapshot());
    let mut failed = Publication::new(None);
    failed.advance(PublicationEvent::Failed);
    assert_eq!(failed.outcome, Some(Err(())));
}

#[test]
fn restores_hit_once_everything_is_confirmed() {
    let mut restoration = Restoration::new(1);
    for event in [
        RestoreEvent::Verdict(true),
        RestoreEvent::Verdict(true),
        RestoreEvent::Verdict(true),
        RestoreEvent::Candidates(2),
        RestoreEvent::Checked(Some(false)),
        RestoreEvent::Checked(Some(true)),
        RestoreEvent::Checked(Some(true)),
        RestoreEvent::Checked(Some(true)),
        RestoreEvent::Materialized(MaterializationKind::Hardlink, 7),
        RestoreEvent::Verdict(true),
        RestoreEvent::Verdict(true),
        RestoreEvent::Verdict(true),
        RestoreEvent::Written,
    ] {
        restoration.advance(event);
    }
    assert_eq!(restoration.stage, RestoreStage::Done);
    assert_eq!(restoration.outcome, Some(Ok(true)));
    assert_eq!(restoration.corrupt, vec![0]);
    assert_eq!(restoration.bytes, 7);
    assert!(restoration.clean_up);
    assert!(!restoration.remove_outputs);
}

#[test]
fn a_changed_compiler_removes_what_was_restored() {
    let mut restoration = Restoration::new(0);
    for event in [
        RestoreEvent::Verdict(true),
        RestoreEvent::Verdict(true),
        RestoreEvent::Verdict(true),
        RestoreEvent::Candidates(1),
        RestoreEvent::Checked(Some(true)),
        RestoreEvent::Checked(Some(true)),
        RestoreEvent::Checked(Some(true)),
        RestoreEvent::Verdict(false),
    ] {
        restoration.advance(event);
    }
    assert_eq!(restoration.outcome, Some(Ok(false)));
    assert!(restoration.remove_outputs);
}

#[test]
fn other_file_systems_are_copied_to() {
    assert_eq!(
        restore_materialization(true, ArtifactCacheMaterialization::Hardlink),
        ArtifactCacheMaterialization::Copy
    );
    assert_eq!(
        restore_materialization(false, ArtifactCacheMaterialization::Hardlink),
        ArtifactCacheMaterialization::Hardlink
    );
    assert_eq!(
        materialize_rlib_cache_file(LinkAttempt::Linked),
        Some(MaterializationKind::Hardlink)
    );
    assert_eq!(
        materialize_rlib_cache_file(LinkAttempt::CrossesDevices),
        Some(MaterializationKind::CrossDeviceCopy)
    );
    assert_eq!(materialize_rlib_cache_file(LinkAttempt::Failed), None);
}
