use artifact_cache::cache_size::artifact_cache_entry_size;
use artifact_cache::cache_size::cleanup_abandoned_rlib_cache_action_transients;
use artifact_cache::cache_size::mark_rlib_cache_size_dirty;
use artifact_cache::cache_size::quarantine_rlib_cache_entry;
use artifact_cache::cache_size::recorded_rlib_cache_size;
use artifact_cache::cache_size::rlib_cache_has_transients;
use artifact_cache::cache_size::rlib_cache_size_within_limit;
use artifact_cache::cache_size::staging_rlib_cache_entry;
use artifact_cache::cache_size::write_rlib_cache_size;
use artifact_cache::cache_size::RootNames;
use artifact_cache::cache_size::SizeError;
use artifact_cache::cache_size::SizedDirectory;
use artifact_cache::cache_size::SizedNode;
use artifact_cache::cache_size::TransientEntry;
use artifact_cache::disk::FileKind;
use artifact_cache::disk::Lookup;
use artifact_cache::disk::Metadata;
use artifact_cache::disk::Timestamp;
use artifact_cache::locking::cleanup_corrupt_rlib_cache_entries;
use artifact_cache::locking::rlib_cache_action_lock_name;
use artifact_cache::locking::try_read_lock_rlib_cache_within_limit;
use artifact_cache::locking::AdmissionEvent;
use artifact_cache::locking::AdmissionStage;
use artifact_cache::locking::LockAttempt;
use artifact_cache::locking::LockOutcome;
use artifact_cache::locking::LockStep;
use artifact_cache::locking::LockWait;
use artifact_cache::locking::SuspectEntry;
use artifact_cache::pruning::prune_rlib_cache_entries_with;
use artifact_cache::pruning::reconcile_rlib_cache_size;
use artifact_cache::pruning::EntryListing;
use artifact_cache::pruning::PruneError;
use artifact_cache::pruning::RootListing;
use artifact_cache::restoration::prepare_materialized_rlib_output_for_write;

#[test]
fn unconfigured_size_limit_is_unbounded() {
    assert!(rlib_cache_size_within_limit(u64::MAX, None));
    assert!(rlib_cache_size_within_limit(10, Some(10)));
    assert!(!rlib_cache_size_within_limit(11, Some(10)));
}

#[test]
fn live_publication_does_not_dirty_committed_size_state() {
    let roots = Some(vec![RootNames {
        is_directory: true,
        names: Some(vec![b".entry.staging-v8-active".to_vec()]),
    }]);
    let state = write_rlib_cache_size(rlib_cache_has_transients(&roots), 42);
    assert_eq!(recorded_rlib_cache_size(Some(&state)), Some(42));
}

#[test]
fn rejected_entries_dirty_the_size_state() {
    let name = quarantine_rlib_cache_entry("entry", 12, 3);
    let roots = Some(vec![RootNames {
        is_directory: true,
        names: Some(vec![name.into_bytes()]),
    }]);
    assert!(rlib_cache_has_transients(&roots));
    assert!(rlib_cache_has_transients(&None));
    let state = write_rlib_cache_size(true, 42);
    assert_eq!(state, "dirty\n");
    assert_eq!(recorded_rlib_cache_size(Some(&state)), None);
    assert_eq!(mark_rlib_cache_size_dirty(), "dirty\n");
}

#[test]
fn staging_names_are_invisible_to_legacy_publication_cleanup() {
    let name = staging_rlib_cache_entry("entry", 12, 3);
    assert!(name.contains(".staging-v8-"));
    assert!(!name.contains(".publishing-"));
}

#[test]
fn abandoned_directories_are_removed() {
    let entries = vec![
        TransientEntry {
            name: b"entry".to_vec(),
            is_directory: true,
        },
        TransientEntry {
            name: staging_rlib_cache_entry("entry", 12, 3).into_bytes(),
            is_directory: true,
        },
        TransientEntry {
            name: b".entry.publishing-1-2".to_vec(),
            is_directory: true,
        },
        TransientEntry {
            name: b".entry.publishing-1-2".to_vec(),
            is_directory: false,
        },
    ];
    assert_eq!(
        cleanup_abandoned_rlib_cache_action_transients(&entries),
        vec![1, 2]
    );
}

#[test]
fn sizes_are_recorded_as_numbers() {
    assert_eq!(write_rlib_cache_size(false, 1234), "v2 1234\n");
    assert_eq!(recorded_rlib_cache_size(Some("v1 1234\n")), None);
    assert_eq!(recorded_rlib_cache_size(Some("v2 18446744073709551616")), None);
    assert_eq!(recorded_rlib_cache_size(None), None);
}

#[test]
fn action_lock_shards_distinguish_one_byte_hash_collisions() {
    let mut by_first_byte = std::collections::HashMap::new();
    for index in 0..10_000 {
        let lock_name = rlib_cache_action_lock_name(format!("/t/action-{index}").as_bytes());
        let shard = lock_name
            .strip_prefix(".cargo-artifact-cache-publish-lock")
            .unwrap()
            .strip_prefix('-')
            .unwrap()
            .to_owned();
        assert_eq!(shard.len(), 6);
        let first_byte = shard[..2].to_owned();
        if let Some(previous) = by_first_byte.insert(first_byte, lock_name.clone()) {
            if previous != lock_name {
                return;
            }
        }
    }
    panic!("failed to construct a one-byte action-lock hash collision");
}

#[test]
fn process_cache_lock_attempts_respect_expired_deadlines() {
    let mut wait = LockWait::new();
    assert_eq!(wait.step(LockAttempt::WouldBlock, false), LockStep::GiveUp);
    assert_eq!(wait.delay, 1);
}

#[test]
fn pauses_between_attempts_double_up_to_a_limit() {
    let mut wait = LockWait::new();
    let mut delays = Vec::new();
    for _ in 0..7 {
        if let LockStep::Retry(delay) = wait.step(LockAttempt::WouldBlock, true) {
            delays.push(delay);
        }
    }
    assert_eq!(delays, vec![1, 2, 4, 8, 16, 32, 32]);
    assert_eq!(wait.step(LockAttempt::Poisoned, false), LockStep::Hold);
    assert_eq!(wait.step(LockAttempt::Unsupported, true), LockStep::GiveUp);
    assert_eq!(wait.step(LockAttempt::Failed, true), LockStep::Fail);
}

fn entry(path: &str, size: u64, seconds: i64) -> EntryListing {
    EntryListing {
        path: path.as_bytes().to_vec(),
        kind: Lookup::Found(FileKind::Directory),
        complete: true,
        directory: SizedDirectory {
            nodes: Lookup::Found(vec![SizedNode::File(size)]),
        },
        modified: Some(Timestamp {
            seconds,
            nanoseconds: 0,
        }),
    }
}

fn root(entries: Vec<EntryListing>) -> RootListing {
    RootListing {
        name: b"action".to_vec(),
        kind: Lookup::Found(FileKind::Directory),
        entries: Some(entries),
    }
}

#[test]
fn pruning_does_not_remove_an_action_root_held_by_a_publisher() {
    let roots = vec![root(vec![entry("/cache/action/entry", 8, 1)])];
    assert_eq!(
        prune_rlib_cache_entries_with(&roots, Some(0), None, &vec![true]),
        Ok(0)
    );
}

#[test]
fn eviction_failure_does_not_report_oversized_cache_as_reconciled() {
    let roots = vec![root(vec![entry("/cache/action/entry", 8, 1)])];
    let error = prune_rlib_cache_entries_with(&roots, Some(0), None, &vec![false]);
    assert_eq!(error, Err(PruneError::EvictionFailed));
    assert_eq!(reconcile_rlib_cache_size(error, false), "dirty\n");
}

#[test]
fn the_oldest_entries_are_evicted_first() {
    let roots = vec![root(vec![
        entry("/cache/action/new", 5, 20),
        entry("/cache/action/old", 4, 10),
    ])];
    assert_eq!(
        prune_rlib_cache_entries_with(&roots, Some(6), None, &vec![true]),
        Ok(5)
    );
    assert_eq!(
        prune_rlib_cache_entries_with(
            &roots,
            Some(6),
            Some(b"/cache/action/old".to_vec()),
            &vec![true, true]
        ),
        Ok(4)
    );
    assert_eq!(
        prune_rlib_cache_entries_with(&roots, None, None, &Vec::new()),
        Ok(9)
    );
    assert_eq!(reconcile_rlib_cache_size(Ok(5), false), "v2 5\n");
}

#[test]
fn entry_size_rejects_symlink_cycles() {
    let directory = SizedDirectory {
        nodes: Lookup::Found(vec![SizedNode::File(8), SizedNode::Symlink]),
    };
    assert_eq!(
        artifact_cache_entry_size(&directory),
        Err(SizeError::ContainsSymlink)
    );
}

#[test]
fn output_preparation_ignores_directories() {
    let metadata = |kind: FileKind, links: u64| {
        Lookup::Found(Metadata {
            kind,
            len: 0,
            modified: None,
            device: 1,
            inode: 2,
            links,
            mode: 0o755,
            changed_seconds: 0,
            changed_nanoseconds: 0,
        })
    };
    assert!(!prepare_materialized_rlib_output_for_write(
        &metadata(FileKind::Directory, 3),
        true
    ));
    assert!(prepare_materialized_rlib_output_for_write(
        &metadata(FileKind::File, 2),
        true
    ));
    assert!(!prepare_materialized_rlib_output_for_write(
        &metadata(FileKind::File, 1),
        true
    ));
}

#[test]
fn restores_are_admitted_within_the_limit() {
    let run = |events: &[AdmissionEvent], max_size: Option<u64>| {
        let mut stage = AdmissionStage::Locking;
        for event in events {
            stage = try_read_lock_rlib_cache_within_limit(stage, *event, max_size);
        }
        stage
    };
    let held = AdmissionEvent::Locked(LockOutcome::Held);
    assert_eq!(run(&[held], None), AdmissionStage::Admitted);
    assert_eq!(
        run(&[held, AdmissionEvent::Sized(Some(10))], Some(10)),
        AdmissionStage::Admitted
    );
    assert_eq!(
        run(
            &[
                held,
                AdmissionEvent::Sized(None),
                held,
                AdmissionEvent::Sized(Some(11)),
                AdmissionEvent::Reconciled(true),
                held,
                AdmissionEvent::Sized(Some(9)),
            ],
            Some(10)
        ),
        AdmissionStage::Admitted
    );
    assert_eq!(
        run(
            &[AdmissionEvent::Locked(LockOutcome::NotHeld)],
            Some(10)
        ),
        AdmissionStage::Refused
    );
    assert_eq!(
        run(&[AdmissionEvent::Locked(LockOutcome::Failed)], None),
        AdmissionStage::Failed
    );
}

#[test]
fn corrupt_entries_are_looked_at_again_under_the_lock() {
    let corrupt = SuspectEntry {
        verified: false,
        marked: true,
        quarantined: true,
    };
    let repaired = SuspectEntry {
        verified: true,
        marked: true,
        quarantined: true,
    };
    assert!(cleanup_corrupt_rlib_cache_entries(
        true,
        &vec![repaired, corrupt]
    ));
    assert!(!cleanup_corrupt_rlib_cache_entries(true, &vec![repaired]));
    assert!(!cleanup_corrupt_rlib_cache_entries(false, &vec![corrupt]));
}
