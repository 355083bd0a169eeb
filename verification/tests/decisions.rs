use artifact_cache::action::confirm_prepared_action;
use artifact_cache::cache_key::artifact_cache_command_digest;
use artifact_cache::command::Command;
use artifact_cache::disk::FileKind;
use artifact_cache::disk::Lookup;
use artifact_cache::disk::Metadata;
use artifact_cache::disk::Timestamp;
use artifact_cache::invocation::rustdoc_dep_info_loc;
use artifact_cache::invocation::should_include_scrape_units;
use artifact_cache::job::artifact_cache_freshness_stamp;
use artifact_cache::job::hides_scrape_diagnostics;
use artifact_cache::job::is_primary_link;
use artifact_cache::job::passes_native_libraries;
use artifact_cache::job::preflight_state;
use artifact_cache::job::stale_documentation;
use artifact_cache::job::takes_exclusive_lock;
use artifact_cache::job::JobKind;
use artifact_cache::job::TargetFacts;
use artifact_cache::locking::lock_path_is_usable;
use artifact_cache::preflight::artifact_cache_preflight_applies;
use artifact_cache::preflight::PreflightState;
use artifact_cache::publication::create_rlib_cache_directory_no_follow;
use artifact_cache::publication::Publication;
use artifact_cache::restoration::first_materialization_step;
use artifact_cache::restoration::is_restore_candidate;
use artifact_cache::restoration::translate_dep_info;
use artifact_cache::restoration::ArtifactCacheMaterialization;
use artifact_cache::restoration::MaterializationStep;
use artifact_cache::rustc_info::parse_verbose_version;
use artifact_cache::rustc_info::Rustc;
use artifact_cache::sld::isolate_sld_native_incremental_artifact;
use artifact_cache::sld::sld_native_incremental_artifact_has_multiple_links;
use artifact_cache::sld::sld_native_incremental_artifact_is_regular_file;
use artifact_cache::sld::sld_native_incremental_requested;
use artifact_cache::sld::sld_native_incremental_rlib_producer;
use artifact_cache::sld::sld_native_incremental_root_variable;
use artifact_cache::sld::SldArtifactError;
use artifact_cache::snapshot_restore::DirectoryCreation;
use artifact_cache::stats::ArtifactCacheStats;
use artifact_cache::stats::RestorePhase;
use artifact_cache::unit::CompileMode;
use artifact_cache::work_product::path_with_extension;

fn metadata(kind: FileKind, links: u64) -> Metadata {
    Metadata {
        kind,
        len: 3,
        modified: Some(Timestamp {
            seconds: 1,
            nanoseconds: 2,
        }),
        device: 4,
        inode: 5,
        links,
        mode: 0o644,
        changed_seconds: 6,
        changed_nanoseconds: 7,
    }
}

const LIBRARY: TargetFacts = TargetFacts {
    is_lib: true,
    is_executable: false,
    is_dylib: false,
    is_cdylib: false,
    is_staticlib: false,
    is_proc_macro: false,
};

#[test]
fn only_compilations_take_exclusive_locks() {
    assert!(takes_exclusive_lock(JobKind::Rustc, true));
    assert!(takes_exclusive_lock(JobKind::Rustdoc, true));
    assert!(!takes_exclusive_lock(JobKind::Replay, true));
    assert!(!takes_exclusive_lock(JobKind::Rustc, false));
}

#[test]
fn links_of_the_primary_package_are_counted() {
    let program = TargetFacts {
        is_lib: false,
        is_executable: true,
        ..LIBRARY
    };
    assert!(is_primary_link(true, true, CompileMode::Build, program));
    assert!(is_primary_link(true, true, CompileMode::Test, LIBRARY));
    assert!(!is_primary_link(true, true, CompileMode::Build, LIBRARY));
    assert!(!is_primary_link(true, false, CompileMode::Build, program));
    assert!(!is_primary_link(false, true, CompileMode::Build, program));
    assert!(passes_native_libraries(program, false));
    assert!(!passes_native_libraries(program, true));
    assert!(passes_native_libraries(LIBRARY, true));
}

#[test]
fn jobs_that_could_be_cached_are_stamped() {
    let stamp = |mode: CompileMode, target: TargetFacts, sbom_files: usize| {
        artifact_cache_freshness_stamp(true, true, target, mode, sbom_files)
    };
    assert!(stamp(CompileMode::Build, LIBRARY, 0));
    assert!(stamp(CompileMode::Check { test: false }, LIBRARY, 0));
    assert!(!stamp(CompileMode::Check { test: true }, LIBRARY, 0));
    assert!(!stamp(CompileMode::Build, LIBRARY, 1));
    assert!(!stamp(
        CompileMode::Build,
        TargetFacts {
            is_proc_macro: true,
            ..LIBRARY
        },
        0
    ));
    assert_eq!(
        preflight_state(true, Some(PreflightState::Miss)),
        Some(PreflightState::Bypassed)
    );
    assert_eq!(
        preflight_state(false, Some(PreflightState::Miss)),
        Some(PreflightState::Miss)
    );
    assert!(artifact_cache_preflight_applies(true, true, false, false));
    assert!(!artifact_cache_preflight_applies(true, true, true, false));
    assert!(!artifact_cache_preflight_applies(true, true, false, true));
}

#[test]
fn documentation_is_written_anew() {
    assert_eq!(
        stale_documentation(false, b"/doc", "demo"),
        Some(b"/doc/demo".to_vec())
    );
    assert_eq!(stale_documentation(true, b"/doc", "demo"), None);
    assert!(hides_scrape_diagnostics(true, false));
    assert!(!hides_scrape_diagnostics(true, true));
    assert!(should_include_scrape_units(CompileMode::Doc, 1, true));
    assert!(!should_include_scrape_units(CompileMode::Docscrape, 1, true));
    assert!(!should_include_scrape_units(CompileMode::Doc, 0, true));
}

#[test]
fn changed_invocations_are_not_published() {
    let mut plain = Command::new("rustc");
    plain.arg("--crate-name");
    plain.env("LD_LIBRARY_PATH", b"/t/deps:/opt/lib");
    let digest = artifact_cache_command_digest(&plain);
    let mut running = Command::new("rustc");
    running.arg("--crate-name");
    running.env("LD_LIBRARY_PATH", b"/t/deps:/opt/lib");
    assert!(confirm_prepared_action(&running, &digest));
    let mut changed = Command::new("rustc");
    changed.arg("--crate-type");
    changed.env("LD_LIBRARY_PATH", b"/t/deps:/opt/lib");
    assert!(!confirm_prepared_action(&changed, &digest));
    running.env("LD_LIBRARY_PATH", b"/opt/lib");
    assert!(!confirm_prepared_action(&running, &digest));
}

#[test]
fn action_roots_are_directories() {
    let missing = Lookup::Missing;
    assert_eq!(
        create_rlib_cache_directory_no_follow(&missing, DirectoryCreation::Made),
        Ok(true)
    );
    assert_eq!(
        create_rlib_cache_directory_no_follow(
            &missing,
            DirectoryCreation::Exists(Some(FileKind::Symlink))
        ),
        Ok(false)
    );
    assert_eq!(
        create_rlib_cache_directory_no_follow(&missing, DirectoryCreation::Failed),
        Err(())
    );
    assert_eq!(
        create_rlib_cache_directory_no_follow(
            &Lookup::Found(metadata(FileKind::Symlink, 1)),
            DirectoryCreation::Failed
        ),
        Ok(false)
    );
}

#[test]
fn extensions_are_replaced() {
    assert_eq!(rustdoc_dep_info_loc(b"/fp/doc-lib-demo"), b"/fp/doc-lib-demo.d".to_vec());
    assert_eq!(path_with_extension(b"/a/b.tar.gz", b"d"), b"/a/b.tar.d".to_vec());
    assert_eq!(path_with_extension(b"/a/.hidden", b"d"), b"/a/.hidden.d".to_vec());
    assert_eq!(path_with_extension(b"/", b"d"), b"/".to_vec());
}

#[test]
fn links_are_not_locked() {
    assert!(!lock_path_is_usable(&Lookup::Found(metadata(
        FileKind::Symlink,
        1
    ))));
    assert!(lock_path_is_usable(&Lookup::Found(metadata(
        FileKind::File,
        1
    ))));
    assert!(lock_path_is_usable(&Lookup::Missing));
}

#[test]
fn new_publications_have_nothing_staged() {
    assert!(!Publication::new(None).removes_staging());
}

#[test]
fn cached_files_are_put_in_place_as_configured() {
    assert_eq!(
        first_materialization_step(ArtifactCacheMaterialization::Hardlink, true),
        MaterializationStep::Link
    );
    assert_eq!(
        first_materialization_step(ArtifactCacheMaterialization::Hardlink, false),
        MaterializationStep::CopyOver
    );
    assert_eq!(
        first_materialization_step(ArtifactCacheMaterialization::Copy, true),
        MaterializationStep::ReplaceByCopy
    );
    assert!(is_restore_candidate(true, b"/cache/action/entry", true));
    assert!(!is_restore_candidate(true, b"/cache/action/.entry", true));
    assert!(!is_restore_candidate(true, b"/cache/action/entry", false));
}

#[test]
fn reported_inputs_follow_the_directories() {
    assert_eq!(
        translate_dep_info(
            "/old/target/debug/deps/x.d: /old/pkg/src/lib.rs\n",
            "/old/pkg\n",
            "/old/target/debug\n",
            b"/new/pkg",
            b"/new/target/debug/deps",
        ),
        "/new/target/debug/deps/x.d: /new/pkg/src/lib.rs\n"
    );
    assert_eq!(
        translate_dep_info("/p/a.rs", "/p", "/q", b"/\xff", b"/o/deps"),
        "/\u{fffd}/a.rs"
    );
}

#[test]
fn wrappers_stand_around_the_compiler() {
    let rustc = Rustc {
        path: b"/bin/rustc".to_vec(),
        wrapper: Some(b"/w".to_vec()),
        workspace_wrapper: Some(b"/ws".to_vec()),
        verbose_version: String::new(),
        info: parse_verbose_version("host: h\nrelease: 1.2.3").ok().unwrap(),
    };
    assert_eq!(rustc.process().get_program(), b"/w");
    assert_eq!(rustc.process().get_args(), vec![b"/bin/rustc".to_vec()]);
    assert_eq!(rustc.workspace_process().get_program(), b"/w");
    assert_eq!(
        rustc.workspace_process().get_args(),
        vec![b"/ws".to_vec(), b"/bin/rustc".to_vec()]
    );
    assert_eq!(rustc.process_no_wrapper().get_program(), b"/bin/rustc");
    assert!(rustc.process_no_wrapper().get_args().is_empty());
    assert!(rustc.process().retry_with_argfile);
    let unwrapped = Rustc {
        wrapper: Some(Vec::new()),
        ..rustc
    };
    assert_eq!(unwrapped.process().get_program(), b"/bin/rustc");
}

#[test]
fn incremental_linking_is_for_one_platform() {
    assert!(sld_native_incremental_requested(true, "aarch64-apple-darwin"));
    assert!(!sld_native_incremental_requested(false, "aarch64-apple-darwin"));
    assert!(!sld_native_incremental_requested(true, "x86_64-unknown-linux-gnu"));
    assert!(sld_native_incremental_rlib_producer(
        true,
        "aarch64-apple-darwin",
        CompileMode::Build,
        false
    ));
    assert!(!sld_native_incremental_rlib_producer(
        true,
        "aarch64-apple-darwin",
        CompileMode::Build,
        true
    ));
    assert_eq!(
        sld_native_incremental_root_variable(&Some(b"1".to_vec()), &Some(b"2".to_vec())),
        Some(b"1".to_vec())
    );
    assert_eq!(
        sld_native_incremental_root_variable(&None, &Some(b"2".to_vec())),
        Some(b"2".to_vec())
    );
}

#[test]
fn shared_outputs_are_isolated() {
    let shared = Lookup::Found(metadata(FileKind::File, 2));
    assert_eq!(
        sld_native_incremental_artifact_has_multiple_links(&shared, true),
        Ok(true)
    );
    assert_eq!(
        sld_native_incremental_artifact_has_multiple_links(&shared, false),
        Ok(false)
    );
    assert_eq!(
        sld_native_incremental_artifact_has_multiple_links(&Lookup::Missing, true),
        Err(SldArtifactError::Uninspectable)
    );
    assert_eq!(
        sld_native_incremental_artifact_is_regular_file(&shared),
        Ok(true)
    );
    assert_eq!(
        isolate_sld_native_incremental_artifact(b"/out/demo"),
        Ok(b"/out".to_vec())
    );
    assert_eq!(
        isolate_sld_native_incremental_artifact(b"/"),
        Err(SldArtifactError::NoParent)
    );
}

#[test]
fn what_a_build_does_is_counted() {
    let mut stats = ArtifactCacheStats::default();
    stats.preflight_finished(1);
    stats.restore_phase(RestorePhase::EntryValidation, 2);
    stats.materialization_finished(3);
    stats.action_hash(4, true);
    stats.publication_attempt();
    stats.publication_finished(Ok(true), 5);
    stats.publication_finished(Ok(false), u128::MAX);
    stats.publication_finished(Err(()), 1);
    stats.rustc_finished(6, true, true);
    stats.rustc_finished(7, false, false);
    stats.build_script_finished(8, false);
    stats.snapshot_restore_finished(Ok((1, 2, 3, 4)), 9);
    stats.snapshot_restore_finished(Err(()), 1);
    stats.snapshot_manifest_finished(Ok((5, 6)), 10);
    assert_eq!(stats.preflight_elapsed_us, 1);
    assert_eq!(
        stats.restore_phase_elapsed_us[RestorePhase::EntryValidation.index()],
        2
    );
    assert_eq!(stats.materialization_elapsed_us, 3);
    assert_eq!((stats.action_hash_calls, stats.action_hash_failures), (1, 1));
    assert_eq!(stats.action_hash_wall_us, 4);
    assert_eq!(stats.publication_attempts, 1);
    assert_eq!(
        (
            stats.publication_stored,
            stats.publication_skipped,
            stats.publication_failures
        ),
        (1, 1, 1)
    );
    assert_eq!(stats.publication_elapsed_us, 5);
    assert_eq!((stats.rustc_executions, stats.rustc_failures), (2, 1));
    assert_eq!(stats.primary_link_rustc_elapsed_us, 6);
    assert_eq!(stats.build_script_elapsed_us, 8);
    assert_eq!(
        (
            stats.snapshot_restore_files,
            stats.snapshot_restore_bytes,
            stats.snapshot_restore_existing_files,
            stats.snapshot_restore_existing_bytes,
            stats.snapshot_restore_failures
        ),
        (1, 2, 3, 4, 1)
    );
    assert_eq!(
        (stats.snapshot_manifest_files, stats.snapshot_manifest_bytes),
        (5, 6)
    );
}
