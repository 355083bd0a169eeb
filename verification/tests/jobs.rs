use artifact_cache::action::record_description;
use artifact_cache::action::restore_artifact_cache_action;
use artifact_cache::action::ArtifactCacheActionBuilder;
use artifact_cache::action::CandidateFacts;
use artifact_cache::action::Dismissal;
use artifact_cache::action::Rejection;
use artifact_cache::action::UnitFacts;
use artifact_cache::action_tree::ActionInputs;
use artifact_cache::base_arguments::DebugInfo;
use artifact_cache::cache_key::cache_entry_root;
use artifact_cache::cache_key::KeyInputs;
use artifact_cache::command::Command;
use artifact_cache::dependency_arguments::SearchFacts;
use artifact_cache::compiler_identity::ArtifactCacheIdentityWitness;
use artifact_cache::disk::Disk;
use artifact_cache::installation::ArtifactCacheIdentity;
use artifact_cache::invocation::TargetDescription;
use artifact_cache::job::action_source;
use artifact_cache::job::artifact_debuginfo;
use artifact_cache::job::complete_rustc;
use artifact_cache::job::complete_rustdoc;
use artifact_cache::job::finish_rustc_target_state;
use artifact_cache::job::job_kind;
use artifact_cache::job::link_targets;
use artifact_cache::job::old_output;
use artifact_cache::job::stale_library_path;
use artifact_cache::job::ActionSource;
use artifact_cache::job::ArtifactDebuginfo;
use artifact_cache::job::FinishStep;
use artifact_cache::job::JobKind;
use artifact_cache::job::OldOutput;
use artifact_cache::job::ScrapeOutput;
use artifact_cache::job::ScriptFacts;
use artifact_cache::job::SldFacts;
use artifact_cache::loader_inputs::Host;
use artifact_cache::manifest_spans::CfgValue;
use artifact_cache::manifest_spans::DependencySpan;
use artifact_cache::manifest_spans::ManifestErrorContext;
use artifact_cache::manifest_spans::ManifestSpans;
use artifact_cache::manifest_spans::NamedDependency;
use artifact_cache::manifest_spans::PlatformTable;
use artifact_cache::manifest_spans::Span;
use artifact_cache::messages::cached_line;
use artifact_cache::messages::compile_failure;
use artifact_cache::messages::hides_details;
use artifact_cache::messages::may_be_message;
use artifact_cache::messages::note_for_line;
use artifact_cache::messages::on_stderr_line_inner;
use artifact_cache::messages::pub_in_priv_note;
use artifact_cache::messages::replayed_line;
use artifact_cache::messages::Action;
use artifact_cache::messages::Applicability;
use artifact_cache::messages::CompilerMessage;
use artifact_cache::messages::Diagnostic;
use artifact_cache::messages::MessageFormat;
use artifact_cache::messages::OutputOptions;
use artifact_cache::outputs::FileFlavor;
use artifact_cache::outputs::OutputFile;
use artifact_cache::preflight::artifact_cache_freshness_preflight;
use artifact_cache::preflight::artifact_cache_freshness_preflight_candidates;
use artifact_cache::preflight::artifact_cache_freshness_preflight_restore;
use artifact_cache::preflight::PreflightOutcome;
use artifact_cache::preflight::PreflightState;
use artifact_cache::preflight::PreflightUnit;
use artifact_cache::preflight::RestoreOutcome;
use artifact_cache::preflight::RestoreSteps;
use artifact_cache::preflight::Unsettled;
use artifact_cache::remap::PackageSource;
use artifact_cache::remap::RemapFacts;
use artifact_cache::rustc_info::artifact_cache_identity_program;
use artifact_cache::rustc_info::parse_verbose_version;
use artifact_cache::rustc_info::rustup_fingerprint;
use artifact_cache::rustc_info::Cache;
use artifact_cache::rustc_info::IdentityProgram;
use artifact_cache::rustc_info::RustupFingerprint;
use artifact_cache::rustc_info::VersionError;
use artifact_cache::rustc_job::JobEvent;
use artifact_cache::rustc_job::JobStage;
use artifact_cache::rustc_job::RustcJob;
use artifact_cache::rustdoc_job::document_failure;
use artifact_cache::rustdoc_job::DocumentingEvent;
use artifact_cache::rustdoc_job::DocumentingStage;
use artifact_cache::rustdoc_job::RustdocJob;
use artifact_cache::schedule::compile;
use artifact_cache::stats::ArtifactCacheStats;
use artifact_cache::stats::IneligibleReason;
use artifact_cache::stats::MaterializationKind;
use artifact_cache::stats::MaterializationTotals;
use artifact_cache::unit::CompileMode;
use artifact_cache::unit::DefaultExecutor;
use artifact_cache::unit::Executor;

fn unit(dependencies: &[usize]) -> PreflightUnit {
    PreflightUnit {
        dependencies: dependencies.to_vec(),
        mode: CompileMode::Build,
        is_bin: false,
        is_lib: true,
        is_proc_macro: false,
        is_artifact: false,
        skip_non_compile_time_dep: false,
        has_custom_build: false,
        has_build_script_inputs: false,
        sbom_files: Some(0),
        force_rebuild: false,
        fresh: Some(false),
        restore: RestoreOutcome::Committed,
    }
}

#[test]
fn candidates_follow_their_dependencies() {
    let mut units = vec![unit(&[1, 2]), unit(&[3]), unit(&[3]), unit(&[]), unit(&[])];
    assert_eq!(
        artifact_cache_freshness_preflight_candidates(&units, &vec![0]),
        Ok(vec![3, 1, 2, 0])
    );
    units[1].is_proc_macro = true;
    assert_eq!(
        artifact_cache_freshness_preflight_candidates(&units, &vec![0]),
        Ok(vec![3, 2, 0])
    );
    units[2].sbom_files = None;
    assert!(artifact_cache_freshness_preflight_candidates(&units, &vec![0]).is_err());
}

#[test]
fn a_miss_blocks_the_units_above_it() {
    let mut units = vec![unit(&[1, 2]), unit(&[3]), unit(&[]), unit(&[])];
    units[3].restore = RestoreOutcome::Miss;
    units[2].fresh = Some(true);
    let outcomes = artifact_cache_freshness_preflight(&units, &vec![3, 1, 2, 0]).unwrap();
    assert_eq!(
        outcomes,
        vec![
            Some(PreflightOutcome::Blocked),
            Some(PreflightOutcome::Blocked),
            Some(PreflightOutcome::AlreadyFresh),
            Some(PreflightOutcome::Miss),
        ]
    );
    assert_eq!(
        PreflightOutcome::Miss.state(),
        Some(PreflightState::Miss)
    );
    let mut stats = ArtifactCacheStats::default();
    for outcome in outcomes.into_iter().flatten() {
        outcome.record(&mut stats);
    }
    assert_eq!(stats.preflight_blocked_by_dependency, 2);
    assert_eq!(stats.preflight_already_fresh, 1);
    assert_eq!(stats.preflight_attempted, 1);
}

#[test]
fn units_are_asked_for_in_order() {
    let mut units = vec![unit(&[1]), unit(&[])];
    for unit in &mut units {
        unit.fresh = None;
        unit.restore = RestoreOutcome::Failed;
    }
    let candidates = vec![1, 0];
    let next = |units: &Vec<PreflightUnit>| artifact_cache_freshness_preflight(units, &candidates);
    assert_eq!(next(&units), Err(Unsettled { unit: 1 }));
    units[1].fresh = Some(false);
    assert_eq!(next(&units), Err(Unsettled { unit: 1 }));
    units[1].restore = RestoreOutcome::Committed;
    assert_eq!(next(&units), Err(Unsettled { unit: 0 }));
    units[1].restore = RestoreOutcome::Miss;
    assert_eq!(
        next(&units),
        Ok(vec![
            Some(PreflightOutcome::Blocked),
            Some(PreflightOutcome::Miss)
        ])
    );
}

#[test]
fn restores_before_scheduling_end_in_one_way() {
    let steps = RestoreSteps {
        prepared: true,
        described: Some(true),
        hit: true,
        finished: true,
        committed: Some(true),
    };
    let outcome = artifact_cache_freshness_preflight_restore;
    assert_eq!(outcome(steps), RestoreOutcome::Committed);
    assert_eq!(
        outcome(RestoreSteps {
            committed: Some(false),
            ..steps
        }),
        RestoreOutcome::NotCommitted
    );
    assert_eq!(
        outcome(RestoreSteps {
            hit: false,
            finished: false,
            committed: None,
            ..steps
        }),
        RestoreOutcome::Miss
    );
    assert_eq!(
        outcome(RestoreSteps {
            described: Some(false),
            hit: false,
            ..steps
        }),
        RestoreOutcome::NoAction
    );
    assert_eq!(
        outcome(RestoreSteps {
            described: None,
            ..steps
        }),
        RestoreOutcome::Failed
    );
}

#[test]
fn programs_do_not_block_what_depends_on_them() {
    let mut units = vec![unit(&[1]), unit(&[])];
    units[1].is_bin = true;
    units[1].is_lib = false;
    assert_eq!(
        artifact_cache_freshness_preflight(&units, &vec![0]).unwrap(),
        vec![Some(PreflightOutcome::Restored), None]
    );
    units[0].force_rebuild = true;
    assert_eq!(
        artifact_cache_freshness_preflight(&units, &vec![0]).unwrap()[0],
        Some(PreflightOutcome::Forced)
    );
}

#[test]
fn units_are_queued_once() {
    let edges = vec![vec![1, 2], vec![3], vec![3, 0], Vec::new()];
    let mut entered = vec![false; 4];
    let mut jobs = Vec::new();
    compile(
        &edges,
        &vec![false, false, true, false],
        0,
        &mut entered,
        &mut jobs,
        4,
    );
    assert_eq!(jobs, vec![0, 1, 3]);
    assert_eq!(entered, vec![true; 4]);
}

#[test]
fn jobs_do_what_their_mode_asks_for() {
    assert_eq!(job_kind(CompileMode::Build, true), JobKind::Rustc);
    assert_eq!(job_kind(CompileMode::Doc, true), JobKind::Rustdoc);
    assert_eq!(job_kind(CompileMode::Doc, false), JobKind::Replay);
    assert_eq!(job_kind(CompileMode::Doctest, true), JobKind::Nothing);
    assert_eq!(
        job_kind(CompileMode::RunCustomBuild, true),
        JobKind::RunCustomBuild
    );
    assert!(DefaultExecutor.artifact_cache_compatible());
}

fn run(source: ActionSource, events: &[JobEvent]) -> RustcJob {
    let mut job = RustcJob::new(source);
    for event in events {
        job.advance(*event);
    }
    job
}

#[test]
fn a_hit_is_replayed_and_a_miss_is_compiled_and_published() {
    let done = JobEvent::Stepped(true);
    let hit = run(
        ActionSource::Described,
        &[
            done,
            done,
            JobEvent::Described(Some(true)),
            JobEvent::Restored(true),
            done,
            done,
        ],
    );
    assert_eq!(hit.stage, JobStage::Done);
    assert!(hit.cache_hit && !hit.compiled);

    let miss = run(
        ActionSource::Described,
        &[
            done,
            done,
            JobEvent::Described(Some(true)),
            JobEvent::Restored(false),
            done,
            done,
            done,
        ],
    );
    assert_eq!(miss.stage, JobStage::Publishing);

    let bypassed = run(ActionSource::Absent, &[done, done, done, done, done]);
    assert_eq!(bypassed.stage, JobStage::Done);
    assert!(bypassed.compiled);

    let failed = run(ActionSource::Absent, &[done, JobEvent::Stepped(false)]);
    assert_eq!(failed.stage, JobStage::Failed);
    assert_eq!(
        action_source(Some(PreflightState::Miss), false),
        ActionSource::Changed
    );
    assert_eq!(
        action_source(Some(PreflightState::Miss), true),
        ActionSource::Prepared
    );
    assert_eq!(action_source(None, false), ActionSource::Described);
}

fn executable() -> OutputFile {
    OutputFile {
        path: b"/ws/target/debug/deps/demo-12".to_vec(),
        hardlink: Some(b"/ws/target/debug/demo".to_vec()),
        export_path: Some(b"/out/demo".to_vec()),
        flavor: FileFlavor::Normal,
    }
}

#[test]
fn outputs_are_linked_where_users_look_for_them() {
    let library = OutputFile {
        path: b"/ws/target/debug/deps/libdemo.rlib".to_vec(),
        hardlink: None,
        export_path: None,
        flavor: FileFlavor::Linkable,
    };
    let (steps, places) = link_targets(
        &vec![executable(), library, executable()],
        &vec![true, true, false],
        true,
    );
    assert_eq!(
        places,
        vec![
            b"/ws/target/debug/demo".to_vec(),
            b"/ws/target/debug/deps/libdemo.rlib".to_vec()
        ]
    );
    assert_eq!(steps.len(), 2);
    assert!(steps[0].copied && !steps[0].is_export);
    assert_eq!(steps[1].to, b"/out/demo".to_vec());
    assert!(steps[1].is_export);
}

#[test]
fn old_outputs_make_way() {
    assert_eq!(
        old_output(&executable(), false, true, true, true),
        OldOutput::TryRemove
    );
    assert_eq!(
        old_output(&executable(), true, true, true, true),
        OldOutput::Isolate
    );
    assert_eq!(
        old_output(&executable(), true, true, false, false),
        OldOutput::Remove
    );
    assert_eq!(
        old_output(&executable(), true, false, false, false),
        OldOutput::Keep
    );
    assert_eq!(
        stale_library_path(b"/ws/deps", b"/ws/deps/libdemo-1.2.rmeta"),
        Some(b"/ws/deps/libdemo-1.2.rlib".to_vec())
    );
    assert_eq!(stale_library_path(b"/ws/deps", b"/ws/deps/demo"), None);
}

#[test]
fn finished_checks_are_dated_back_and_stamped() {
    let steps = finish_rustc_target_state(
        true,
        CompileMode::Check { test: false },
        &vec![executable()],
        b"/fp",
        false,
        true,
    );
    assert_eq!(steps.len(), 3);
    assert!(matches!(steps[0], FinishStep::TranslateDepInfo));
    match &steps[1] {
        FinishStep::Touch(path) => assert_eq!(path, &executable().path),
        _ => panic!("not dated back"),
    }
    match &steps[2] {
        FinishStep::Stamp(path) => {
            assert_eq!(path, b"/fp/artifact-cache-complete.timestamp");
        }
        _ => panic!("not stamped"),
    }
    assert_eq!(
        artifact_debuginfo(DebugInfo::Limited),
        ArtifactDebuginfo::Int(1)
    );
}

#[test]
fn invocations_are_completed_with_what_scripts_printed() {
    let mut rustc = Command::new("rustc");
    let facts = ScriptFacts {
        to_link: Some(Vec::new()),
        plugins: Vec::new(),
        own: Vec::new(),
        pass_l_flag: true,
        root_output: Some(b"/ws/target".to_vec()),
        library_variable: "LD_LIBRARY_PATH".to_owned(),
    };
    let sld = SldFacts {
        scoped: true,
        rlib_producer: true,
        root_output: false,
        padding_percent: None,
        provenance: None,
        stabilize: None,
    };
    assert_eq!(complete_rustc(&mut rustc, &facts, &sld), Ok(()));
    assert_eq!(
        rustc.get_env("SLD_RUSTC_WORK_PRODUCT_PROVENANCE"),
        Some(b"1".to_vec())
    );
    assert_eq!(rustc.get_env("SLD_INCREMENTAL"), None);

    let mut rustdoc = Command::new("rustdoc");
    complete_rustdoc(
        &mut rustdoc,
        &Vec::new(),
        &vec![
            ScrapeOutput {
                failed: true,
                path: b"/a".to_vec(),
            },
            ScrapeOutput {
                failed: false,
                path: b"/b".to_vec(),
            },
        ],
    );
    assert_eq!(
        rustdoc.arguments,
        vec![b"--with-examples".to_vec(), b"/b".to_vec()]
    );
}

fn message() -> CompilerMessage {
    CompilerMessage {
        future_incompat: None,
        is_section_timing: false,
        diagnostic: None,
        rendered: None,
        artifact: None,
        is_unused_externs: false,
        message: None,
    }
}

fn warning(code: Option<&str>) -> CompilerMessage {
    let mut message = message();
    message.diagnostic = Some(Diagnostic {
        rendered: "warning: text\n".to_owned(),
        message: "text".to_owned(),
        level: "warning".to_owned(),
        suggestions: vec![vec![None, Some(Applicability::MachineApplicable)]],
        code: code.map(|code| code.to_owned()),
    });
    message.rendered = Some((
        "\u{1b}[33mwarning\u{1b}[0m: text\n".to_owned(),
        code.map(|code| code.to_owned()),
    ));
    message.message = Some(("text".to_owned(), "warning".to_owned()));
    message
}

#[test]
fn diagnostics_are_printed_and_counted() {
    let mut options = OutputOptions::for_dirty(MessageFormat::Human);
    let (action, kept) = on_stderr_line_inner(
        &Some(warning(Some("exported_private_dependencies"))),
        &mut options,
        &Some("note: here".to_owned()),
    );
    assert!(kept);
    match action {
        Action::Diagnostic {
            level,
            rendered,
            lint,
            machine_applicable,
        } => {
            assert_eq!(level, "warning");
            assert_eq!(rendered, "warning: textnote: here\n");
            assert!(lint && machine_applicable);
        }
        other => panic!("{other:?}"),
    }
    assert_eq!(options.warnings_seen, 1);
    assert_eq!(options.errors_seen, 0);

    let mut fresh = OutputOptions::for_fresh(MessageFormat::Human, false);
    let (action, kept) = on_stderr_line_inner(&Some(warning(None)), &mut fresh, &None);
    assert!(matches!(action, Action::Skip));
    assert!(kept);
    assert_eq!(fresh.warnings_seen, 0);
    assert_eq!(cached_line("line", kept, &fresh), None);
    assert_eq!(cached_line("line", kept, &options), Some("line\n".to_owned()));
    assert_eq!(replayed_line("line\r\n"), "line");
}

#[test]
fn json_messages_lose_their_colors() {
    let format = MessageFormat::Json {
        render_diagnostics: false,
        short: false,
        ansi: false,
    };
    let mut options = OutputOptions::for_dirty(format);
    let (action, _) = on_stderr_line_inner(&Some(warning(None)), &mut options, &None);
    match action {
        Action::PassOn { replaced } => {
            assert_eq!(replaced, Some("warning: text\n".to_owned()));
        }
        other => panic!("{other:?}"),
    }
    assert_eq!(options.warnings_seen, 1);
}

#[test]
fn other_lines_are_told_apart() {
    let mut options = OutputOptions::for_dirty(MessageFormat::Human);
    let (action, kept) = on_stderr_line_inner(&None, &mut options, &None);
    assert!(matches!(action, Action::Print) && kept);
    assert!(may_be_message("{}"));
    assert!(!may_be_message("error"));

    let mut artifact = message();
    artifact.artifact = Some("/d/libdemo.rmeta".to_owned());
    let (action, kept) = on_stderr_line_inner(&Some(artifact), &mut options, &None);
    assert!(matches!(action, Action::RmetaProduced) && !kept);

    let mut summary = warning(None);
    summary.diagnostic.as_mut().unwrap().message = "2 warnings emitted".to_owned();
    let (action, _) = on_stderr_line_inner(&Some(summary), &mut options, &None);
    assert!(matches!(action, Action::Skip));

    let mut report = message();
    report.future_incompat = Some(vec!["warning".to_owned(), "error".to_owned()]);
    let (action, _) = on_stderr_line_inner(&Some(report), &mut options, &None);
    assert!(matches!(action, Action::FutureIncompat));
    assert_eq!((options.warnings_seen, options.errors_seen), (1, 1));

    let mut timing = message();
    timing.is_section_timing = true;
    let (action, kept) = on_stderr_line_inner(&Some(timing), &mut options, &None);
    assert!(matches!(action, Action::SectionTiming) && !kept);

    let mut unused = message();
    unused.is_unused_externs = true;
    let (action, kept) = on_stderr_line_inner(&Some(unused), &mut options, &None);
    assert!(matches!(action, Action::UnusedExterns) && kept);
}

#[test]
fn failures_are_summed_up() {
    let target = TargetDescription {
        text: "bin \"demo\"".to_owned(),
        is_test: false,
        is_bench: false,
    };
    let mut options = OutputOptions::for_dirty(MessageFormat::Human);
    options.errors_seen = 2;
    options.warnings_seen = 1;
    assert_eq!(
        compile_failure("demo", &target, CompileMode::Build, &options),
        "could not compile `demo` (bin \"demo\") due to 2 previous errors; 1 warning emitted"
    );
    assert!(hides_details(2, Some(101)));
    assert!(!hides_details(0, Some(101)));
    assert!(!hides_details(2, Some(-1)));
    assert!(!hides_details(2, None));
}

fn context() -> ManifestErrorContext {
    let span = |start: usize, end: usize| Span { start, end };
    ManifestErrorContext {
        spans: Some(ManifestSpans {
            dependencies: vec![DependencySpan {
                name: "renamed".to_owned(),
                key: span(1, 2),
                package: Some(span(3, 4)),
            }],
            platforms: vec![
                PlatformTable {
                    platform: "cfg(windows)".to_owned(),
                    dependencies: Some(vec![DependencySpan {
                        name: "other".to_owned(),
                        key: span(5, 6),
                        package: None,
                    }]),
                },
                PlatformTable {
                    platform: "cfg(all(unix, target_os = \"linux\"))".to_owned(),
                    dependencies: Some(vec![DependencySpan {
                        name: "other".to_owned(),
                        key: span(7, 8),
                        package: None,
                    }]),
                },
                PlatformTable {
                    platform: "aarch64-apple-darwin".to_owned(),
                    dependencies: Some(vec![DependencySpan {
                        name: "named".to_owned(),
                        key: span(9, 10),
                        package: None,
                    }]),
                },
            ],
        }),
        dependencies: [
            ("real", "renamed"),
            ("other", "other"),
            ("named", "named"),
            ("twice", "a"),
            ("twice", "b"),
        ]
        .iter()
        .map(|(package, name)| NamedDependency {
            package: (*package).to_owned(),
            extern_crate_name: (*name).to_owned(),
        })
        .collect(),
        requested_targets: vec!["aarch64-apple-darwin".to_owned()],
        cfgs: vec![vec![
            CfgValue {
                name: "unix".to_owned(),
                value: None,
            },
            CfgValue {
                name: "target_os".to_owned(),
                value: Some("linux".to_owned()),
            },
        ]],
    }
}

#[test]
fn notes_point_into_the_manifest() {
    let context = context();
    assert_eq!(
        context.find_crate_span("real"),
        Some(Span { start: 3, end: 4 })
    );
    assert_eq!(
        context.find_crate_span("other"),
        Some(Span { start: 7, end: 8 })
    );
    assert_eq!(
        context.find_crate_span("named"),
        Some(Span { start: 9, end: 10 })
    );
    assert_eq!(context.find_crate_span("twice"), None);
    assert_eq!(context.find_crate_span("absent"), None);

    assert_eq!(
        context.find_crate_span_with("other", &vec![true, false, false]),
        Some(Span { start: 5, end: 6 })
    );
    assert_eq!(
        context.find_crate_span_with("other", &vec![false, false, true]),
        None
    );
    assert!(context.requests_with(&Some(None), &vec![false, true]));
    assert!(!context.requests_with(&Some(None), &vec![false]));
    assert!(!context.requests_with(&Some(Some("elsewhere".to_owned())), &vec![true]));
    assert!(!context.requests_with(&None, &vec![true]));

    let note = pub_in_priv_note(
        "type `T` from private dependency 'real' in public interface",
        &context,
        true,
        "/ws/pkg/Cargo.toml",
        "/ws",
    )
    .unwrap();
    assert_eq!(note.crate_name, "real");
    assert_eq!(note.path, "pkg/Cargo.toml");
    assert!(pub_in_priv_note("another message", &context, true, "/a", "/b").is_none());
    assert!(pub_in_priv_note(
        "from private dependency 'real'",
        &context,
        false,
        "/a",
        "/b"
    )
    .is_none());
}

#[test]
fn notes_are_looked_up_for_private_dependencies_only() {
    let context = context();
    let note = |code: Option<&str>, format: MessageFormat, shown: bool| {
        let mut line = warning(code);
        let text = "struct `T` from private dependency 'real' is re-exported\n";
        if let Some(diagnostic) = &mut line.diagnostic {
            diagnostic.rendered = text.to_owned();
        }
        if let Some((rendered, _)) = &mut line.rendered {
            *rendered = text.to_owned();
        }
        let mut options = OutputOptions::for_dirty(format);
        options.show_diagnostics = shown;
        note_for_line(
            &Some(line),
            &options,
            &context,
            true,
            "/ws/pkg/Cargo.toml",
            "/ws",
        )
    };
    let private = Some("exported_private_dependencies");
    let json = |render_diagnostics: bool| MessageFormat::Json {
        render_diagnostics,
        short: false,
        ansi: true,
    };
    let found = note(private, MessageFormat::Human, true).unwrap();
    assert_eq!(found.title(), "dependency `real` declared here");
    assert_eq!(found.span, Span { start: 3, end: 4 });
    assert!(note(private, json(true), true).is_some());
    assert!(note(private, json(false), true).is_some());
    assert!(note(private, json(false), false).is_some());
    assert!(note(private, MessageFormat::Human, false).is_none());
    assert!(note(private, MessageFormat::Short, true).is_none());
    assert!(note(Some("unused"), MessageFormat::Human, true).is_none());
    assert!(note(None, json(false), true).is_none());
}

#[test]
fn compilers_tell_their_version() {
    let info = parse_verbose_version(
        "rustc 1.90.0-nightly\nhost: x86_64-unknown-linux-gnu\nrelease: 1.90.0-nightly\ncommit-hash: abc\n",
    )
    .ok()
    .unwrap();
    assert_eq!(info.host, "x86_64-unknown-linux-gnu");
    assert_eq!(
        (info.version.major, info.version.minor, info.version.patch),
        (1, 90, 0)
    );
    assert_eq!(info.version.pre, "nightly");
    assert_eq!(info.commit_hash, Some("abc".to_owned()));
    assert_eq!(
        parse_verbose_version("release: 1.0.0").err(),
        Some(VersionError::NoHost)
    );
    assert_eq!(
        parse_verbose_version("host: h").err(),
        Some(VersionError::NoRelease)
    );
    assert_eq!(
        parse_verbose_version("host: h\nrelease: one").err(),
        Some(VersionError::InvalidRelease)
    );
}

#[test]
fn compilers_are_identified_by_their_program() {
    let program = Some(b"/bin/rustc".to_vec());
    let home = Some(b"/home/.rustup".to_vec());
    let toolchain = Some(b"stable".to_vec());
    assert!(matches!(
        artifact_cache_identity_program(false, &program, false, &home, &toolchain),
        IdentityProgram::Unmodeled
    ));
    match artifact_cache_identity_program(true, &program, true, &home, &toolchain) {
        IdentityProgram::Resolve(path) => {
            assert_eq!(path, b"/home/.rustup/toolchains/stable/bin/rustc");
        }
        _ => panic!("not resolved"),
    }
    assert!(matches!(
        artifact_cache_identity_program(true, &program, true, &home, &None),
        IdentityProgram::Unmodeled
    ));
    assert!(matches!(
        rustup_fingerprint(true, &None, &None),
        RustupFingerprint::Unknown
    ));
    assert!(matches!(
        rustup_fingerprint(false, &None, &None),
        RustupFingerprint::Nothing
    ));
}

#[test]
fn outputs_of_compilers_are_asked_for_once() {
    let mut cache = Cache::load(Some(b"/info".to_vec()), Some(5), None);
    assert!(cache.dirty);
    assert!(cache.misses(1));
    cache.keep(
        1,
        true,
        "ignored".to_owned(),
        Some(0),
        "out".to_owned(),
        "err".to_owned(),
    );
    assert!(!cache.misses(1));
    match cache.cached_output(1) {
        Some(Ok((stdout, stderr))) => {
            assert_eq!((stdout.as_str(), stderr.as_str()), ("out", "err"));
        }
        other => panic!("{other:?}"),
    }
    cache.keep(
        2,
        false,
        "exit status: 1".to_owned(),
        Some(1),
        String::new(),
        "no".to_owned(),
    );
    match cache.cached_output(2) {
        Some(Err(failure)) => {
            assert_eq!(failure.code, Some(1));
            assert_eq!(failure.status, "exit status: 1");
        }
        other => panic!("{other:?}"),
    }
    let data = cache.data;
    let again = Cache::load(Some(b"/info".to_vec()), Some(5), Some(data));
    assert!(!again.dirty && !again.misses(1));
    assert_eq!(again.write_location(), None);
    let other = Cache::load(Some(b"/info".to_vec()), Some(6), Some(again.data));
    assert!(other.dirty && other.misses(1));
    assert_eq!(other.write_location(), Some(b"/info".to_vec()));
    assert_eq!(Cache::load(None, Some(6), None).write_location(), None);
}

fn remap() -> RemapFacts {
    RemapFacts {
        source: PackageSource::Registry,
        package_root: b"/registry/src/demo".to_vec(),
        package_name: "demo".to_owned(),
        package_version: "0.1.0".to_owned(),
        workspace_root: b"/ws".to_vec(),
        git_checkouts: b"/git".to_vec(),
        registry_sources: b"/registry/src".to_vec(),
        build_dir: b"/ws/target".to_vec(),
        sysroot: b"/sys".to_vec(),
        commit_hash: None,
        rustc_version: "1.90.0".to_owned(),
    }
}

fn candidate_facts() -> CandidateFacts {
    CandidateFacts {
        compiler_program: b"/sys/bin/rustc".to_vec(),
        identity_program: None,
        build_dir: b"/ws/target".to_vec(),
        output_root: b"/ws/target/debug/deps".to_vec(),
        cwd: b"/registry/src/demo".to_vec(),
        rustc_verbose_version: "rustc 1.0.0\nhost: x86_64-unknown-linux-gnu".to_owned(),
        rustc_host: "x86_64-unknown-linux-gnu".to_owned(),
        search: SearchFacts {
            dependencies: vec![Vec::new()],
            deps_dirs: vec![b"/ws/target/debug/deps".to_vec()],
            new_layout: false,
            is_host: true,
            host_deps: Vec::new(),
        },
        unit: 0,
        remap: remap(),
        loader_directories: Vec::new(),
    }
}

fn unit_facts() -> UnitFacts {
    UnitFacts {
        executor_compatible: true,
        is_lib: true,
        is_proc_macro: false,
        mode: CompileMode::Build,
        sbom_files: 0,
        configured: Vec::new(),
    }
}

fn linux() -> Host {
    Host {
        linux: true,
        macos: false,
        unix: true,
        loader_variable: "LD_LIBRARY_PATH".to_owned(),
    }
}

#[test]
fn libraries_become_candidates() {
    let rustc = Command::new("/sys/bin/rustc");
    let build = |configured: bool, facts: &UnitFacts| {
        ArtifactCacheActionBuilder::new(configured, facts, &linux(), &rustc, &candidate_facts())
    };
    assert!(matches!(
        build(false, &unit_facts()),
        ArtifactCacheActionBuilder::Disabled
    ));
    let mut custom = unit_facts();
    custom.executor_compatible = false;
    assert!(matches!(
        build(true, &custom),
        ArtifactCacheActionBuilder::Rejected(Rejection::CustomExecutor)
    ));
    let mut program = unit_facts();
    program.is_lib = false;
    let rejected = build(true, &program);
    let mut stats = ArtifactCacheStats::default();
    rejected.record_static_rejection(&mut stats);
    assert_eq!(
        stats.ineligible[IneligibleReason::TargetNotLibrary.index()],
        1
    );
    let mut sbom = unit_facts();
    sbom.sbom_files = 1;
    assert!(matches!(
        build(true, &sbom),
        ArtifactCacheActionBuilder::Rejected(Rejection::Ineligible(IneligibleReason::Sbom))
    ));
    match build(true, &unit_facts()) {
        ArtifactCacheActionBuilder::Candidate(candidate) => {
            assert_eq!(candidate.identity_program, b"/sys/bin/rustc".to_vec());
            assert_eq!(
                candidate.dependency_search_paths,
                vec![b"dependency=/ws/target/debug/deps".to_vec()]
            );
            let normalized: Vec<Vec<u8>> = candidate
                .portable_remaps
                .iter()
                .map(|remap| remap.normalized.clone())
                .collect();
            assert_eq!(
                normalized[0],
                b"--remap-path-prefix=/__cargo_artifact_cache_registry_sources=".to_vec()
            );
            assert_eq!(normalized.len(), 3);
        }
        _ => panic!("no candidate"),
    }
}

#[test]
fn candidates_are_dismissed_for_what_they_do() {
    let rustc = Command::new("/sys/bin/rustc");
    let ArtifactCacheActionBuilder::Candidate(candidate) = ArtifactCacheActionBuilder::new(
        true,
        &unit_facts(),
        &linux(),
        &rustc,
        &candidate_facts(),
    ) else {
        panic!("no candidate");
    };
    let disk = Disk { nodes: Vec::new() };
    let mut test = Command::new("/sys/bin/rustc");
    test.arg("--test");
    assert_eq!(
        candidate
            .describe_loader_inputs(
                &test,
                &linux(),
                &disk,
                b"/sys/bin/rustc",
                b"/sys/bin/rustc",
                false
            )
            .err(),
        Some(Dismissal::Ineligible(IneligibleReason::UnmodeledRustcAction))
    );
    let mut library = Command::new("/sys/bin/rustc");
    for argument in [
        "--crate-type",
        "lib",
        "--emit=dep-info,metadata,link",
        "--out-dir",
        "/ws/target/debug/deps",
        "--extern",
        "a=/ws/target/debug/deps/liba.rmeta",
    ] {
        library.arg(argument);
    }
    library.env("LD_LIBRARY_PATH", b"/ws/target/debug/deps:/opt/lib");
    assert_eq!(
        candidate
            .describe_loader_inputs(
                &library,
                &linux(),
                &disk,
                b"/sys/bin/rustc",
                b"/sys/bin/rustc",
                true
            )
            .err(),
        Some(Dismissal::NotMaterialized)
    );
    let inputs = candidate
        .describe_loader_inputs(
            &library,
            &linux(),
            &disk,
            b"/sys/bin/rustc",
            b"/sys/bin/rustc",
            false,
        )
        .ok()
        .unwrap();
    assert_eq!(inputs.len(), 2);
    assert_eq!(inputs[0].path, b"/ws/target/debug/deps".to_vec());
    assert_eq!(inputs[1].path, b"/opt/lib".to_vec());
}

#[test]
fn keys_are_made_from_what_a_candidate_holds() {
    let rustc = Command::new("/sys/bin/rustc");
    let mut facts = candidate_facts();
    facts.identity_program = Some(b"/toolchain/bin/rustc".to_vec());
    let ArtifactCacheActionBuilder::Candidate(candidate) =
        ArtifactCacheActionBuilder::new(true, &unit_facts(), &linux(), &rustc, &facts)
    else {
        panic!("no candidate");
    };
    let host = linux();
    let identity = ArtifactCacheIdentity {
        digest: [7; 32],
        witness: ArtifactCacheIdentityWitness {
            directories: Vec::new(),
            files: Vec::new(),
        },
    };
    let loader_inputs = Vec::new();
    let context = candidate.key_context(&host, &identity.digest, &loader_inputs);
    assert_eq!(context.build_dir, b"/ws/target");
    assert_eq!(context.output_root, b"/ws/target/debug/deps");
    assert_eq!(context.compiler_program, b"/toolchain/bin/rustc");
    assert_eq!(
        context.rustc_verbose_version,
        "rustc 1.0.0\nhost: x86_64-unknown-linux-gnu"
    );
    assert_eq!(context.compiler_identity, &[7; 32]);
    assert_eq!(context.portable_remaps.len(), 3);
    assert_eq!(context.modeled_dependency_search_paths.len(), 1);

    let disk = Disk { nodes: Vec::new() };
    let action = ActionInputs {
        files: Vec::new(),
        trees: Vec::new(),
    };
    let directories = Vec::new();
    let inputs = KeyInputs {
        disk: &disk,
        directories: &directories,
        action: &action,
    };
    let described = candidate
        .describe(&host, b"/cache", &rustc, Some(&identity), &loader_inputs, &inputs)
        .ok()
        .unwrap();
    let key = described.prepared.key;
    assert_eq!(
        cache_entry_root(
            b"/cache",
            &rustc,
            &context,
            &key.loader_inputs_digest,
            &key.action_inputs_digest,
        ),
        Some(key.entry_root)
    );
    assert_eq!(
        candidate
            .describe(&host, b"/cache", &rustc, None, &loader_inputs, &inputs)
            .err(),
        Some(Dismissal::Ineligible(
            IneligibleReason::CompilerIdentityUnavailable
        ))
    );
}

#[test]
fn failed_restores_are_misses() {
    let mut stats = ArtifactCacheStats::default();
    assert!(restore_artifact_cache_action(true, Ok(true), 5, &mut stats));
    assert!(!restore_artifact_cache_action(true, Err(()), 5, &mut stats));
    assert!(!restore_artifact_cache_action(false, Ok(true), 5, &mut stats));
    assert_eq!((stats.hits, stats.misses, stats.restore_failures), (1, 1, 1));
    record_description(&None, &mut stats);
    record_description(&Some(Dismissal::NotMaterialized), &mut stats);
    record_description(
        &Some(Dismissal::Ineligible(IneligibleReason::KeyGenerationFailure)),
        &mut stats,
    );
    assert_eq!(stats.eligible, 1);
    assert_eq!(stats.ineligible.iter().sum::<u64>(), 1);
}

#[test]
fn materializations_are_counted_by_kind() {
    let mut totals = MaterializationTotals::default();
    totals.record(MaterializationKind::Hardlink, 3);
    totals.record(MaterializationKind::CrossDeviceCopy, 4);
    let mut stats = ArtifactCacheStats::default();
    stats.restored(2, 7, &totals);
    assert_eq!((stats.hardlinked_files, stats.hardlinked_bytes), (1, 3));
    assert_eq!(
        (stats.cross_device_copied_files, stats.cross_device_copied_bytes),
        (1, 4)
    );
    let report = stats.report();
    assert_eq!(report.version, 1);
    assert_eq!(report.reasons.len(), 13);
    assert_eq!(report.phases.len(), 9);
}

#[test]
fn documentation_is_written_in_order() {
    let mut job = RustdocJob::new(false, true, true);
    job.advance(DocumentingEvent::Completed { stale: true });
    assert_eq!(job.stage, DocumentingStage::Clearing);
    job.advance(DocumentingEvent::Stepped(true));
    job.advance(DocumentingEvent::Stepped(true));
    assert!(job.timed && !job.documented);
    let mut failed = job;
    job.advance(DocumentingEvent::Documented { reported: true });
    assert_eq!(job.stage, DocumentingStage::RecordingInputs);
    job.advance(DocumentingEvent::Stepped(true));
    assert_eq!(job.stage, DocumentingStage::Done);
    failed.advance(DocumentingEvent::Stepped(false));
    assert_eq!(failed.stage, DocumentingStage::Failed);
    assert!(failed.warns);
    assert_eq!(document_failure("demo"), "could not document `demo`");

    let mut data = RustdocJob::new(true, false, false);
    data.advance(DocumentingEvent::Completed { stale: true });
    assert_eq!(data.stage, DocumentingStage::Timing);
    data.advance(DocumentingEvent::Stepped(true));
    data.advance(DocumentingEvent::Documented { reported: true });
    assert_eq!(data.stage, DocumentingStage::Done);
}
