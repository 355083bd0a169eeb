use artifact_cache::base_arguments::build_base_args;
use artifact_cache::base_arguments::envify;
use artifact_cache::base_arguments::BaseFacts;
use artifact_cache::base_arguments::DebugInfo;
use artifact_cache::base_arguments::Hint;
use artifact_cache::base_arguments::HintWarning;
use artifact_cache::base_arguments::Lto;
use artifact_cache::base_arguments::OutputFacts;
use artifact_cache::base_arguments::PanicStrategy;
use artifact_cache::base_arguments::Profile;
use artifact_cache::command::Command;
use artifact_cache::dependency_arguments::extern_args;
use artifact_cache::dependency_arguments::lib_search_paths;
use artifact_cache::dependency_arguments::search_operands;
use artifact_cache::dependency_arguments::Dependency;
use artifact_cache::dependency_arguments::ExternFacts;
use artifact_cache::dependency_arguments::SearchFacts;
use artifact_cache::invocation::apply_env_config;
use artifact_cache::invocation::descriptive_pkg_name;
use artifact_cache::invocation::make_failed_scrape_diagnostic;
use artifact_cache::invocation::prepare_rustc;
use artifact_cache::invocation::prepare_rustdoc;
use artifact_cache::invocation::rustc_dep_info_loc;
use artifact_cache::invocation::version_command;
use artifact_cache::invocation::DependencyFacts;
use artifact_cache::invocation::PrepareError;
use artifact_cache::invocation::RustcFacts;
use artifact_cache::invocation::RustdocFacts;
use artifact_cache::invocation::TargetDescription;
use artifact_cache::link_arguments::add_native_deps;
use artifact_cache::link_arguments::add_plugin_deps;
use artifact_cache::link_arguments::find_unlinkable;
use artifact_cache::link_arguments::get_dynamic_search_path;
use artifact_cache::link_arguments::unlinkable_report;
use artifact_cache::link_arguments::LibraryOrigin;
use artifact_cache::link_arguments::LibraryPath;
use artifact_cache::link_arguments::LinkerArgument;
use artifact_cache::link_arguments::ScriptError;
use artifact_cache::link_arguments::ScriptLink;
use artifact_cache::link_arguments::ScriptOutput;
use artifact_cache::link_arguments::ScriptVariable;
use artifact_cache::outputs::FileFlavor;
use artifact_cache::outputs::OutputFile;
use artifact_cache::remap::PackageSource;
use artifact_cache::remap::RemapFacts;
use artifact_cache::remap::TrimPaths;
use artifact_cache::remap::TrimPathsValue;
use artifact_cache::sld::configure_sld_native_incremental_root;
use artifact_cache::sld::copy_sld_native_incremental_artifact;
use artifact_cache::sld::sld_native_incremental_root_output;
use artifact_cache::sld::warn_if_sld_native_incremental_unsupported;
use artifact_cache::sld::CopyAttempt;
use artifact_cache::sld::CopyStep;
use artifact_cache::sld::SldWarning;
use artifact_cache::unit::CompileMode;

fn strings(list: &[&str]) -> Vec<String> {
    list.iter().map(|text| (*text).to_owned()).collect()
}

fn texts(list: &Vec<Vec<u8>>) -> Vec<String> {
    list.iter()
        .map(|argument| String::from_utf8(argument.clone()).unwrap())
        .collect()
}

fn remap() -> RemapFacts {
    RemapFacts {
        source: PackageSource::Other,
        package_root: b"/ws/pkg".to_vec(),
        package_name: "demo".to_owned(),
        package_version: "0.1.0".to_owned(),
        workspace_root: b"/ws".to_vec(),
        git_checkouts: b"/home/git".to_vec(),
        registry_sources: b"/home/registry".to_vec(),
        build_dir: b"/ws/target".to_vec(),
        sysroot: b"/sys".to_vec(),
        commit_hash: Some("abc".to_owned()),
        rustc_version: "1.90.0".to_owned(),
    }
}

fn base() -> BaseFacts {
    BaseFacts {
        mode: CompileMode::Build,
        crate_name: "demo".to_owned(),
        edition_args: strings(&["--edition=2021"]),
        source_path: b"src/lib.rs".to_vec(),
        cwd: b"/ws/pkg".to_vec(),
        crate_types: strings(&["lib"]),
        no_embed_metadata: false,
        benefits_from_no_embed_metadata: true,
        requires_upstream_objects: false,
        for_host: false,
        is_custom_build: false,
        is_primary: true,
        lto: Lto::OnlyObject,
        lint_rustflags: Vec::new(),
        harness: true,
        features: strings(&["default"]),
        declared_features: strings(&["default", "extra"]),
        c_metadata: "0123".to_owned(),
        c_extra_filename: Some("4567".to_owned()),
        output_dir: b"/ws/target/debug/deps".to_vec(),
        target_args: Vec::new(),
        target_applies_to_host: true,
        host_linker: None,
        target_linker: None,
        incremental_dir: b"/ws/target/debug/incremental".to_vec(),
        package_hint: Hint::Absent,
        hints_enabled: false,
        show_warnings: true,
        is_std: false,
        profile: Profile {
            opt_level: "0".to_owned(),
            codegen_backend: None,
            codegen_units: None,
            debuginfo: DebugInfo::Full,
            debug_assertions: true,
            split_debuginfo: Some("unpacked".to_owned()),
            overflow_checks: true,
            rpath: false,
            panic: PanicStrategy::Unwind,
            incremental: true,
            strip: None,
            rustflags: Vec::new(),
            trim_paths: None,
            hint_mostly_unused: None,
        },
        remap: remap(),
        output: OutputFacts {
            section_timings: false,
            has_logger: false,
            cargo_lints: false,
            short_messages: false,
            unicode_terminal: true,
            rustc_unicode: false,
            terminal_width: Some(140),
            allow_features: None,
        },
    }
}

fn base_texts(facts: &BaseFacts) -> Vec<String> {
    let mut out = Vec::new();
    build_base_args(&mut out, facts);
    texts(&out)
}

#[test]
fn a_development_build_of_a_library() {
    assert_eq!(
        base_texts(&base()),
        strings(&[
            "--crate-name",
            "demo",
            "--edition=2021",
            "src/lib.rs",
            "--error-format=json",
            "--json=diagnostic-rendered-ansi,artifacts,future-incompat",
            "--diagnostic-width=140",
            "--crate-type",
            "lib",
            "--emit=dep-info,metadata,link",
            "-C",
            "embed-bitcode=no",
            "-C",
            "debuginfo=2",
            "-C",
            "split-debuginfo=unpacked",
            "--cfg",
            "feature=\"default\"",
            "--check-cfg",
            "cfg(docsrs,test)",
            "--check-cfg",
            "cfg(feature, values(\"default\", \"extra\"))",
            "-C",
            "metadata=0123",
            "-C",
            "extra-filename=-4567",
            "--out-dir",
            "/ws/target/debug/deps",
            "-C",
            "incremental=/ws/target/debug/incremental",
        ])
    );
}

#[test]
fn a_release_test_that_aborts() {
    let mut facts = base();
    facts.mode = CompileMode::Test;
    facts.profile.opt_level = "3".to_owned();
    facts.profile.panic = PanicStrategy::Abort;
    facts.profile.debug_assertions = false;
    facts.profile.codegen_units = Some(16);
    facts.profile.strip = Some("symbols".to_owned());
    facts.profile.trim_paths = Some(TrimPaths::Values(vec![
        TrimPathsValue::Macro,
        TrimPathsValue::Object,
    ]));
    facts.lto = Lto::Run(Some("thin".to_owned()));
    facts.output.allow_features = Some(strings(&["a", "b"]));
    facts.target_linker = Some(b"/bin/ld".to_vec());
    let list = base_texts(&facts);
    let has = |pair: &[&str]| {
        list.windows(pair.len())
            .any(|window| window.iter().zip(pair).all(|(left, right)| left == right))
    };
    assert!(!list.contains(&"--crate-type".to_owned()));
    assert!(has(&["-C", "opt-level=3"]));
    assert!(has(&["-C", "panic=abort"]));
    assert!(has(&["-C", "lto=thin"]));
    assert!(has(&["-C", "codegen-units=16"]));
    assert!(has(&["-C", "overflow-checks=on"]));
    assert!(has(&["--test", "-Z", "panic-abort-tests"]));
    assert!(has(&["-C", "strip=symbols"]));
    assert!(has(&["-C", "linker=/bin/ld"]));
    assert!(has(&["-Zallow-features=a,b"]));
    assert!(has(&[
        "--remap-path-scope=macro,object",
        "--remap-path-prefix=/ws=.",
        "--remap-path-prefix=/ws/target=/cargo/build-dir",
        "--remap-path-prefix=/sys/lib/rustlib/src/rust=/rustc/abc",
    ]));
}

#[test]
fn hints_that_are_not_enabled_are_warned_of() {
    let mut facts = base();
    facts.package_hint = Hint::Value(true);
    assert_eq!(
        build_base_args(&mut Vec::new(), &facts),
        vec![HintWarning::PackageHint]
    );
    facts.profile.hint_mostly_unused = Some(true);
    assert_eq!(
        build_base_args(&mut Vec::new(), &facts),
        vec![HintWarning::ProfileOption]
    );
    facts.hints_enabled = true;
    assert!(build_base_args(&mut Vec::new(), &facts).is_empty());
    assert!(base_texts(&facts).contains(&"-Zhint-mostly-unused".to_owned()));
    assert_eq!(
        HintWarning::WrongType.text("string"),
        "ignoring unsupported value type (string) for 'hints.mostly-unused', which expects a boolean"
    );
    facts.package_hint = Hint::WrongType;
    assert_eq!(
        build_base_args(&mut Vec::new(), &facts),
        vec![HintWarning::WrongType]
    );
}

#[test]
fn variables_are_named_in_upper_case() {
    assert_eq!(envify("my-crate"), "MY_CRATE");
    assert_eq!(envify("stra\u{df}e"), "STRASSE");
}

fn search(new_layout: bool) -> SearchFacts {
    SearchFacts {
        dependencies: vec![vec![1], vec![2], Vec::new(), Vec::new()],
        deps_dirs: vec![
            b"/b/0".to_vec(),
            b"/c/1".to_vec(),
            b"/a/2".to_vec(),
            b"/a/3".to_vec(),
        ],
        new_layout,
        is_host: false,
        host_deps: b"/host".to_vec(),
    }
}

#[test]
fn libraries_are_searched_for_in_the_order_of_paths() {
    let words = lib_search_paths(&search(true), 0);
    assert_eq!(
        texts(&words),
        strings(&[
            "-L",
            "dependency=/a/2",
            "-L",
            "dependency=/b/0",
            "-L",
            "dependency=/c/1",
            "-L",
            "dependency=/host",
        ])
    );
    assert_eq!(
        texts(&search_operands(&words))[0],
        "dependency=/a/2".to_owned()
    );
    assert_eq!(
        texts(&lib_search_paths(&search(false), 1)),
        strings(&["-L", "dependency=/c/1", "-L", "dependency=/host"])
    );
}

fn output(path: &str, flavor: FileFlavor) -> OutputFile {
    OutputFile {
        path: path.as_bytes().to_vec(),
        hardlink: None,
        export_path: None,
        flavor,
    }
}

fn dependency(name: &str) -> Dependency {
    Dependency {
        crate_name: name.to_owned(),
        name: name.to_owned(),
        is_public: false,
        noprelude: false,
        nounused: false,
        is_lib: true,
        is_linkable: true,
        is_artifact: false,
        is_doc: false,
        is_check: false,
        is_run_custom_build: false,
        only_requires_rmeta: true,
        extern_crate_name: name.to_owned(),
        outputs: vec![
            output(&format!("/d/lib{name}.rlib"), FileFlavor::Linkable),
            output(&format!("/d/lib{name}.rmeta"), FileFlavor::Rmeta),
        ],
        out_dir: format!("/out/{name}").into_bytes(),
    }
}

fn externs() -> ExternFacts {
    ExternFacts {
        is_lib: true,
        is_proc_macro: false,
        no_embed_metadata: false,
        public_dependency_feature: false,
        public_dependency: false,
    }
}

#[test]
fn dependencies_are_passed_with_what_is_needed_of_them() {
    let mut linked = dependency("b");
    linked.only_requires_rmeta = false;
    let mut facts = externs();
    facts.is_proc_macro = true;
    let (words, unstable) = extern_args(&facts, &vec![dependency("a"), linked]);
    assert_eq!(
        texts(&words),
        strings(&[
            "--extern",
            "a=/d/liba.rmeta",
            "--extern",
            "b=/d/libb.rlib",
            "--extern",
            "proc_macro",
        ])
    );
    assert!(!unstable);

    let mut marked = dependency("c");
    marked.noprelude = true;
    marked.nounused = true;
    let mut private = externs();
    private.public_dependency = true;
    let (words, unstable) = extern_args(&private, &vec![marked]);
    assert_eq!(
        texts(&words)[1],
        "priv,noprelude,nounused:c=/d/libc.rmeta".to_owned()
    );
    assert!(unstable);
}

#[test]
fn a_dependency_that_cannot_be_linked_is_warned_of() {
    let mut unlinkable = dependency("a");
    unlinkable.is_linkable = false;
    assert_eq!(
        find_unlinkable(&vec![unlinkable]),
        Some("a".to_owned())
    );
    let mut again = dependency("a");
    again.is_linkable = false;
    assert_eq!(find_unlinkable(&vec![again, dependency("b")]), None);
    let report = unlinkable_report("a", "demo");
    assert_eq!(report.title, "the package `a` provides no linkable target");
    assert_eq!(report.effect, "this might cause `demo` to fail compilation");
    assert_eq!(
        report.help,
        "consider adding 'dylib' or 'rlib' to key 'crate-type' in `a`'s Cargo.toml"
    );
}

fn library(origin: LibraryOrigin, path: &str) -> LibraryPath {
    LibraryPath {
        origin,
        path: path.as_bytes().to_vec(),
    }
}

fn script(is_current: bool, paths: Vec<LibraryPath>) -> ScriptLink {
    ScriptLink {
        is_current,
        output: Some(ScriptOutput {
            library_paths: paths,
            library_links: strings(&["z"]),
            linker_args: vec![
                LinkerArgument {
                    applies: true,
                    is_cdylib: false,
                    argument: "-plain".to_owned(),
                },
                LinkerArgument {
                    applies: true,
                    is_cdylib: true,
                    argument: "-cdylib".to_owned(),
                },
            ],
            cfgs: strings(&["fast"]),
            check_cfgs: strings(&["cfg(fast)"]),
            env: vec![ScriptVariable {
                name: "ANSWER".to_owned(),
                value: "42".to_owned(),
            }],
        }),
    }
}

#[test]
fn library_paths_into_the_build_directory_come_first() {
    let scripts = vec![
        script(
            false,
            vec![
                library(LibraryOrigin::External, "/usr/lib"),
                library(LibraryOrigin::CargoArtifact, "native=/ws/target/x"),
            ],
        ),
        script(true, vec![library(LibraryOrigin::CargoArtifact, "/ws/target/y")]),
    ];
    let mut words = Vec::new();
    assert_eq!(add_native_deps(&mut words, &scripts, true), Ok(()));
    assert_eq!(
        texts(&words),
        strings(&[
            "-L",
            "native=/ws/target/x",
            "-L",
            "/ws/target/y",
            "-L",
            "/usr/lib",
            "-C",
            "link-arg=-cdylib",
            "-l",
            "z",
            "-C",
            "link-arg=-plain",
            "-C",
            "link-arg=-cdylib",
        ])
    );
    let missing = vec![ScriptLink {
        is_current: true,
        output: None,
    }];
    assert_eq!(
        add_native_deps(&mut Vec::new(), &missing, true),
        Err(ScriptError::MissingOutput)
    );
}

#[test]
fn plugins_extend_the_search_path_below_the_output_root() {
    let plugins = vec![script(
        false,
        vec![
            library(LibraryOrigin::External, "/usr/lib"),
            library(LibraryOrigin::CargoArtifact, "native=/ws/target/x"),
        ],
    )];
    let mut rustc = Command::new("rustc");
    rustc.env("LD_LIBRARY_PATH", b"/lib");
    assert_eq!(
        add_plugin_deps(&mut rustc, "LD_LIBRARY_PATH", &plugins, b"/ws/target"),
        Ok(())
    );
    assert_eq!(
        rustc.get_env("LD_LIBRARY_PATH"),
        Some(b"/lib:/ws/target/x".to_vec())
    );
    assert_eq!(
        get_dynamic_search_path(b"framework=/f"),
        b"/f".to_vec()
    );
    assert_eq!(
        get_dynamic_search_path(b"other=/f"),
        b"other=/f".to_vec()
    );
}

fn dependencies() -> DependencyFacts {
    DependencyFacts {
        search: search(false),
        unit: 0,
        externs: externs(),
        dependencies: Vec::new(),
        multiple_build_scripts: true,
        artifacts: Vec::new(),
    }
}

fn rustc_facts() -> RustcFacts {
    RustcFacts {
        base: base(),
        dependencies: dependencies(),
        is_embedded: false,
        script_enabled: false,
        is_local: false,
        extra_args: Some(strings(&["--extra"])),
        rustflags: strings(&["--flag"]),
        binary_dep_depinfo: true,
        checksum_freshness: true,
        is_primary: true,
        sbom_files: vec![b"/a.json".to_vec(), b"/b.json".to_vec()],
        test_directory: Some(b"/tmp/tests".to_vec()),
    }
}

#[test]
fn whole_invocations_end_in_what_users_add() {
    let mut facts = rustc_facts();
    let mut script = dependency("build-script-main");
    script.is_run_custom_build = true;
    script.is_linkable = false;
    facts.dependencies.dependencies = vec![script];
    let (command, warnings) = prepare_rustc(Command::new("rustc"), &facts).ok().unwrap();
    assert!(warnings.is_empty());
    let list = texts(&command.arguments);
    assert_eq!(
        list[list.len() - 12..],
        strings(&[
            "-L",
            "dependency=/b/0",
            "-L",
            "dependency=/host",
            "--cap-lints",
            "warn",
            "--extra",
            "--flag",
            "-Z",
            "binary-dep-depinfo",
            "-Z",
            "checksum-hash-algorithm=blake3",
        ])[..]
    );
    assert_eq!(command.directory, Some(b"/ws/pkg".to_vec()));
    assert_eq!(
        command.get_env("OUT_DIR"),
        Some(b"/out/build-script-main".to_vec())
    );
    assert_eq!(
        command.get_env("main_OUT_DIR"),
        Some(b"/out/build-script-main".to_vec())
    );
    assert_eq!(
        command.get_env("CARGO_SBOM_PATH"),
        Some(b"/a.json:/b.json".to_vec())
    );
    assert_eq!(
        command.get_env("CARGO_TARGET_TMPDIR"),
        Some(b"/tmp/tests".to_vec())
    );
    assert_eq!(command.get_env("CARGO_PRIMARY_PACKAGE"), Some(b"1".to_vec()));
}

#[test]
fn invocations_that_cannot_be_prepared() {
    let mut facts = rustc_facts();
    facts.is_embedded = true;
    assert_eq!(
        prepare_rustc(Command::new("rustc"), &facts).err(),
        Some(PrepareError::ScriptNotEnabled)
    );
    facts.script_enabled = true;
    facts.sbom_files = vec![b"/a:b.json".to_vec()];
    assert_eq!(
        prepare_rustc(Command::new("rustc"), &facts).err(),
        Some(PrepareError::UnjoinableSbomPaths)
    );
}

fn rustdoc_facts() -> RustdocFacts {
    let mut base = base();
    base.mode = CompileMode::Docscrape;
    base.profile.trim_paths = Some(TrimPaths::All);
    RustdocFacts {
        base,
        dependencies: dependencies(),
        is_embedded: false,
        script_enabled: false,
        is_local: true,
        doc_dir: b"/ws/target/doc".to_vec(),
        rustdoc_depinfo: true,
        dep_info_loc: b"/fp/doc.d".to_vec(),
        mergeable_info: true,
        parts_dir: b"/parts".to_vec(),
        checksum_freshness: false,
        doc_metadata: "89ab".to_owned(),
        is_test: true,
        scrape_output: b"/scrape".to_vec(),
        scrape_crates: strings(&["demo"]),
        include_scraped: false,
        root_url_args: Vec::new(),
        output_format_args: Vec::new(),
        extra_args: None,
        rustdocflags: Vec::new(),
        package_version: "0.1.0".to_owned(),
    }
}

#[test]
fn documentation_names_its_version_once() {
    let facts = rustdoc_facts();
    let command = prepare_rustdoc(Command::new("rustdoc"), &facts).ok().unwrap();
    let list = texts(&command.arguments);
    assert_eq!(
        list[list.len() - 2..],
        strings(&["--crate-version", "0.1.0"])[..]
    );
    assert!(list.contains(&"--emit=html-non-static-files,dep-info=/fp/doc.d".to_owned()));
    assert!(list.contains(&"--parts-out-dir=/parts".to_owned()));
    assert!(list.contains(&"--scrape-tests".to_owned()));
    let mut given = rustdoc_facts();
    given.rustdocflags = strings(&["--crate-version=2"]);
    let command = prepare_rustdoc(Command::new("rustdoc"), &given).ok().unwrap();
    assert_eq!(
        texts(&command.arguments).last(),
        Some(&"--crate-version=2".to_owned())
    );
}

#[test]
fn the_configuration_does_not_override_what_is_set() {
    let configured = vec![
        ScriptVariable {
            name: "A".to_owned(),
            value: "configured".to_owned(),
        },
        ScriptVariable {
            name: "B".to_owned(),
            value: "configured".to_owned(),
        },
    ];
    let mut command = Command::new("rustc");
    command.env("A", b"set");
    apply_env_config(&mut command, &configured);
    assert_eq!(command.get_env("A"), Some(b"set".to_vec()));
    assert_eq!(command.get_env("B"), Some(b"configured".to_vec()));

    let version = version_command(b"/bin/rustc", &Some(b"/w".to_vec()), &None, &configured, b"/bin/cargo");
    assert_eq!(version.get_program(), b"/w");
    assert_eq!(
        texts(&version.get_args()),
        strings(&["/bin/rustc", "-vV"])
    );
    assert_eq!(version.get_env("CARGO"), Some(b"/bin/cargo".to_vec()));
}

#[test]
fn messages_name_what_is_compiled() {
    let target = TargetDescription {
        text: "lib".to_owned(),
        is_test: false,
        is_bench: false,
    };
    assert_eq!(
        descriptive_pkg_name("demo", &target, CompileMode::Test),
        "`demo` (lib test)"
    );
    assert_eq!(
        descriptive_pkg_name("demo", &target, CompileMode::Doctest),
        "`demo` (lib doctest)"
    );
    assert_eq!(
        descriptive_pkg_name("demo", &target, CompileMode::Build),
        "`demo` (lib)"
    );
    assert_eq!(
        rustc_dep_info_loc(b"/out", "demo", &Some("45".to_owned())),
        b"/out/demo-45.d".to_vec()
    );
    assert_eq!(
        rustc_dep_info_loc(b"/out", "demo", &None),
        b"/out/demo.d".to_vec()
    );
    let text = make_failed_scrape_diagnostic("failed", b"/ws/a/Cargo.toml", b"/ws");
    assert!(text.starts_with("failed\n    Try running with `--verbose`"));
    assert!(text.ends_with("definition in a/Cargo.toml"));
}

#[test]
fn incremental_linking_starts_from_a_clean_environment() {
    let mut command = Command::new("rustc");
    command.env("SLD_INCREMENTAL", b"0");
    command.env("SLD_INCREMENTAL_PADDING_PERCENT", b"5");
    configure_sld_native_incremental_root(&mut command, &None, &Some(b"2".to_vec()), &None);
    assert_eq!(command.get_env("SLD_INCREMENTAL"), Some(b"1".to_vec()));
    assert_eq!(command.get_env("SLD_INCREMENTAL_PADDING_PERCENT"), None);
    assert_eq!(
        command.get_env("SLD_RUSTC_WORK_PRODUCT_PROVENANCE"),
        Some(b"2".to_vec())
    );
    assert_eq!(
        command.get_env("SLD_STABILIZE_RUSTC_TRANSIENT_INPUTS"),
        Some(b"1".to_vec())
    );
    assert!(sld_native_incremental_root_output(
        true,
        "aarch64-apple-darwin",
        true,
        true,
        CompileMode::Build
    ));
    assert!(!sld_native_incremental_root_output(
        true,
        "x86_64-apple-darwin",
        true,
        true,
        CompileMode::Build
    ));
    assert_eq!(
        warn_if_sld_native_incremental_unsupported(
            true,
            false,
            "x86_64-unknown-linux-gnu",
            &Vec::new()
        ),
        Some(SldWarning::UnsupportedHost)
    );
    assert_eq!(
        warn_if_sld_native_incremental_unsupported(
            true,
            false,
            "aarch64-apple-darwin",
            &strings(&["aarch64-apple-darwin", "wasm32-unknown-unknown"])
        ),
        Some(SldWarning::UnsupportedTarget)
    );
}

#[test]
fn copies_are_tried_again_on_macos_only() {
    assert_eq!(
        copy_sld_native_incremental_artifact(CopyAttempt::Again, true, 10),
        CopyStep::Retry(9)
    );
    assert_eq!(
        copy_sld_native_incremental_artifact(CopyAttempt::Again, true, 0),
        CopyStep::Fail
    );
    assert_eq!(
        copy_sld_native_incremental_artifact(CopyAttempt::Again, false, 10),
        CopyStep::Fail
    );
    assert_eq!(
        copy_sld_native_incremental_artifact(CopyAttempt::Copied, false, 0),
        CopyStep::Done
    );
}
