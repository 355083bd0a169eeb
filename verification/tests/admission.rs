use artifact_cache::admission::rlib_action_is_cacheable;
use artifact_cache::admission::rlib_action_is_cacheable_with_search_paths;
use artifact_cache::admission::unmodeled_rustc_action_reason;
use artifact_cache::command::Command;
use artifact_cache::stats::IneligibleReason;
use artifact_cache::unit::artifact_cache_compile_mode_is_supported;
use artifact_cache::unit::CompileMode;

const OUTPUT_ROOT: &[u8] = b"target/debug/deps";
const COMPILER: &[u8] = b"rustc";
const HOST: &str = "aarch64-apple-darwin";

fn ordinary_library_command(emit: &str) -> Command {
    let mut rustc = Command::new("rustc");
    rustc.arg("--crate-type");
    rustc.arg("lib");
    rustc.arg(&format!("--emit={emit}"));
    rustc.arg("--out-dir");
    rustc.arg("target/debug/deps");
    rustc
}

fn ordinary_rlib_command() -> Command {
    ordinary_library_command("dep-info,metadata,link")
}

fn with(arguments: &[&str]) -> Command {
    let mut rustc = ordinary_rlib_command();
    for argument in arguments {
        rustc.arg(argument);
    }
    rustc
}

fn cacheable(rustc: &Command) -> bool {
    rlib_action_is_cacheable(rustc, OUTPUT_ROOT, COMPILER, HOST)
}

#[test]
fn unmodeled_action_reasons_distinguish_wrappers_and_dynamic_externs() {
    let mut dynamic_extern = ordinary_library_command("dep-info,metadata");
    dynamic_extern.arg("--extern");
    dynamic_extern.arg("derive=/target/libderive.dylib");
    assert_eq!(
        unmodeled_rustc_action_reason(&dynamic_extern),
        IneligibleReason::DynamicExtern
    );
    let mut compact_dynamic_extern = ordinary_library_command("dep-info,metadata");
    compact_dynamic_extern.arg("--extern=derive=/target/libderive.so");
    assert_eq!(
        unmodeled_rustc_action_reason(&compact_dynamic_extern),
        IneligibleReason::DynamicExtern
    );

    let mut wrapped = ordinary_library_command("dep-info,metadata");
    wrapped.wrap("clippy-driver");
    assert_eq!(
        unmodeled_rustc_action_reason(&wrapped),
        IneligibleReason::CompilerWrapper
    );

    let mut other = ordinary_library_command("dep-info,metadata");
    other.arg("--test");
    assert_eq!(
        unmodeled_rustc_action_reason(&other),
        IneligibleReason::UnmodeledRustcAction
    );
}

#[test]
fn metadata_only_library_actions_are_cacheable() {
    assert!(cacheable(&ordinary_library_command("dep-info,metadata")));
}

#[test]
fn metadata_only_test_actions_remain_ineligible() {
    assert!(artifact_cache_compile_mode_is_supported(CompileMode::Build));
    assert!(artifact_cache_compile_mode_is_supported(
        CompileMode::Check { test: false }
    ));
    assert!(!artifact_cache_compile_mode_is_supported(
        CompileMode::Check { test: true }
    ));
}

#[test]
fn profile_inputs_are_not_cacheable() {
    assert!(cacheable(&ordinary_rlib_command()));
    for flag in [
        "profile-use",
        "profile_use",
        "profile-sample-use",
        "profile_sample_use",
    ] {
        assert!(!cacheable(&with(&[&format!("-C{flag}=profile.profdata")])));
        assert!(!cacheable(&with(&[
            "-C",
            &format!("{flag}=profile.profdata")
        ])));
    }
}

#[test]
fn profile_generation_is_cacheable() {
    assert!(cacheable(&with(&["-Cprofile-generate=profile-output"])));
    assert!(cacheable(&with(&["-C", "profile-generate=profile-output"])));
}

#[test]
fn arbitrary_llvm_arguments_are_not_cacheable() {
    for flag in ["llvm-args", "llvm_args"] {
        assert!(!cacheable(&with(&[&format!(
            "-C{flag}=-load=/path/to/plugin.dylib"
        )])));
        assert!(!cacheable(&with(&[
            "-C",
            &format!("{flag}=-load=/path/to/plugin.dylib")
        ])));
    }
}

#[test]
fn host_cpu_detection_is_not_cacheable() {
    for flag in ["target-cpu", "target_cpu"] {
        assert!(!cacheable(&with(&[&format!("-C{flag}=native")])));
        assert!(!cacheable(&with(&["-C", &format!("{flag}=native")])));
    }
}

#[test]
fn temporary_outputs_are_not_cacheable() {
    for flag in ["save-temps", "save_temps"] {
        assert!(!cacheable(&with(&[&format!("-C{flag}")])));
        assert!(!cacheable(&with(&["-C", flag])));
    }
}

#[test]
fn compact_output_overrides_are_not_cacheable() {
    assert!(!cacheable(&with(&["-ocustom-output"])));
}

#[test]
fn compiler_dispatch_and_backend_controls_are_not_cacheable() {
    for (key, value) in [
        ("PATH", "/configured/compiler/path"),
        ("CG_CLIF_FORCE_GNU_AS", "1"),
        ("CG_CLIF_DISABLE_INCR_CACHE", "1"),
        ("CG_CLIF_ENABLE_VERIFIER", "1"),
        ("CG_CLIF_JIT_ARGS", "--example"),
        ("CG_GCCJIT_DUMP_TO_FILE", "1"),
    ] {
        let mut rustc = ordinary_rlib_command();
        rustc.env(key, value.as_bytes());
        assert!(
            !cacheable(&rustc),
            "{key} should disable cache restoration"
        );
    }
}

#[test]
fn path_backed_codegen_backends_are_not_cacheable() {
    for flag in ["codegen-backend", "codegen_backend"] {
        assert!(!cacheable(&with(&[&format!(
            "-Z{flag}=path/to/backend.dylib"
        )])));
        assert!(!cacheable(&with(&[
            "-Z",
            &format!("{flag}=path/to/backend.dylib")
        ])));
    }
    assert!(cacheable(&with(&["-Z", "codegen-backend=cranelift"])));
    assert!(cacheable(&with(&["-Zcodegen-backend=cranelift"])));
}

#[test]
fn duplicate_constant_preservation_is_cacheable_only_with_modeled_values() {
    for value in ["yes", "no"] {
        assert!(cacheable(&with(&[&format!(
            "-Zpreserve-duplicate-constants={value}"
        )])));
        assert!(cacheable(&with(&[
            "-Z",
            &format!("preserve-duplicate-constants={value}")
        ])));
    }
    for option in [
        "preserve-duplicate-constants",
        "preserve-duplicate-constants=maybe",
    ] {
        assert!(!cacheable(&with(&[&format!("-Z{option}")])));
        assert!(!cacheable(&with(&["-Z", option])));
    }
}

#[test]
fn sld_provenance_with_duplicate_constant_preservation_is_cacheable() {
    let mut command = ordinary_rlib_command();
    command.arg("-Zpreserve-duplicate-constants=yes");
    command.env("SLD_RUSTC_WORK_PRODUCT_PROVENANCE", b"1");
    assert!(cacheable(&command));
}

#[test]
fn checksum_freshness_hash_algorithm_is_cacheable() {
    assert!(cacheable(&with(&["-Z", "checksum-hash-algorithm=blake3"])));
    assert!(cacheable(&with(&["-Zchecksum-hash-algorithm=blake3"])));
    assert!(!cacheable(&with(&[
        "-Z",
        "checksum-hash-algorithm=unmodeled"
    ])));
}

#[test]
fn unmodeled_unstable_options_are_not_cacheable() {
    for option in [
        "llvm-plugins=path/to/plugin.dylib",
        "sanitizer-dataflow-abilist=path/to/list.txt",
        "remark-dir=path/to/remarks",
        "metrics-dir=path/to/metrics",
        "self-profile=path/to/profile",
    ] {
        assert!(!cacheable(&with(&[&format!("-Z{option}")])));
        assert!(!cacheable(&with(&["-Z", option])));
    }
}

#[test]
fn custom_target_specs_are_not_cacheable() {
    assert!(!cacheable(&with(&["--target=custom-target.json"])));
    assert!(!cacheable(&with(&[
        "--target",
        "path/to/custom-target.json"
    ])));
}

#[test]
fn explicit_sysroots_are_not_cacheable() {
    assert!(!cacheable(&with(&["--sysroot=path/to/sysroot"])));
    assert!(!cacheable(&with(&["--sysroot", "path/to/sysroot"])));
}

#[test]
fn custom_target_search_paths_are_not_cacheable() {
    let mut rustc = ordinary_rlib_command();
    rustc.env("RUST_TARGET_PATH", b"path/to/targets");
    assert!(!cacheable(&rustc));
}

#[test]
fn unmodeled_dependency_search_paths_are_not_cacheable() {
    let rustc = with(&["-L", "dependency=target/debug/deps"]);
    assert!(!cacheable(&rustc));
    assert!(rlib_action_is_cacheable_with_search_paths(
        &rustc,
        OUTPUT_ROOT,
        b"rustc",
        COMPILER,
        HOST,
        &vec![b"dependency=target/debug/deps".to_vec()],
    ));
}

#[test]
fn windows_gnu_targets_are_not_cacheable() {
    assert!(!rlib_action_is_cacheable(
        &ordinary_rlib_command(),
        OUTPUT_ROOT,
        COMPILER,
        "x86_64-pc-windows-gnu"
    ));
    assert!(!cacheable(&with(&["--target", "x86_64-pc-windows-gnu"])));
    assert!(!cacheable(&with(&["--target=x86_64-pc-windows-gnullvm"])));
}

#[test]
fn non_utf8_arguments_and_environment_are_not_cacheable() {
    let mut arg = ordinary_rlib_command();
    arg.raw_arg(vec![0xff]);
    assert!(!cacheable(&arg));

    let mut env = ordinary_rlib_command();
    env.env("ARTIFACT_CACHE_NON_UTF8_TEST", &[0xff]);
    assert!(!cacheable(&env));
}

#[test]
fn another_program_is_not_cacheable() {
    assert!(!rlib_action_is_cacheable_with_search_paths(
        &ordinary_rlib_command(),
        OUTPUT_ROOT,
        b"/usr/bin/driver",
        b"/usr/bin/rustc",
        HOST,
        &Vec::new(),
    ));
    assert!(rlib_action_is_cacheable_with_search_paths(
        &ordinary_rlib_command(),
        OUTPUT_ROOT,
        b"/usr//bin/rustc",
        b"/usr/bin/rustc",
        HOST,
        &Vec::new(),
    ));
}

#[test]
fn codegen_spellings_are_admitted_alike() {
    for (option, admitted) in [
        ("profile-use=data", false),
        ("profile_use=data", false),
        ("save-temps=yes", false),
        ("save_temps=yes", false),
        ("target-cpu=native", false),
        ("target_cpu=native", false),
        ("target-cpu=generic", true),
        ("target_cpu=generic", true),
        ("opt-level=3", true),
        ("opt_level=3", true),
    ] {
        let compact = format!("-C{option}");
        assert_eq!(cacheable(&with(&[&compact])), admitted, "{compact}");
        assert_eq!(cacheable(&with(&["-C", option])), admitted, "-C {option}");
        assert_eq!(
            cacheable(&with(&[&compact, "-C", "debuginfo=2"])),
            admitted,
            "{compact}"
        );
    }
    assert!(!cacheable(&with(&["-Clink-arg=-s"])));
    assert!(!cacheable(&with(&["-C", "link-arg=-s"])));
}
