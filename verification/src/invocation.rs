//! Whole invocations of the compiler and the documentation tool, as far as they
//! are known before anything runs.

use vstd::prelude::*;
use vstd::string::*;
use vstd::utf8::*;

use crate::arguments::flag;
use crate::arguments::lemma_no_words;
use crate::arguments::no_words;
use crate::arguments::push_flag;
use crate::arguments::push_joined_flag;
use crate::arguments::push_raw_word;
use crate::arguments::push_repeated_flag;
use crate::arguments::push_text_flag;
use crate::arguments::push_text_words;
use crate::arguments::push_word;
use crate::arguments::push_words;
use crate::arguments::repeated_flag;
use crate::arguments::text_and_bytes;
use crate::arguments::text_flag;
use crate::arguments::text_words;
use crate::arguments::word;
use crate::arguments::Words;
use crate::base_arguments::add_allow_features;
use crate::base_arguments::add_error_format_and_color;
use crate::base_arguments::allow_features_words;
use crate::base_arguments::base_words;
use crate::base_arguments::build_base_args;
use crate::base_arguments::check_cfg_args;
use crate::base_arguments::check_cfg_words;
use crate::base_arguments::error_format_words;
use crate::base_arguments::feature_words;
use crate::base_arguments::features_args;
use crate::base_arguments::hint_warnings;
use crate::base_arguments::BaseFacts;
use crate::base_arguments::HintWarning;
use crate::bytes::copy_bytes;
use crate::bytes::optional;
use crate::bytes::utf8;
use crate::command::explicit_setting;
use crate::command::with_setting;
use crate::command::Command;
use crate::dependency_arguments::has_metadata;
use crate::dependency_arguments::Dependency;
use crate::dependency_arguments::ExternFacts;
use crate::dependency_arguments::SearchFacts;
use crate::digest::lossy_text;
use crate::digest::text_from_utf8;
use crate::digest::text_from_utf8_lossy;
use crate::link_arguments::build_deps_args;
use crate::link_arguments::dependency_settings;
use crate::link_arguments::dependency_words;
use crate::link_arguments::ScriptVariable;
use crate::remap::trim_paths_args_rustdoc;
use crate::remap::trim_paths_rustdoc_words;
use crate::sld::Settings;
use crate::text::has_prefix;
use crate::text::texts;
use crate::unit::CompileMode;
use crate::unix_path::byte_strings;
use crate::unix_path::join_path;
use crate::unix_path::join_path_list;
use crate::unix_path::joined;
use crate::unix_path::path_below;
use crate::unix_path::path_list;
use crate::unix_path::strip_path_prefix;
use crate::work_product::path_with_extension;
use crate::work_product::with_extension;

verus! {

/// The dependencies of a unit, and how their arguments are written.
pub struct DependencyFacts {
    pub search: SearchFacts,
    pub unit: usize,
    pub externs: ExternFacts,
    pub dependencies: Vec<Dependency>,
    pub multiple_build_scripts: bool,
    pub artifacts: Vec<ScriptVariable>,
}

impl DependencyFacts {
    /// Whether the facts fit together.
    pub open spec fn well_formed(&self) -> bool {
        self.search.well_formed() && self.unit < self.search.deps_dirs@.len() && has_metadata(
            self.dependencies@,
        )
    }

    /// The arguments for the dependencies.
    pub open spec fn words(&self) -> Words {
        dependency_words(self.search, self.unit as int, self.externs, self.dependencies@)
    }

    /// Settings with those for the dependencies.
    pub open spec fn settings(&self, list: Settings) -> Settings {
        dependency_settings(
            list,
            self.dependencies@,
            self.multiple_build_scripts,
            self.artifacts@,
        )
    }
}

/// What a whole invocation of the compiler depends on.
pub struct RustcFacts {
    pub base: BaseFacts,
    pub dependencies: DependencyFacts,
    /// Whether the manifest stands in the source.
    pub is_embedded: bool,
    pub script_enabled: bool,
    pub is_local: bool,
    pub extra_args: Option<Vec<String>>,
    pub rustflags: Vec<String>,
    pub binary_dep_depinfo: bool,
    pub checksum_freshness: bool,
    pub is_primary: bool,
    pub sbom_files: Vec<Vec<u8>>,
    /// Where tests write temporary files, if the unit is a test or a benchmark.
    pub test_directory: Option<Vec<u8>>,
}

/// Why an invocation cannot be prepared.
#[derive(Clone, Copy, Debug, PartialEq, Eq, Structural)]
pub enum PrepareError {
    /// A manifest in a source has to be asked for.
    ScriptNotEnabled,
    /// The paths of bills of materials cannot stand in one variable.
    UnjoinableSbomPaths,
}

/// The arguments for a manifest that stands in a source.
pub open spec fn embedded_words(is_embedded: bool) -> Words {
    if is_embedded {
        text_flag("-Z"@, "crate-attr=feature(frontmatter)"@) + text_flag(
            "-Z"@,
            "crate-attr=allow(unused_features)"@,
        )
    } else {
        no_words()
    }
}

/// Adds the arguments for a manifest that stands in a source.
fn push_embedded(out: &mut Vec<Vec<u8>>, is_embedded: bool)
    ensures
        byte_strings(final(out)@) == byte_strings(old(out)@) + embedded_words(is_embedded),
{
    let ghost before = byte_strings(out@);
    if is_embedded {
        push_text_flag(out, "-Z", "crate-attr=feature(frontmatter)");
        push_text_flag(out, "-Z", "crate-attr=allow(unused_features)");
    }
    proof {
        assert(byte_strings(out@) =~= before + embedded_words(is_embedded));
    }
}

/// The arguments that keep lints of others quiet: silent where warnings are not
/// shown, and no errors where the package is not local.
pub open spec fn cap_lints_words(show_warnings: bool, is_local: bool) -> Words {
    if !show_warnings {
        text_flag("--cap-lints"@, "allow"@)
    } else if !is_local {
        text_flag("--cap-lints"@, "warn"@)
    } else {
        no_words()
    }
}

/// Adds the arguments that keep lints of others quiet.
pub fn add_cap_lints(out: &mut Vec<Vec<u8>>, show_warnings: bool, is_local: bool)
    ensures
        byte_strings(final(out)@) == byte_strings(old(out)@) + cap_lints_words(
            show_warnings,
            is_local,
        ),
{
    proof {
        lemma_no_words(byte_strings(out@));
    }
    if !show_warnings {
        push_text_flag(out, "--cap-lints", "allow");
    } else if !is_local {
        push_text_flag(out, "--cap-lints", "warn");
    }
}

/// The arguments that users add.
pub open spec fn extra_words(extra: Option<Vec<String>>) -> Words {
    match extra {
        Some(list) => text_words(list@),
        None => no_words(),
    }
}

/// Adds the arguments that users add.
fn push_extra(out: &mut Vec<Vec<u8>>, extra: &Option<Vec<String>>)
    ensures
        byte_strings(final(out)@) == byte_strings(old(out)@) + extra_words(*extra),
{
    proof {
        lemma_no_words(byte_strings(out@));
    }
    match extra {
        Some(list) => push_text_words(out, list),
        None => {},
    }
}

/// The arguments on what counts as a change.
pub open spec fn freshness_words(facts: RustcFacts) -> Words {
    (if facts.binary_dep_depinfo {
        text_flag("-Z"@, "binary-dep-depinfo"@)
    } else {
        no_words()
    }) + if facts.checksum_freshness {
        text_flag("-Z"@, "checksum-hash-algorithm=blake3"@)
    } else {
        no_words()
    }
}

/// Adds the arguments on what counts as a change.
fn push_freshness(out: &mut Vec<Vec<u8>>, facts: &RustcFacts)
    ensures
        byte_strings(final(out)@) == byte_strings(old(out)@) + freshness_words(*facts),
{
    let ghost before = byte_strings(out@);
    if facts.binary_dep_depinfo {
        push_text_flag(out, "-Z", "binary-dep-depinfo");
    }
    if facts.checksum_freshness {
        push_text_flag(out, "-Z", "checksum-hash-algorithm=blake3");
    }
    proof {
        assert(byte_strings(out@) =~= before + freshness_words(*facts));
    }
}

/// The argument that is added last, so that nothing interferes with it.
pub open spec fn lint_words(cargo_lints: bool) -> Words {
    if cargo_lints {
        word("--force-warn=unused_crate_dependencies"@)
    } else {
        no_words()
    }
}

/// The arguments of an invocation of the compiler.
pub open spec fn rustc_words(facts: RustcFacts) -> Words {
    base_words(facts.base) + embedded_words(facts.is_embedded) + facts.dependencies.words()
        + cap_lints_words(facts.base.show_warnings, facts.is_local) + extra_words(facts.extra_args)
        + text_words(facts.rustflags@) + freshness_words(facts) + lint_words(
        facts.base.output.cargo_lints,
    )
}

/// The settings of an invocation of the compiler.
pub open spec fn rustc_settings(facts: RustcFacts, list: Settings) -> Settings {
    let bootstrap = if facts.base.is_std {
        with_setting(list, "RUSTC_BOOTSTRAP"@, Some(utf8("1"@)))
    } else {
        list
    };
    with_package(facts, facts.dependencies.settings(bootstrap))
}

/// Whether the paths of bills of materials are needed and cannot stand in one
/// variable.
pub open spec fn has_unjoinable_sbom(facts: RustcFacts) -> bool {
    facts.is_primary && facts.sbom_files@.len() > 0 && path_list(
        byte_strings(facts.sbom_files@),
    ) is None
}

/// Why an invocation of the compiler cannot be prepared.
pub open spec fn rustc_error(facts: RustcFacts) -> Option<PrepareError> {
    if facts.is_embedded && !facts.script_enabled {
        Some(PrepareError::ScriptNotEnabled)
    } else if has_unjoinable_sbom(facts) {
        Some(PrepareError::UnjoinableSbomPaths)
    } else {
        None
    }
}

/// Settings with those that tell what is compiled.
pub open spec fn with_package(facts: RustcFacts, list: Settings) -> Settings {
    let primary = if facts.is_primary {
        with_setting(list, "CARGO_PRIMARY_PACKAGE"@, Some(utf8("1"@)))
    } else {
        list
    };
    let sbom = if facts.is_primary && facts.sbom_files@.len() > 0 {
        with_setting(primary, "CARGO_SBOM_PATH"@, path_list(byte_strings(facts.sbom_files@)))
    } else {
        primary
    };
    match facts.test_directory {
        Some(directory) => with_setting(
            sbom,
            "CARGO_TARGET_TMPDIR"@,
            Some(utf8(lossy_text(directory@))),
        ),
        None => sbom,
    }
}

/// Sets the variables that tell what is compiled.
fn set_package_variables(command: &mut Command, facts: &RustcFacts) -> (result: Result<
    (),
    PrepareError,
>)
    requires
        old(command).well_formed(),
    ensures
        final(command).well_formed(),
        final(command).wrappers == old(command).wrappers,
        final(command).program == old(command).program,
        final(command).arguments == old(command).arguments,
        final(command).directory == old(command).directory,
        final(command).inherited == old(command).inherited,
        final(command).retry_with_argfile == old(command).retry_with_argfile,
        match result {
            Ok(_) => !has_unjoinable_sbom(*facts) && final(command).setting_list() == with_package(
                *facts,
                old(command).setting_list(),
            ),
            Err(error) => has_unjoinable_sbom(*facts) && error == PrepareError::UnjoinableSbomPaths,
        },
{
    if facts.is_primary {
        command.env("CARGO_PRIMARY_PACKAGE", "1".as_bytes());
        if facts.sbom_files.len() > 0 {
            match join_path_list(&facts.sbom_files) {
                None => {
                    return Err(PrepareError::UnjoinableSbomPaths);
                },
                Some(list) => {
                    command.env("CARGO_SBOM_PATH", list.as_slice());
                },
            }
        }
    }
    match &facts.test_directory {
        Some(directory) => {
            let text = text_from_utf8_lossy(directory.as_slice());
            command.env("CARGO_TARGET_TMPDIR", text.as_str().as_bytes());
        },
        None => {},
    }
    Ok(())
}

/// Arguments one behind the other, however they are grouped.
proof fn lemma_grouped(
    before: Words,
    a: Words,
    b: Words,
    c: Words,
    d: Words,
    e: Words,
    f: Words,
    g: Words,
    h: Words,
)
    ensures
        before + a + b + c + d + e + f + g + h == before + (a + b + c + d + e + f + g + h),
{
    assert(before + a + b + c + d + e + f + g + h =~= before + (a + b + c + d + e + f + g + h));
}

/// Prepares an invocation of the compiler from `base`, and tells what users are
/// warned of.
#[verifier::rlimit(60)]
pub fn prepare_rustc(base: Command, facts: &RustcFacts) -> (result: Result<
    (Command, Vec<HintWarning>),
    PrepareError,
>)
    requires
        base.well_formed(),
        facts.base.mode != CompileMode::RunCustomBuild,
        facts.dependencies.well_formed(),
    ensures
        match result {
            Ok((command, warnings)) => rustc_error(*facts) is None && command.well_formed()
                && byte_strings(command.arguments@) == byte_strings(base.arguments@) + rustc_words(
                *facts,
            ) && command.setting_list() == rustc_settings(*facts, base.setting_list())
                && command.program == base.program && command.wrappers == base.wrappers
                && command.inherited == base.inherited && command.retry_with_argfile
                    == base.retry_with_argfile && optional(command.directory) == Some(
                facts.base.cwd@,
            ) && warnings@ == hint_warnings(facts.base),
            Err(error) => rustc_error(*facts) == Some(error),
        },
{
    let mut command = base;
    let ghost before = byte_strings(command.arguments@);
    let ghost start = command.setting_list();
    let warnings = build_base_args(&mut command.arguments, &facts.base);
    command.directory = Some(copy_bytes(facts.base.cwd.as_slice()));
    proof {
        assert(command.setting_list() == start);
    }
    if facts.base.is_std {
        command.env("RUSTC_BOOTSTRAP", "1".as_bytes());
    }
    if facts.is_embedded && !facts.script_enabled {
        return Err(PrepareError::ScriptNotEnabled);
    }
    let ghost with_base = command.setting_list();
    push_embedded(&mut command.arguments, facts.is_embedded);
    proof {
        assert(command.setting_list() == with_base);
    }
    build_deps_args(
        &mut command,
        &facts.dependencies.search,
        facts.dependencies.unit,
        &facts.dependencies.externs,
        &facts.dependencies.dependencies,
        facts.dependencies.multiple_build_scripts,
        &facts.dependencies.artifacts,
    );
    let ghost with_deps = command.setting_list();
    add_cap_lints(&mut command.arguments, facts.base.show_warnings, facts.is_local);
    push_extra(&mut command.arguments, &facts.extra_args);
    push_text_words(&mut command.arguments, &facts.rustflags);
    push_freshness(&mut command.arguments, facts);
    proof {
        assert(command.setting_list() == with_deps);
    }
    match set_package_variables(&mut command, facts) {
        Ok(_) => {},
        Err(error) => {
            return Err(error);
        },
    }
    let ghost last = command.setting_list();
    proof {
        lemma_no_words(byte_strings(command.arguments@));
    }
    if facts.base.output.cargo_lints {
        push_word(&mut command.arguments, "--force-warn=unused_crate_dependencies");
    }
    proof {
        assert(command.setting_list() == last);
        lemma_grouped(
            before,
            base_words(facts.base),
            embedded_words(facts.is_embedded),
            facts.dependencies.words(),
            cap_lints_words(facts.base.show_warnings, facts.is_local),
            extra_words(facts.extra_args),
            text_words(facts.rustflags@),
            freshness_words(*facts),
            lint_words(facts.base.output.cargo_lints),
        );
    }
    Ok((command, warnings))
}

/// What a whole invocation of the documentation tool depends on.
pub struct RustdocFacts {
    pub base: BaseFacts,
    pub dependencies: DependencyFacts,
    pub is_embedded: bool,
    pub script_enabled: bool,
    pub is_local: bool,
    /// Where the documentation goes.
    pub doc_dir: Vec<u8>,
    /// Whether the tool tells what it has read, and where it writes that to.
    pub rustdoc_depinfo: bool,
    pub dep_info_loc: Vec<u8>,
    /// Whether what is shared between crates is merged at the end, and where it
    /// is until then.
    pub mergeable_info: bool,
    pub parts_dir: Vec<u8>,
    pub checksum_freshness: bool,
    pub doc_metadata: String,
    pub is_test: bool,
    /// Where examples that are found in the unit go.
    pub scrape_output: Vec<u8>,
    /// The crates whose use is looked for.
    pub scrape_crates: Vec<String>,
    /// Whether examples from other units are shown.
    pub include_scraped: bool,
    pub root_url_args: Vec<String>,
    pub output_format_args: Vec<String>,
    pub extra_args: Option<Vec<String>>,
    pub rustdocflags: Vec<String>,
    pub package_version: String,
}

/// The arguments on what the documentation tool writes.
pub open spec fn rustdoc_emit_words(facts: RustdocFacts) -> Words {
    (if facts.rustdoc_depinfo {
        seq![
            utf8(
                if facts.mergeable_info {
                    "--emit=html-non-static-files,dep-info="@
                } else {
                    "--emit=html-static-files,html-non-static-files,dep-info="@
                },
            ) + facts.dep_info_loc@,
        ] + (if facts.checksum_freshness {
            text_flag("-Z"@, "checksum-hash-algorithm=blake3"@)
        } else {
            no_words()
        }) + word("-Zunstable-options"@)
    } else if facts.mergeable_info {
        word("--emit=html-non-static-files"@) + word("-Zunstable-options"@)
    } else {
        no_words()
    }) + if facts.mergeable_info {
        word("--merge=none"@) + seq![utf8("--parts-out-dir="@) + facts.parts_dir@]
    } else {
        no_words()
    }
}

/// Adds the arguments on what the documentation tool writes.
fn push_rustdoc_emit(out: &mut Vec<Vec<u8>>, facts: &RustdocFacts)
    ensures
        byte_strings(final(out)@) == byte_strings(old(out)@) + rustdoc_emit_words(*facts),
{
    let ghost before = byte_strings(out@);
    if facts.rustdoc_depinfo {
        let argument = if facts.mergeable_info {
            text_and_bytes(
                "--emit=html-non-static-files,dep-info=",
                facts.dep_info_loc.as_slice(),
            )
        } else {
            text_and_bytes(
                "--emit=html-static-files,html-non-static-files,dep-info=",
                facts.dep_info_loc.as_slice(),
            )
        };
        push_raw_word(out, argument.as_slice());
        if facts.checksum_freshness {
            push_text_flag(out, "-Z", "checksum-hash-algorithm=blake3");
        }
        push_word(out, "-Zunstable-options");
    } else if facts.mergeable_info {
        push_word(out, "--emit=html-non-static-files");
        push_word(out, "-Zunstable-options");
    }
    if facts.mergeable_info {
        push_word(out, "--merge=none");
        let argument = text_and_bytes("--parts-out-dir=", facts.parts_dir.as_slice());
        push_raw_word(out, argument.as_slice());
    }
    proof {
        assert(byte_strings(out@) =~= before + rustdoc_emit_words(*facts));
    }
}

/// The arguments for gathering examples.
pub open spec fn scrape_words(facts: RustdocFacts) -> Words {
    (if facts.base.mode == CompileMode::Docscrape {
        (if facts.is_test {
            word("--scrape-tests"@)
        } else {
            no_words()
        }) + word("-Zunstable-options"@) + flag(
            "--scrape-examples-output-path"@,
            facts.scrape_output@,
        ) + repeated_flag("--scrape-examples-target-crate"@, texts(facts.scrape_crates@))
    } else {
        no_words()
    }) + if facts.include_scraped {
        word("-Zunstable-options"@)
    } else {
        no_words()
    }
}

/// Adds the arguments for gathering examples.
fn push_scrape(out: &mut Vec<Vec<u8>>, facts: &RustdocFacts)
    ensures
        byte_strings(final(out)@) == byte_strings(old(out)@) + scrape_words(*facts),
{
    let ghost before = byte_strings(out@);
    let scrape = match facts.base.mode {
        CompileMode::Docscrape => true,
        _ => false,
    };
    if scrape {
        if facts.is_test {
            push_word(out, "--scrape-tests");
        }
        push_word(out, "-Zunstable-options");
        push_flag(out, "--scrape-examples-output-path", facts.scrape_output.as_slice());
        push_repeated_flag(out, "--scrape-examples-target-crate", &facts.scrape_crates);
    }
    if facts.include_scraped {
        push_word(out, "-Zunstable-options");
    }
    proof {
        assert(byte_strings(out@) =~= before + scrape_words(*facts));
    }
}

/// The argument for trimmed paths.
pub open spec fn rustdoc_trimming_words(facts: RustdocFacts) -> Words {
    match facts.base.profile.trim_paths {
        Some(trim_paths) => trim_paths_rustdoc_words(facts.base.remap, trim_paths),
        None => no_words(),
    }
}

/// The arguments of an invocation of the documentation tool, but for the
/// version of the crate.
pub open spec fn rustdoc_words(facts: RustdocFacts) -> Words {
    embedded_words(facts.is_embedded) + text_flag("--crate-name"@, facts.base.crate_name@)
        + seq![facts.base.source_path@] + cap_lints_words(facts.base.show_warnings, facts.is_local)
        + text_words(facts.base.target_args@) + flag("-o"@, facts.doc_dir@) + feature_words(
        texts(facts.base.features@),
    ) + check_cfg_words(texts(facts.base.declared_features@)) + error_format_words(
        facts.base.output,
    ) + allow_features_words(facts.base.output.allow_features) + rustdoc_emit_words(facts)
        + rustdoc_trimming_words(facts) + text_words(facts.base.lint_rustflags@) + text_flag(
        "-C"@,
        "metadata="@ + facts.doc_metadata@,
    ) + scrape_words(facts) + facts.dependencies.words() + text_words(facts.root_url_args@)
        + text_words(facts.output_format_args@) + extra_words(facts.extra_args) + text_words(
        facts.rustdocflags@,
    )
}

/// Whether an argument is text that begins with the flag for the version of the
/// crate.
pub open spec fn is_version_flag(argument: Seq<u8>) -> bool {
    valid_utf8(argument) && "--crate-version"@.is_prefix_of(decode_utf8(argument))
}

/// Whether the version of the crate is among arguments already.
pub open spec fn has_version_flag(words: Words) -> bool {
    exists|i: int| 0 <= i < words.len() && is_version_flag(#[trigger] words[i])
}

/// Whether the version of the crate is among the arguments already: users can
/// pass it themselves.
pub fn crate_version_flag_already_present(arguments: &Vec<Vec<u8>>) -> (present: bool)
    ensures
        present == has_version_flag(byte_strings(arguments@)),
{
    let ghost all = byte_strings(arguments@);
    let mut index: usize = 0;
    while index < arguments.len()
        invariant
            index <= arguments@.len(),
            all == byte_strings(arguments@),
            forall|i: int| 0 <= i < index ==> !is_version_flag(#[trigger] all[i]),
        decreases arguments@.len() - index,
    {
        proof {
            assert(all[index as int] == arguments@[index as int]@);
        }
        match text_from_utf8(arguments[index].as_slice()) {
            Some(text) => {
                proof {
                    encode_utf8_decode_utf8(text@);
                }
                if has_prefix(text, "--crate-version") {
                    return true;
                }
            },
            None => {},
        }
        index = index + 1;
    }
    false
}

/// Adds the version of the crate.
pub fn append_crate_version_flag(out: &mut Vec<Vec<u8>>, version: &str)
    ensures
        byte_strings(final(out)@) == byte_strings(old(out)@) + text_flag(
            "--crate-version"@,
            version@,
        ),
{
    push_text_flag(out, "--crate-version", version);
}

/// Prepares an invocation of the documentation tool from `base`.
pub fn prepare_rustdoc(base: Command, facts: &RustdocFacts) -> (result: Result<
    Command,
    PrepareError,
>)
    requires
        base.well_formed(),
        facts.dependencies.well_formed(),
    ensures
        match result {
            Ok(command) => (facts.is_embedded ==> facts.script_enabled) && command.well_formed() && ({
                let words = byte_strings(base.arguments@) + rustdoc_words(*facts);
                byte_strings(command.arguments@) == words + if has_version_flag(words) {
                    no_words()
                } else {
                    text_flag("--crate-version"@, facts.package_version@)
                }
            }) && command.setting_list() == facts.dependencies.settings(base.setting_list())
                && command.program == base.program && command.wrappers == base.wrappers
                && command.inherited == base.inherited && command.retry_with_argfile
                    == base.retry_with_argfile && optional(command.directory) == Some(
                facts.base.cwd@,
            ),
            Err(error) => facts.is_embedded && !facts.script_enabled && error
                == PrepareError::ScriptNotEnabled,
        },
{
    if facts.is_embedded && !facts.script_enabled {
        return Err(PrepareError::ScriptNotEnabled);
    }
    let mut command = base;
    let ghost before = byte_strings(command.arguments@);
    let ghost start = command.setting_list();
    let mut list: Vec<Vec<u8>> = Vec::new();
    proof {
        assert(byte_strings(list@) =~= no_words());
        lemma_no_words(embedded_words(facts.is_embedded));
    }
    push_embedded(&mut list, facts.is_embedded);
    push_text_flag(&mut list, "--crate-name", facts.base.crate_name.as_str());
    push_raw_word(&mut list, facts.base.source_path.as_slice());
    add_cap_lints(&mut list, facts.base.show_warnings, facts.is_local);
    push_text_words(&mut list, &facts.base.target_args);
    push_flag(&mut list, "-o", facts.doc_dir.as_slice());
    features_args(&mut list, &facts.base.features);
    check_cfg_args(&mut list, &facts.base.declared_features);
    add_error_format_and_color(&mut list, &facts.base.output);
    add_allow_features(&mut list, &facts.base.output.allow_features);
    push_rustdoc_emit(&mut list, facts);
    match &facts.base.profile.trim_paths {
        Some(trim_paths) => trim_paths_args_rustdoc(&mut list, &facts.base.remap, trim_paths),
        None => {
            proof {
                lemma_no_words(byte_strings(list@));
            }
        },
    }
    push_text_words(&mut list, &facts.base.lint_rustflags);
    push_joined_flag(&mut list, "-C", "metadata=", facts.doc_metadata.as_str());
    push_scrape(&mut list, facts);
    let ghost front = byte_strings(list@);
    push_words(&mut command.arguments, &list);
    command.directory = Some(copy_bytes(facts.base.cwd.as_slice()));
    proof {
        assert(command.setting_list() == start);
    }
    build_deps_args(
        &mut command,
        &facts.dependencies.search,
        facts.dependencies.unit,
        &facts.dependencies.externs,
        &facts.dependencies.dependencies,
        facts.dependencies.multiple_build_scripts,
        &facts.dependencies.artifacts,
    );
    let ghost with_deps = command.setting_list();
    push_text_words(&mut command.arguments, &facts.root_url_args);
    push_text_words(&mut command.arguments, &facts.output_format_args);
    push_extra(&mut command.arguments, &facts.extra_args);
    push_text_words(&mut command.arguments, &facts.rustdocflags);
    proof {
        lemma_rustdoc_words(before, front, *facts);
        assert(byte_strings(command.arguments@) == before + rustdoc_words(*facts));
        lemma_no_words(byte_strings(command.arguments@));
    }
    if !crate_version_flag_already_present(&command.arguments) {
        append_crate_version_flag(&mut command.arguments, facts.package_version.as_str());
    }
    proof {
        assert(command.setting_list() == with_deps);
    }
    Ok(command)
}

/// Arguments one behind the other, however they are grouped.
proof fn lemma_rustdoc_words(before: Words, front: Words, facts: RustdocFacts)
    requires
        front + facts.dependencies.words() + text_words(facts.root_url_args@) + text_words(
            facts.output_format_args@,
        ) + extra_words(facts.extra_args) + text_words(facts.rustdocflags@) == rustdoc_words(facts),
    ensures
        before + front + facts.dependencies.words() + text_words(facts.root_url_args@) + text_words(
            facts.output_format_args@,
        ) + extra_words(facts.extra_args) + text_words(facts.rustdocflags@) == before
            + rustdoc_words(facts),
{
    assert(before + front + facts.dependencies.words() + text_words(facts.root_url_args@)
        + text_words(facts.output_format_args@) + extra_words(facts.extra_args) + text_words(
        facts.rustdocflags@,
    ) =~= before + (front + facts.dependencies.words() + text_words(facts.root_url_args@)
        + text_words(facts.output_format_args@) + extra_words(facts.extra_args) + text_words(
        facts.rustdocflags@,
    )));
}

/// Settings with those of the configuration: what is set already stays.
pub open spec fn with_configured(list: Settings, configured: Seq<ScriptVariable>) -> Settings
    decreases configured.len(),
{
    if configured.len() == 0 {
        list
    } else {
        let before = with_configured(list, configured.drop_last());
        let last = configured.last();
        if explicit_setting(before, last.name@) is Some {
            before
        } else {
            with_setting(before, last.name@, Some(utf8(last.value@)))
        }
    }
}

/// Sets the variables of the configuration. What is set already stays.
pub fn apply_env_config(command: &mut Command, configured: &Vec<ScriptVariable>)
    requires
        old(command).well_formed(),
    ensures
        final(command).well_formed(),
        final(command).setting_list() == with_configured(old(command).setting_list(), configured@),
        final(command).wrappers == old(command).wrappers,
        final(command).program == old(command).program,
        final(command).arguments == old(command).arguments,
        final(command).directory == old(command).directory,
        final(command).inherited == old(command).inherited,
        final(command).retry_with_argfile == old(command).retry_with_argfile,
{
    let ghost before = command.setting_list();
    let mut index: usize = 0;
    proof {
        assert(configured@.take(0) =~= Seq::empty());
    }
    while index < configured.len()
        invariant
            index <= configured@.len(),
            command.well_formed(),
            before == old(command).setting_list(),
            command.setting_list() == with_configured(before, configured@.take(index as int)),
            command.wrappers == old(command).wrappers,
            command.program == old(command).program,
            command.arguments == old(command).arguments,
            command.directory == old(command).directory,
            command.inherited == old(command).inherited,
            command.retry_with_argfile == old(command).retry_with_argfile,
        decreases configured@.len() - index,
    {
        proof {
            assert(configured@.take(index + 1).drop_last() =~= configured@.take(index as int));
            assert(configured@.take(index + 1).last() == configured@[index as int]);
        }
        if !command.sets(configured[index].name.as_str()) {
            command.env(
                configured[index].name.as_str(),
                configured[index].value.as_str().as_bytes(),
            );
        }
        index = index + 1;
    }
    proof {
        assert(configured@.take(index as int) =~= configured@);
    }
}

/// The invocation that asks a compiler for its version.
pub fn version_command(
    rustc: &[u8],
    wrapper: &Option<Vec<u8>>,
    workspace_wrapper: &Option<Vec<u8>>,
    configured: &Vec<ScriptVariable>,
    cargo: &[u8],
) -> (command: Command)
    ensures
        command.well_formed(),
        command.program@ == rustc@,
        byte_strings(command.wrappers@) == crate::rustc_info::one_or_none(*workspace_wrapper)
            + crate::rustc_info::one_or_none(*wrapper),
        byte_strings(command.arguments@) == word("-vV"@),
        command.setting_list() == with_setting(
            with_configured(Seq::empty(), configured@),
            "CARGO"@,
            Some(cargo@),
        ),
        command.directory is None,
        command.inherited@.len() == 0,
        !command.retry_with_argfile,
{
    let mut command = Command::for_path(rustc);
    proof {
        assert(byte_strings(command.wrappers@) =~= no_words());
        assert(byte_strings(command.arguments@) =~= no_words());
        assert(command.setting_list() =~= Seq::empty());
    }
    command.wrapped(workspace_wrapper);
    command.wrapped(wrapper);
    proof {
        assert(byte_strings(command.wrappers@) =~= crate::rustc_info::one_or_none(
            *workspace_wrapper,
        ) + crate::rustc_info::one_or_none(*wrapper));
    }
    apply_env_config(&mut command, configured);
    command.env("CARGO", cargo);
    let ghost settings = command.setting_list();
    push_word(&mut command.arguments, "-vV");
    proof {
        assert(command.setting_list() == settings);
        lemma_no_words(word("-vV"@));
    }
    command
}

/// What a target is, for messages.
pub struct TargetDescription {
    /// What it is and what it is called.
    pub text: String,
    pub is_test: bool,
    pub is_bench: bool,
}

/// The kind of work that is done with a target, for messages.
pub open spec fn mode_text(target: TargetDescription, mode: CompileMode) -> Seq<char> {
    if mode.tests() && !(target.is_test || target.is_bench) {
        " test"@
    } else if mode == CompileMode::Doctest {
        " doctest"@
    } else if mode == CompileMode::Doc {
        " doc"@
    } else {
        ""@
    }
}

/// What is worked on, for messages.
pub open spec fn described(name: Seq<char>, target: TargetDescription, mode: CompileMode) -> Seq<
    char,
> {
    "`"@ + name + "` ("@ + target.text@ + mode_text(target, mode) + ")"@
}

/// What is worked on, for messages.
pub fn descriptive_pkg_name(name: &str, target: &TargetDescription, mode: CompileMode) -> (text:
    String)
    ensures
        text@ == described(name@, *target, mode),
{
    let doctest = match mode {
        CompileMode::Doctest => true,
        _ => false,
    };
    let doc = match mode {
        CompileMode::Doc => true,
        _ => false,
    };
    let suffix = if mode.is_rustc_test() && !(target.is_test || target.is_bench) {
        " test"
    } else if doctest {
        " doctest"
    } else if doc {
        " doc"
    } else {
        ""
    };
    let mut text = "`".to_owned();
    text.append(name);
    text.append("` (");
    text.append(target.text.as_str());
    text.append(suffix);
    text.append(")");
    text
}

/// The file in which the compiler tells what it has read.
pub fn rustc_dep_info_loc(
    output_root: &[u8],
    crate_name: &str,
    c_extra_filename: &Option<String>,
) -> (path: Vec<u8>)
    ensures
        path@ == joined(
            output_root@,
            utf8(
                match *c_extra_filename {
                    Some(extra) => crate_name@ + "-"@ + extra@ + ".d"@,
                    None => crate_name@ + ".d"@,
                },
            ),
        ),
{
    let mut name = crate_name.to_owned();
    match c_extra_filename {
        Some(extra) => {
            name.append("-");
            name.append(extra.as_str());
        },
        None => {},
    }
    name.append(".d");
    join_path(output_root, name.as_str().as_bytes())
}

/// The file in which the documentation tool tells what it has read: it stands
/// beside the fingerprint of the unit.
pub fn rustdoc_dep_info_loc(fingerprint_file: &[u8]) -> (path: Vec<u8>)
    ensures
        path@ == with_extension(fingerprint_file@, utf8("d"@)),
{
    path_with_extension(fingerprint_file, "d".as_bytes())
}

/// What users are told of a unit that examples could not be gathered from.
pub open spec fn failed_scrape_text(top_line: Seq<char>, manifest: Seq<char>) -> Seq<char> {
    top_line + "\n    Try running with `--verbose` to see the error message.\n    If an example should not be scanned, then consider adding `doc-scrape-examples = false` to its `[[example]]` definition in "@
        + manifest
}

/// What users are told of a unit that examples could not be gathered from. The
/// manifest is named relative to the workspace, where it is in it.
pub fn make_failed_scrape_diagnostic(
    top_line: &str,
    manifest_path: &[u8],
    workspace_root: &[u8],
) -> (text: String)
    ensures
        text@ == failed_scrape_text(
            top_line@,
            lossy_text(
                match path_below(manifest_path@, workspace_root@) {
                    Some(relative) => relative,
                    None => manifest_path@,
                },
            ),
        ),
{
    let path = match strip_path_prefix(manifest_path, workspace_root) {
        Some(relative) => relative,
        None => copy_bytes(manifest_path),
    };
    let mut text = top_line.to_owned();
    text.append(
        "\n    Try running with `--verbose` to see the error message.\n    If an example should not be scanned, then consider adding `doc-scrape-examples = false` to its `[[example]]` definition in ",
    );
    text.append(text_from_utf8_lossy(path.as_slice()).as_str());
    text
}

/// Whether examples from other units are shown in the documentation of a unit.
pub fn should_include_scrape_units(mode: CompileMode, scrape_units: usize, needs_scrape: bool) -> (include_units:
    bool)
    ensures
        include_units == (mode == CompileMode::Doc && scrape_units > 0 && needs_scrape),
{
    let doc = match mode {
        CompileMode::Doc => true,
        _ => false,
    };
    doc && scrape_units > 0 && needs_scrape
}

} // verus!
