//! The work on one unit: what is done to its invocation, its outputs and its
//! state, and when.

use vstd::prelude::*;
use vstd::string::*;
use vstd::utf8::*;

use crate::arguments::flag;
use crate::arguments::lemma_no_words;
use crate::arguments::no_words;
use crate::arguments::push_flag;
use crate::arguments::Words;
use crate::base_arguments::DebugInfo;
use crate::bytes::bytes_equal;
use crate::bytes::copy_bytes;
use crate::bytes::optional;
use crate::bytes::utf8;
use crate::command::Command;
use crate::link_arguments::add_custom_flags;
use crate::link_arguments::add_native_deps;
use crate::link_arguments::add_plugin_deps;
use crate::link_arguments::custom_words;
use crate::link_arguments::have_outputs;
use crate::link_arguments::native_words;
use crate::link_arguments::plugin_search_path;
use crate::link_arguments::with_scripts;
use crate::link_arguments::ScriptError;
use crate::link_arguments::ScriptLink;
use crate::outputs::FileFlavor;
use crate::outputs::OutputFile;
use crate::path_laws::is_plain_name;
use crate::path_laws::law_names_are_read_back;
use crate::path_laws::law_parents_are_read_back;
use crate::path_laws::lemma_last_byte_at;
use crate::preflight::PreflightState;
use crate::sld::configure_sld_native_incremental_rlib_producer;
use crate::sld::configure_sld_native_incremental_root;
use crate::sld::remove_sld_native_incremental_env;
use crate::sld::root_settings;
use crate::sld::without_sld;
use crate::sld::Settings;
use crate::unit::artifact_cache_compile_mode_is_supported;
use crate::unit::cacheable_mode;
use crate::unit::CompileMode;
use crate::unix_path::byte_strings;
use crate::unix_path::extension;
use crate::unix_path::file_name;
use crate::unix_path::is_absolute;
use crate::unix_path::join_path;
use crate::unix_path::joined;
use crate::unix_path::last_byte;
use crate::unix_path::path_extension;
use crate::unix_path::path_file_name;
use crate::unix_path::DOT;
use crate::work_product::file_stem;
use crate::work_product::path_with_file_name;
use crate::work_product::with_file_name;

verus! {

/// What a job does.
#[derive(Clone, Copy, Debug, PartialEq, Eq, Structural)]
pub enum JobKind {
    /// A build script is run.
    RunCustomBuild,
    /// Nothing: tests in documentation are run later.
    Nothing,
    /// The unit is documented.
    Rustdoc,
    /// The unit is compiled.
    Rustc,
    /// The unit is fresh, and its messages are replayed.
    Replay,
}

/// What the job for a unit does.
pub fn job_kind(mode: CompileMode, dirty: bool) -> (kind: JobKind)
    ensures
        kind == match mode {
            CompileMode::RunCustomBuild => JobKind::RunCustomBuild,
            CompileMode::Doctest => JobKind::Nothing,
            CompileMode::Doc | CompileMode::Docscrape => if dirty {
                JobKind::Rustdoc
            } else {
                JobKind::Replay
            },
            _ => if dirty {
                JobKind::Rustc
            } else {
                JobKind::Replay
            },
        },
{
    match mode {
        CompileMode::RunCustomBuild => JobKind::RunCustomBuild,
        CompileMode::Doctest => JobKind::Nothing,
        CompileMode::Doc | CompileMode::Docscrape => if dirty {
            JobKind::Rustdoc
        } else {
            JobKind::Replay
        },
        _ => if dirty {
            JobKind::Rustc
        } else {
            JobKind::Replay
        },
    }
}

/// Whether a job upgrades its lock on a unit while it runs.
pub fn takes_exclusive_lock(kind: JobKind, fine_grain_locking: bool) -> (exclusive: bool)
    ensures
        exclusive == (fine_grain_locking && (kind == JobKind::Rustc || kind == JobKind::Rustdoc)),
{
    match kind {
        JobKind::Rustc | JobKind::Rustdoc => fine_grain_locking,
        _ => false,
    }
}

/// A target, as far as jobs distinguish it.
#[derive(Clone, Copy, Debug, PartialEq, Eq, Structural)]
pub struct TargetFacts {
    pub is_lib: bool,
    pub is_executable: bool,
    pub is_dylib: bool,
    pub is_cdylib: bool,
    pub is_staticlib: bool,
    pub is_proc_macro: bool,
}

/// Whether native libraries are passed to the invocation: a program leaves that
/// to the library of its package.
pub fn passes_native_libraries(target: TargetFacts, package_has_lib: bool) -> (passes: bool)
    ensures
        passes == (target.is_lib || !package_has_lib),
{
    target.is_lib || !package_has_lib
}

/// Whether an invocation links an output of the primary package.
pub fn is_primary_link(
    stats_enabled: bool,
    is_primary: bool,
    mode: CompileMode,
    target: TargetFacts,
) -> (primary: bool)
    ensures
        primary == (stats_enabled && is_primary && (mode == CompileMode::Test || (mode
            == CompileMode::Build && (target.is_executable || target.is_dylib || target.is_cdylib
            || target.is_staticlib || target.is_proc_macro)))),
{
    stats_enabled && is_primary && match mode {
        CompileMode::Test => true,
        CompileMode::Build => target.is_executable || target.is_dylib || target.is_cdylib
            || target.is_staticlib || target.is_proc_macro,
        _ => false,
    }
}

/// Whether the end of a job is stamped for the cache.
pub fn artifact_cache_freshness_stamp(
    cache_configured: bool,
    executor_compatible: bool,
    target: TargetFacts,
    mode: CompileMode,
    sbom_files: usize,
) -> (stamped: bool)
    ensures
        stamped == (cache_configured && executor_compatible && target.is_lib
            && !target.is_proc_macro && cacheable_mode(mode) && sbom_files == 0),
{
    cache_configured && executor_compatible && target.is_lib && !target.is_proc_macro
        && artifact_cache_compile_mode_is_supported(mode) && sbom_files == 0
}

/// What scheduling knows of a unit: one that is rebuilt in any case is not
/// looked for in the cache.
pub fn preflight_state(force_rebuild: bool, state: Option<PreflightState>) -> (known: Option<
    PreflightState,
>)
    ensures
        known == if force_rebuild {
            Some(PreflightState::Bypassed)
        } else {
            state
        },
{
    if force_rebuild {
        Some(PreflightState::Bypassed)
    } else {
        state
    }
}

/// What incremental linking adds to an invocation.
pub struct SldFacts {
    /// Whether the variables of incremental linking are taken out first.
    pub scoped: bool,
    pub rlib_producer: bool,
    pub root_output: bool,
    pub padding_percent: Option<Vec<u8>>,
    pub provenance: Option<Vec<u8>>,
    pub stabilize: Option<Vec<u8>>,
}

/// Settings with those of incremental linking.
pub open spec fn with_sld(list: Settings, facts: SldFacts) -> Settings {
    let scoped = if facts.scoped {
        without_sld(list)
    } else {
        list
    };
    let producing = if facts.rlib_producer {
        crate::command::with_setting(
            without_sld(scoped),
            "SLD_RUSTC_WORK_PRODUCT_PROVENANCE"@,
            Some(utf8("1"@)),
        )
    } else {
        scoped
    };
    if facts.root_output {
        root_settings(
            producing,
            optional(facts.padding_percent),
            optional(facts.provenance),
            optional(facts.stabilize),
        )
    } else {
        producing
    }
}

/// What build scripts add to an invocation.
pub struct ScriptFacts {
    /// The scripts whose libraries are linked, if there are any.
    pub to_link: Option<Vec<ScriptLink>>,
    /// The scripts of plugins.
    pub plugins: Vec<ScriptLink>,
    /// The scripts of the package itself.
    pub own: Vec<ScriptLink>,
    pub pass_l_flag: bool,
    /// Where the outputs for the host are, if there are any.
    pub root_output: Option<Vec<u8>>,
    /// The variable with the search path for libraries.
    pub library_variable: String,
}

/// Settings with the search path of plugins.
pub open spec fn with_plugins(rustc: &Command, facts: ScriptFacts) -> Settings {
    match facts.root_output {
        Some(root) => crate::command::with_setting(
            rustc.setting_list(),
            facts.library_variable@,
            plugin_search_path(rustc, facts.library_variable@, facts.plugins@, root@),
        ),
        None => rustc.setting_list(),
    }
}

/// The arguments that build scripts add to an invocation.
pub open spec fn script_words(facts: ScriptFacts) -> Words {
    match facts.to_link {
        Some(scripts) => native_words(scripts@, facts.pass_l_flag) + custom_words(facts.own@),
        None => no_words(),
    }
}

/// The settings of an invocation with those of build scripts.
pub open spec fn script_settings(rustc: &Command, facts: ScriptFacts) -> Settings {
    match facts.to_link {
        Some(_) => with_scripts(with_plugins(rustc, facts), facts.own@),
        None => rustc.setting_list(),
    }
}

/// Why build scripts do not allow an invocation.
pub open spec fn script_failure(rustc: &Command, facts: ScriptFacts) -> Option<ScriptError> {
    match (facts.to_link, facts.root_output) {
        (None, _) => None,
        (Some(scripts), root) => if !have_outputs(scripts@) {
            Some(ScriptError::MissingOutput)
        } else {
            match root {
                None => None,
                Some(root) => if !have_outputs(facts.plugins@) {
                    Some(ScriptError::MissingOutput)
                } else if plugin_search_path(
                    rustc,
                    facts.library_variable@,
                    facts.plugins@,
                    root@,
                ) is None {
                    Some(ScriptError::UnwritablePath)
                } else {
                    None
                },
            }
        },
    }
}

/// Completes an invocation once the units that it depends on are done: what
/// build scripts printed is known now.
pub fn complete_rustc(rustc: &mut Command, facts: &ScriptFacts, sld: &SldFacts) -> (result: Result<
    (),
    ScriptError,
>)
    requires
        old(rustc).well_formed(),
    ensures
        final(rustc).well_formed(),
        match result {
            Ok(_) => script_failure(old(rustc), *facts) is None && byte_strings(
                final(rustc).arguments@,
            ) == byte_strings(old(rustc).arguments@) + script_words(*facts) && final(
                rustc
            ).setting_list() == with_sld(script_settings(old(rustc), *facts), *sld),
            Err(error) => script_failure(old(rustc), *facts) == Some(error),
        },
        final(rustc).wrappers == old(rustc).wrappers,
        final(rustc).program == old(rustc).program,
        final(rustc).directory == old(rustc).directory,
        final(rustc).inherited == old(rustc).inherited,
        final(rustc).retry_with_argfile == old(rustc).retry_with_argfile,
{
    let ghost words = byte_strings(rustc.arguments@);
    let ghost start = rustc.setting_list();
    if let Some(scripts) = &facts.to_link {
        match add_native_deps(&mut rustc.arguments, scripts, facts.pass_l_flag) {
            Ok(_) => {},
            Err(error) => {
                return Err(error);
            },
        }
        proof {
            assert(rustc.setting_list() == start);
            assert(rustc.effective(facts.library_variable@) == old(rustc).effective(
                facts.library_variable@,
            ));
        }
        if let Some(root) = &facts.root_output {
            match add_plugin_deps(
                rustc,
                facts.library_variable.as_str(),
                &facts.plugins,
                root.as_slice(),
            ) {
                Ok(_) => {},
                Err(error) => {
                    return Err(error);
                },
            }
        }
        add_custom_flags(rustc, &facts.own);
        proof {
            assert(byte_strings(rustc.arguments@) =~= words + script_words(*facts));
        }
    } else {
        proof {
            lemma_no_words(words);
        }
    }
    if sld.scoped {
        remove_sld_native_incremental_env(rustc);
    }
    if sld.rlib_producer {
        configure_sld_native_incremental_rlib_producer(rustc);
    }
    if sld.root_output {
        configure_sld_native_incremental_root(
            rustc,
            &sld.padding_percent,
            &sld.provenance,
            &sld.stabilize,
        );
    }
    Ok(())
}

/// Where the cached action of a job comes from.
#[derive(Clone, Copy, Debug, PartialEq, Eq, Structural)]
pub enum ActionSource {
    /// It was prepared before scheduling, and missed then.
    Prepared,
    /// It is described now, and looked for in the cache.
    Described,
    /// There is none.
    Absent,
    /// It was prepared before scheduling, but the invocation has changed since:
    /// nothing is published.
    Changed,
}

/// Where the cached action of a job comes from. `same_command` tells whether the
/// invocation is still the one that was prepared.
pub fn action_source(state: Option<PreflightState>, same_command: bool) -> (source: ActionSource)
    ensures
        source == match state {
            Some(PreflightState::Miss) => if same_command {
                ActionSource::Prepared
            } else {
                ActionSource::Changed
            },
            Some(PreflightState::Bypassed) => ActionSource::Absent,
            None => ActionSource::Described,
        },
{
    match state {
        Some(PreflightState::Miss) => if same_command {
            ActionSource::Prepared
        } else {
            ActionSource::Changed
        },
        Some(PreflightState::Bypassed) => ActionSource::Absent,
        None => ActionSource::Described,
    }
}

/// Whether the outputs of a job are published: it compiled, and its invocation
/// is a cached action.
pub fn publishes(source: ActionSource, has_action: bool, cache_hit: bool) -> (published: bool)
    ensures
        published == (!cache_hit && (source == ActionSource::Prepared || (source
            == ActionSource::Described && has_action))),
{
    !cache_hit && match source {
        ActionSource::Prepared => true,
        ActionSource::Described => has_action,
        _ => false,
    }
}

/// Whether an output is kept by the linker, which rewrites it in place.
pub open spec fn is_kept(output: OutputFile, preserve_sld_root_output: bool) -> bool {
    preserve_sld_root_output && output.flavor == FileFlavor::Normal
}

/// Whether a hard link to the cache is taken away before an output is written.
pub fn prepares_for_write(output: &OutputFile, preserve_sld_root_output: bool) -> (prepared: bool)
    ensures
        prepared == !is_kept(*output, preserve_sld_root_output),
{
    !(preserve_sld_root_output && output.flavor == FileFlavor::Normal)
}

/// The library beside metadata. It would be preferred over the metadata, even if
/// it is older.
pub open spec fn stale_library(root: Seq<u8>, path: Seq<u8>) -> Option<Seq<u8>> {
    if extension(path) == Some(utf8("rmeta"@)) {
        match file_name(joined(root, path)) {
            Some(name) => Some(
                with_file_name(joined(root, path), file_stem(name) + utf8(".rlib"@)),
            ),
            None => None,
        }
    } else {
        None
    }
}

/// The library beside metadata that is removed before the metadata are written.
pub fn stale_library_path(root: &[u8], path: &[u8]) -> (library: Option<Vec<u8>>)
    ensures
        optional(library) == stale_library(root@, path@),
{
    let is_rmeta = match path_extension(path) {
        Some(ext) => bytes_equal(ext.as_slice(), "rmeta".as_bytes()),
        None => false,
    };
    if !is_rmeta {
        return None;
    }
    let whole = join_path(root, path);
    match path_file_name(whole.as_slice()) {
        None => None,
        Some(name) => {
            let after: usize = crate::unix_path::find_after_last_byte(
                name.as_slice(),
                crate::unix_path::DOT,
            );
            let stem = if after > 1 {
                vstd::slice::slice_subrange(name.as_slice(), 0, after - 1)
            } else {
                name.as_slice()
            };
            proof {
                assert(stem@ =~= file_stem(name@));
            }
            let mut library = copy_bytes(stem);
            crate::bytes::push_text(&mut library, ".rlib");
            Some(path_with_file_name(whole.as_slice(), library.as_slice()))
        },
    }
}

/// What is done about an output that is there already.
#[derive(Clone, Copy, Debug, PartialEq, Eq, Structural)]
pub enum OldOutput {
    /// It stays.
    Keep,
    /// It is removed; a failure to remove it is an error.
    Remove,
    /// It is removed if that is possible.
    TryRemove,
    /// It is copied, so that it has no other names.
    Isolate,
}

/// What is done about an output that is there already. A linker may change it in
/// place, and with it every other name that the file has.
pub fn old_output(
    output: &OutputFile,
    preserve_sld_root_output: bool,
    present: bool,
    is_regular_file: bool,
    has_multiple_links: bool,
) -> (action: OldOutput)
    ensures
        action == if output.hardlink is None || !present {
            OldOutput::Keep
        } else if !is_kept(*output, preserve_sld_root_output) {
            OldOutput::TryRemove
        } else if !is_regular_file {
            OldOutput::Remove
        } else if has_multiple_links {
            OldOutput::Isolate
        } else {
            OldOutput::Keep
        },
{
    if output.hardlink.is_none() || !present {
        return OldOutput::Keep;
    }
    if prepares_for_write(output, preserve_sld_root_output) {
        return OldOutput::TryRemove;
    }
    if !is_regular_file {
        OldOutput::Remove
    } else if has_multiple_links {
        OldOutput::Isolate
    } else {
        OldOutput::Keep
    }
}

/// What is done at the end of a job that succeeded.
pub enum FinishStep {
    /// What the compiler has read is recorded, and dated back to the start.
    TranslateDepInfo,
    /// A file is dated back to the start.
    Touch(Vec<u8>),
    /// An empty file is written, and dated back to the start.
    Stamp(Vec<u8>),
}

/// What is done at the end of a job, as plain values.
pub enum Finish {
    TranslateDepInfo,
    Touch(Seq<u8>),
    Stamp(Seq<u8>),
}

impl View for FinishStep {
    type V = Finish;

    open spec fn view(&self) -> Finish {
        match *self {
            FinishStep::TranslateDepInfo => Finish::TranslateDepInfo,
            FinishStep::Touch(path) => Finish::Touch(path@),
            FinishStep::Stamp(path) => Finish::Stamp(path@),
        }
    }
}

/// Steps as plain values.
pub open spec fn plain_steps(list: Seq<FinishStep>) -> Seq<Finish> {
    list.map_values(|step: FinishStep| step@)
}

/// The name of the stamp of incremental linking.
pub const SLD_STAMP: &'static str = "sld-native-incremental-complete.timestamp";

/// The name of the stamp of the cache.
pub const ARTIFACT_CACHE_STAMP: &'static str = "artifact-cache-complete.timestamp";

/// What is done at the end of a job: dep-info is recorded where there is some;
/// outputs of a check are dated back, since unchanged ones are not written; and
/// stamps are written.
pub open spec fn finish_steps(
    has_dep_info: bool,
    mode: CompileMode,
    outputs: Seq<OutputFile>,
    fingerprint_dir: Seq<u8>,
    preserve_sld_root_output: bool,
    cache_stamp: bool,
) -> Seq<Finish> {
    (if has_dep_info {
        seq![Finish::TranslateDepInfo]
    } else {
        Seq::empty()
    }) + (if mode.checks() {
        outputs.map_values(|output: OutputFile| Finish::Touch(output.path@))
    } else {
        Seq::empty()
    }) + (if preserve_sld_root_output {
        seq![Finish::Stamp(joined(fingerprint_dir, utf8(SLD_STAMP@)))]
    } else {
        Seq::empty()
    }) + (if cache_stamp {
        seq![Finish::Stamp(joined(fingerprint_dir, utf8(ARTIFACT_CACHE_STAMP@)))]
    } else {
        Seq::empty()
    })
}

/// What is done at the end of a job that succeeded, in order.
pub fn finish_rustc_target_state(
    has_dep_info: bool,
    mode: CompileMode,
    outputs: &Vec<OutputFile>,
    fingerprint_dir: &[u8],
    preserve_sld_root_output: bool,
    cache_stamp: bool,
) -> (steps: Vec<FinishStep>)
    ensures
        plain_steps(steps@) == finish_steps(
            has_dep_info,
            mode,
            outputs@,
            fingerprint_dir@,
            preserve_sld_root_output,
            cache_stamp,
        ),
{
    let mut steps: Vec<FinishStep> = Vec::new();
    if has_dep_info {
        steps.push(FinishStep::TranslateDepInfo);
    }
    let ghost first = plain_steps(steps@);
    proof {
        assert(first =~= if has_dep_info {
            seq![Finish::TranslateDepInfo]
        } else {
            Seq::empty()
        });
    }
    let ghost touched = outputs@.map_values(|output: OutputFile| Finish::Touch(output.path@));
    if mode.is_check() {
        let mut index: usize = 0;
        proof {
            assert(first + touched.take(0) =~= first);
        }
        while index < outputs.len()
            invariant
                index <= outputs@.len(),
                touched == outputs@.map_values(
                    |output: OutputFile| Finish::Touch(output.path@),
                ),
                plain_steps(steps@) == first + touched.take(index as int),
            decreases outputs@.len() - index,
        {
            let ghost before = steps@;
            steps.push(FinishStep::Touch(copy_bytes(outputs[index].path.as_slice())));
            proof {
                assert(plain_steps(steps@) =~= plain_steps(before).push(touched[index as int]));
                assert((first + touched.take(index as int)).push(touched[index as int]) =~= first
                    + touched.take(index + 1));
            }
            index = index + 1;
        }
        proof {
            assert(touched.take(index as int) =~= touched);
        }
    }
    let ghost second = plain_steps(steps@);
    proof {
        assert(second =~= first + if mode.checks() {
            touched
        } else {
            Seq::empty()
        });
    }
    if preserve_sld_root_output {
        steps.push(FinishStep::Stamp(join_path(fingerprint_dir, SLD_STAMP.as_bytes())));
    }
    let ghost third = plain_steps(steps@);
    proof {
        assert(third =~= second + if preserve_sld_root_output {
            seq![Finish::Stamp(joined(fingerprint_dir@, utf8(SLD_STAMP@)))]
        } else {
            Seq::empty()
        });
    }
    if cache_stamp {
        steps.push(FinishStep::Stamp(join_path(fingerprint_dir, ARTIFACT_CACHE_STAMP.as_bytes())));
    }
    proof {
        assert(plain_steps(steps@) =~= finish_steps(
            has_dep_info,
            mode,
            outputs@,
            fingerprint_dir@,
            preserve_sld_root_output,
            cache_stamp,
        ));
    }
    steps
}

/// How an output is put where users look for it.
pub struct LinkStep {
    pub from: Vec<u8>,
    pub to: Vec<u8>,
    /// Whether it is copied, so that it stays apart from what the linker
    /// rewrites.
    pub copied: bool,
    /// Whether the directory is made first.
    pub is_export: bool,
}

/// How an output is put where users look for it, as plain values.
pub type Linked = (Seq<u8>, Seq<u8>, bool, bool);

/// Steps as plain values.
pub open spec fn plain_links(list: Seq<LinkStep>) -> Seq<Linked> {
    list.map_values(|step: LinkStep| (step.from@, step.to@, step.copied, step.is_export))
}

/// How one output is put where users look for it.
pub open spec fn output_links(output: OutputFile, preserve_sld_root_output: bool) -> Seq<Linked> {
    let copied = is_kept(output, preserve_sld_root_output);
    match (optional(output.hardlink), optional(output.export_path)) {
        (None, _) => Seq::empty(),
        (Some(to), None) => seq![(output.path@, to, copied, false)],
        (Some(to), Some(export)) => seq![
            (output.path@, to, copied, false),
            (output.path@, export, copied, true),
        ],
    }
}

/// Where an output is in the end.
pub open spec fn destination(output: OutputFile) -> Seq<u8> {
    match output.hardlink {
        Some(to) => to@,
        None => output.path@,
    }
}

/// How outputs are put where users look for them. `present` tells which of them
/// there are: users can change what is written.
pub open spec fn all_links(
    outputs: Seq<OutputFile>,
    present: Seq<bool>,
    preserve_sld_root_output: bool,
) -> Seq<Linked>
    decreases outputs.len(),
{
    if outputs.len() == 0 {
        Seq::empty()
    } else {
        let before = all_links(outputs.drop_last(), present, preserve_sld_root_output);
        if present[outputs.len() - 1] {
            before + output_links(outputs.last(), preserve_sld_root_output)
        } else {
            before
        }
    }
}

/// Where the outputs are in the end.
pub open spec fn destinations(outputs: Seq<OutputFile>, present: Seq<bool>) -> Seq<Seq<u8>>
    decreases outputs.len(),
{
    if outputs.len() == 0 {
        Seq::empty()
    } else {
        let before = destinations(outputs.drop_last(), present);
        if present[outputs.len() - 1] {
            before.push(destination(outputs.last()))
        } else {
            before
        }
    }
}

/// Adds the steps for one output.
fn push_links(steps: &mut Vec<LinkStep>, output: &OutputFile, preserve_sld_root_output: bool)
    ensures
        plain_links(final(steps)@) == plain_links(old(steps)@) + output_links(
            *output,
            preserve_sld_root_output,
        ),
{
    let ghost before = steps@;
    let copied = !prepares_for_write(output, preserve_sld_root_output);
    if let Some(to) = &output.hardlink {
        steps.push(
            LinkStep {
                from: copy_bytes(output.path.as_slice()),
                to: copy_bytes(to.as_slice()),
                copied,
                is_export: false,
            },
        );
        if let Some(export) = &output.export_path {
            steps.push(
                LinkStep {
                    from: copy_bytes(output.path.as_slice()),
                    to: copy_bytes(export.as_slice()),
                    copied,
                    is_export: true,
                },
            );
        }
    }
    proof {
        assert(plain_links(steps@) =~= plain_links(before) + output_links(
            *output,
            preserve_sld_root_output,
        ));
    }
}

/// How outputs are put where users look for them, and where they are then.
pub fn link_targets(
    outputs: &Vec<OutputFile>,
    present: &Vec<bool>,
    preserve_sld_root_output: bool,
) -> (result: (Vec<LinkStep>, Vec<Vec<u8>>))
    requires
        present@.len() == outputs@.len(),
    ensures
        plain_links(result.0@) == all_links(outputs@, present@, preserve_sld_root_output),
        byte_strings(result.1@) == destinations(outputs@, present@),
{
    let mut steps: Vec<LinkStep> = Vec::new();
    let mut places: Vec<Vec<u8>> = Vec::new();
    let mut index: usize = 0;
    proof {
        assert(outputs@.take(0) =~= Seq::empty());
        assert(plain_links(steps@) =~= Seq::<Linked>::empty());
        assert(byte_strings(places@) =~= Seq::<Seq<u8>>::empty());
    }
    while index < outputs.len()
        invariant
            present@.len() == outputs@.len(),
            index <= outputs@.len(),
            plain_links(steps@) == all_links(
                outputs@.take(index as int),
                present@,
                preserve_sld_root_output,
            ),
            byte_strings(places@) == destinations(outputs@.take(index as int), present@),
        decreases outputs@.len() - index,
    {
        proof {
            assert(outputs@.take(index + 1).drop_last() =~= outputs@.take(index as int));
            assert(outputs@.take(index + 1).last() == outputs@[index as int]);
        }
        if present[index] {
            let ghost before = places@;
            push_links(&mut steps, &outputs[index], preserve_sld_root_output);
            let place = match &outputs[index].hardlink {
                Some(to) => copy_bytes(to.as_slice()),
                None => copy_bytes(outputs[index].path.as_slice()),
            };
            proof {
                assert(byte_strings(before.push(place)) =~= byte_strings(before).push(place@));
            }
            places.push(place);
        }
        index = index + 1;
    }
    proof {
        assert(outputs@.take(index as int) =~= outputs@);
    }
    (steps, places)
}

/// Debugging information as messages name it: a number or a name.
#[derive(Clone, Copy, Debug, PartialEq, Eq, Structural)]
pub enum ArtifactDebuginfo {
    Int(u32),
    LineDirectivesOnly,
    LineTablesOnly,
}

/// Debugging information as messages name it.
pub fn artifact_debuginfo(debuginfo: DebugInfo) -> (named: ArtifactDebuginfo)
    ensures
        named == match debuginfo {
            DebugInfo::Off => ArtifactDebuginfo::Int(0),
            DebugInfo::Limited => ArtifactDebuginfo::Int(1),
            DebugInfo::Full => ArtifactDebuginfo::Int(2),
            DebugInfo::LineDirectivesOnly => ArtifactDebuginfo::LineDirectivesOnly,
            DebugInfo::LineTablesOnly => ArtifactDebuginfo::LineTablesOnly,
        },
{
    match debuginfo {
        DebugInfo::Off => ArtifactDebuginfo::Int(0),
        DebugInfo::Limited => ArtifactDebuginfo::Int(1),
        DebugInfo::Full => ArtifactDebuginfo::Int(2),
        DebugInfo::LineDirectivesOnly => ArtifactDebuginfo::LineDirectivesOnly,
        DebugInfo::LineTablesOnly => ArtifactDebuginfo::LineTablesOnly,
    }
}

/// Examples that were gathered from a unit, if that did not fail.
pub struct ScrapeOutput {
    pub failed: bool,
    pub path: Vec<u8>,
}

/// The arguments for examples from other units.
pub open spec fn example_words(outputs: Seq<ScrapeOutput>) -> Words
    decreases outputs.len(),
{
    if outputs.len() == 0 {
        no_words()
    } else {
        let before = example_words(outputs.drop_last());
        if outputs.last().failed {
            before
        } else {
            before + flag("--with-examples"@, outputs.last().path@)
        }
    }
}

/// Completes an invocation of the documentation tool once the units that it
/// depends on are done: build scripts and examples from other units are known
/// now.
pub fn complete_rustdoc(rustdoc: &mut Command, own: &Vec<ScriptLink>, examples: &Vec<ScrapeOutput>)
    requires
        old(rustdoc).well_formed(),
    ensures
        final(rustdoc).well_formed(),
        byte_strings(final(rustdoc).arguments@) == byte_strings(old(rustdoc).arguments@)
            + custom_words(own@) + example_words(examples@),
        final(rustdoc).setting_list() == with_scripts(old(rustdoc).setting_list(), own@),
        final(rustdoc).wrappers == old(rustdoc).wrappers,
        final(rustdoc).program == old(rustdoc).program,
        final(rustdoc).directory == old(rustdoc).directory,
        final(rustdoc).inherited == old(rustdoc).inherited,
        final(rustdoc).retry_with_argfile == old(rustdoc).retry_with_argfile,
{
    add_custom_flags(rustdoc, own);
    let ghost words = byte_strings(rustdoc.arguments@);
    let ghost settings = rustdoc.setting_list();
    let mut index: usize = 0;
    proof {
        assert(examples@.take(0) =~= Seq::empty());
        lemma_no_words(words);
    }
    while index < examples.len()
        invariant
            index <= examples@.len(),
            byte_strings(rustdoc.arguments@) == words + example_words(examples@.take(index as int)),
            rustdoc.setting_list() == settings,
            rustdoc.well_formed(),
            rustdoc.wrappers == old(rustdoc).wrappers,
            rustdoc.program == old(rustdoc).program,
            rustdoc.directory == old(rustdoc).directory,
            rustdoc.inherited == old(rustdoc).inherited,
            rustdoc.retry_with_argfile == old(rustdoc).retry_with_argfile,
        decreases examples@.len() - index,
    {
        proof {
            assert(examples@.take(index + 1).drop_last() =~= examples@.take(index as int));
            assert(examples@.take(index + 1).last() == examples@[index as int]);
        }
        if !examples[index].failed {
            push_flag(&mut rustdoc.arguments, "--with-examples", examples[index].path.as_slice());
            proof {
                assert(rustdoc.setting_list() == settings);
                assert(byte_strings(rustdoc.arguments@) =~= words + example_words(
                    examples@.take(index + 1),
                ));
            }
        }
        index = index + 1;
    }
    proof {
        assert(examples@.take(index as int) =~= examples@);
    }
}

/// The directory that is removed before documentation is written, so that what
/// is gone from a crate is gone from its documentation.
pub fn stale_documentation(is_json_output: bool, doc_dir: &[u8], crate_name: &str) -> (directory: Option<
    Vec<u8>,
>)
    ensures
        optional(directory) == if is_json_output {
            None
        } else {
            Some(joined(doc_dir@, utf8(crate_name@)))
        },
{
    if is_json_output {
        None
    } else {
        Some(join_path(doc_dir, crate_name.as_bytes()))
    }
}

/// Whether diagnostics of a unit are hidden because it may fail: examples are
/// gathered from it, and users did not ask for everything.
pub fn hides_scrape_diagnostics(can_fail: bool, verbose: bool) -> (hidden: bool)
    ensures
        hidden == (can_fail && !verbose),
{
    can_fail && !verbose
}

/// Links of the first outputs stay when more outputs come.
proof fn lemma_links_hold(
    outputs: Seq<OutputFile>,
    present: Seq<bool>,
    preserve_sld_root_output: bool,
    at: int,
    link: Linked,
)
    requires
        0 <= at < outputs.len() <= present.len(),
        present[at],
        output_links(outputs[at], preserve_sld_root_output).contains(link),
    ensures
        all_links(outputs, present, preserve_sld_root_output).contains(link),
    decreases outputs.len(),
{
    let front = outputs.drop_last();
    let before = all_links(front, present, preserve_sld_root_output);
    let all = all_links(outputs, present, preserve_sld_root_output);
    if at == outputs.len() - 1 {
        let last = output_links(outputs.last(), preserve_sld_root_output);
        let k = choose|k: int| 0 <= k < last.len() && last[k] == link;
        assert(all[before.len() + k] == link);
    } else {
        assert(front[at] == outputs[at]);
        lemma_links_hold(front, present, preserve_sld_root_output, at, link);
        let k = choose|k: int| 0 <= k < before.len() && before[k] == link;
        assert(all[k] == link);
    }
}

/// Every output that was written and has a place of its own is put there, and where an
/// export is asked for, exported too. It is copied and not linked exactly where it is
/// a plain file of an incremental link.
pub proof fn law_written_outputs_are_put_in_place(
    outputs: Seq<OutputFile>,
    present: Seq<bool>,
    preserve_sld_root_output: bool,
    at: int,
)
    requires
        0 <= at < outputs.len() <= present.len(),
        present[at],
        outputs[at].hardlink is Some,
    ensures
        ({
            let links = all_links(outputs, present, preserve_sld_root_output);
            let copied = preserve_sld_root_output && outputs[at].flavor == FileFlavor::Normal;
            &&& links.contains(
                (outputs[at].path@, outputs[at].hardlink->Some_0@, copied, false),
            )
            &&& outputs[at].export_path matches Some(export) ==> links.contains(
                (outputs[at].path@, export@, copied, true),
            )
        }),
{
    let copied = preserve_sld_root_output && outputs[at].flavor == FileFlavor::Normal;
    let own = output_links(outputs[at], preserve_sld_root_output);
    let link = (outputs[at].path@, outputs[at].hardlink->Some_0@, copied, false);
    assert(own[0] == link);
    lemma_links_hold(outputs, present, preserve_sld_root_output, at, link);
    if outputs[at].export_path is Some {
        let export = (outputs[at].path@, outputs[at].export_path->Some_0@, copied, true);
        assert(own[1] == export);
        lemma_links_hold(outputs, present, preserve_sld_root_output, at, export);
    }
}

/// The library that new metadata make stale stands beside them, under the same name
/// with the ending of a library.
pub proof fn law_stale_libraries_stand_beside_metadata(root: Seq<u8>, stem: Seq<u8>)
    requires
        is_absolute(root),
        root.len() == 1 || (root.last() != 0x2f && root.last() != 0x2e),
        is_plain_name(stem),
    ensures
        stale_library(root, stem + utf8(".rmeta"@)) == Some(
            joined(root, stem + utf8(".rlib"@)),
        ),
{
    let name = stem + utf8(".rmeta"@);
    reveal_strlit(".rmeta");
    reveal_strlit("rmeta");
    is_ascii_chars_encode_utf8(".rmeta"@);
    is_ascii_chars_encode_utf8("rmeta"@);
    let ending = utf8("rmeta"@);
    assert(utf8(".rmeta"@) =~= seq![0x2eu8] + ending);
    assert(ending =~= seq![0x72u8, 0x6du8, 0x65u8, 0x74u8, 0x61u8]);
    assert(name =~= stem + seq![0x2eu8] + ending);
    assert(!ending.contains(0x2e));
    assert(!name.contains(0x2f)) by {
        if name.contains(0x2f) {
            let k = choose|k: int| 0 <= k < name.len() && name[k] == 0x2f;
            if k < stem.len() {
                assert(stem[k] == 0x2f);
                assert(stem.contains(0x2f));
            } else if k == stem.len() {
                assert(name[k] == 0x2e);
            } else {
                assert(name[k] == ending[k - stem.len() - 1]);
            }
        }
    }
    assert(name.len() > 2);
    law_names_are_read_back(root, name, stem, ending);
    lemma_extension_alone(name, stem, ending);
    law_parents_are_read_back(root, name);
    assert(last_byte(name, DOT) == stem.len()) by {
        lemma_last_dot(name, stem, ending);
    }
    assert(name.take(stem.len() as int) =~= stem);
    assert(!is_absolute(stem + utf8(".rlib"@)));
}

/// The last dot of a name stands before its ending.
proof fn lemma_last_dot(name: Seq<u8>, stem: Seq<u8>, ending: Seq<u8>)
    requires
        name == stem + seq![0x2eu8] + ending,
        !ending.contains(0x2e),
    ensures
        last_byte(name, DOT) == stem.len(),
{
    assert forall|k: int| stem.len() < k < name.len() implies name[k] != DOT by {
        assert(name[k] == ending[k - stem.len() - 1]);
        assert(ending.contains(ending[k - stem.len() - 1]));
    }
    lemma_last_byte_at(name, DOT, stem.len() as int);
}

/// The ending of a name by itself.
proof fn lemma_extension_alone(name: Seq<u8>, stem: Seq<u8>, ending: Seq<u8>)
    requires
        name == stem + seq![0x2eu8] + ending,
        !ending.contains(0x2e),
        stem.len() > 0,
        file_name(name) == Some(name),
    ensures
        extension(name) == Some(ending),
{
    lemma_last_dot(name, stem, ending);
    assert(name.skip(stem.len() as int + 1) =~= ending);
}

} // verus!
