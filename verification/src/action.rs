//! Cached actions: which invocations become one, and what happens to it.

use vstd::prelude::*;
use vstd::string::*;
use vstd::utf8::*;

use crate::action_tree::action_gathered;
use crate::action_tree::artifact_cache_action_inputs_are_materialized;
use crate::action_tree::extern_exists;
use crate::action_tree::generated_exists;
use crate::admission::action_reason;
use crate::admission::is_cacheable;
use crate::admission::operands;
use crate::admission::rlib_action_is_cacheable_with_search_paths;
use crate::admission::unmodeled_rustc_action_reason;
use crate::bytes::bytes_equal;
use crate::bytes::copy_bytes;
use crate::bytes::utf8;
use crate::cache_key::artifact_cache_command_digest;
use crate::cache_key::artifact_cache_portable_remap;
use crate::cache_key::command_text;
use crate::cache_key::is_key;
use crate::cache_key::key_text;
use crate::cache_key::portable_remap;
use crate::cache_key::rlib_cache_entry;
use crate::cache_key::KeyContext;
use crate::cache_key::KeyInputs;
use crate::cache_key::PortableRemap;
use crate::cache_key::PreparedArtifactCacheKey;
use crate::command::lossy_list;
use crate::command::Command;
use crate::compiler_identity::ArtifactCacheIdentityWitness;
use crate::dependency_arguments::lib_search_paths;
use crate::dependency_arguments::operands_of;
use crate::dependency_arguments::search_dirs;
use crate::dependency_arguments::search_operands;
use crate::dependency_arguments::search_words;
use crate::dependency_arguments::SearchFacts;
use crate::digest::blake3_digest;
use crate::disk::Directory;
use crate::disk::Disk;
use crate::disk::FileKind;
use crate::disk::Lookup;
use crate::input_laws::gives_operand;
use crate::input_laws::lemma_operand_found;
use crate::installation::ArtifactCacheIdentity;
use crate::loader_digest::artifact_cache_loader_input_paths_are_modeled;
use crate::loader_digest::loader_text;
use crate::loader_digest::searches_are_modeled;
use crate::loader_inputs::are_roots;
use crate::loader_inputs::artifact_cache_host_is_supported;
use crate::loader_inputs::artifact_cache_loader_environment_is_modeled;
use crate::loader_inputs::artifact_cache_rustc_loader_environment_is_modeled;
use crate::loader_inputs::compiler_loader_input_paths;
use crate::loader_inputs::configured_is_modeled;
use crate::loader_inputs::inherited_is_modeled;
use crate::loader_inputs::loader_inputs;
use crate::loader_inputs::optional_slice;
use crate::loader_inputs::searched_inputs;
use crate::loader_inputs::settings_are_modeled;
use crate::loader_inputs::CompilerLoaderInput;
use crate::loader_inputs::ConfiguredVariable;
use crate::loader_inputs::Host;
use crate::loader_inputs::Roots;
use crate::loader_laws::law_steered_loaders_are_refused;
use crate::loader_laws::steers_the_loader;
use crate::remap::build_dir_remap;
use crate::remap::build_dir_rule;
use crate::remap::package_remap;
use crate::remap::package_rule;
use crate::remap::sysroot_remap;
use crate::remap::sysroot_rule;
use crate::remap::PackageSource;
use crate::remap::RemapFacts;
use crate::stats::clamped;
use crate::stats::counted;
use crate::stats::lookup_counted;
use crate::stats::ArtifactCacheStats;
use crate::stats::IneligibleReason;
use crate::text_laws::law_texts_are_cut_at_the_first;
use crate::unit::artifact_cache_compile_mode_is_supported;
use crate::unit::cacheable_mode;
use crate::unit::CompileMode;
use crate::unix_path::byte_strings;
use crate::unix_path::joined;
use crate::unix_path::path_has_prefix;
use crate::unix_path::path_starts_with;

verus! {

/// Why a unit is not looked for in the cache.
#[derive(Clone, Copy, Debug, PartialEq, Eq, Structural)]
pub enum Rejection {
    /// The executor did not say that a cached artifact can take its place.
    CustomExecutor,
    Ineligible(IneligibleReason),
}

/// What is known of a unit before it is looked for in the cache.
pub struct UnitFacts {
    pub executor_compatible: bool,
    pub is_lib: bool,
    pub is_proc_macro: bool,
    pub mode: CompileMode,
    pub sbom_files: usize,
    /// What the configuration sets in the environment.
    pub configured: Vec<ConfiguredVariable>,
}

/// Why a unit is not looked for in the cache, by the first reason that applies.
pub open spec fn static_rejection(facts: UnitFacts, host: Host, rustc: &Command) -> Option<
    Rejection,
> {
    if !facts.executor_compatible {
        Some(Rejection::CustomExecutor)
    } else if !facts.is_lib {
        Some(Rejection::Ineligible(IneligibleReason::TargetNotLibrary))
    } else if facts.is_proc_macro {
        Some(Rejection::Ineligible(IneligibleReason::ProcMacro))
    } else if !cacheable_mode(facts.mode) {
        Some(Rejection::Ineligible(IneligibleReason::CompileMode))
    } else if facts.sbom_files > 0 {
        Some(Rejection::Ineligible(IneligibleReason::Sbom))
    } else if !(host.linux || host.macos) {
        Some(Rejection::Ineligible(IneligibleReason::UnsupportedHost))
    } else if !(inherited_is_modeled(host, rustc) && configured_is_modeled(host, facts.configured@)
        && settings_are_modeled(host, rustc)) {
        Some(Rejection::Ineligible(IneligibleReason::UnmodeledLoaderEnvironment))
    } else {
        None
    }
}

/// Why a unit is not looked for in the cache.
pub fn find_static_rejection(facts: &UnitFacts, host: &Host, rustc: &Command) -> (rejection: Option<
    Rejection,
>)
    ensures
        rejection == static_rejection(*facts, *host, rustc),
{
    if !facts.executor_compatible {
        Some(Rejection::CustomExecutor)
    } else if !facts.is_lib {
        Some(Rejection::Ineligible(IneligibleReason::TargetNotLibrary))
    } else if facts.is_proc_macro {
        Some(Rejection::Ineligible(IneligibleReason::ProcMacro))
    } else if !artifact_cache_compile_mode_is_supported(facts.mode) {
        Some(Rejection::Ineligible(IneligibleReason::CompileMode))
    } else if facts.sbom_files > 0 {
        Some(Rejection::Ineligible(IneligibleReason::Sbom))
    } else if !artifact_cache_host_is_supported(host) {
        Some(Rejection::Ineligible(IneligibleReason::UnsupportedHost))
    } else if !artifact_cache_loader_environment_is_modeled(host, &facts.configured, rustc) {
        Some(Rejection::Ineligible(IneligibleReason::UnmodeledLoaderEnvironment))
    } else {
        None
    }
}

/// The prefix that stands for where a package is, in keys.
pub open spec fn package_place(facts: RemapFacts) -> Seq<char> {
    if facts.source == PackageSource::Git {
        "/__cargo_artifact_cache_git_checkouts"@
    } else if facts.source == PackageSource::Registry {
        "/__cargo_artifact_cache_registry_sources"@
    } else if path_starts_with(facts.package_root@, facts.workspace_root@) {
        "/__cargo_artifact_cache_workspace"@
    } else {
        "/__cargo_artifact_cache_package"@
    }
}

/// The prefix that stands for where a package is, in keys.
pub fn package_replacement(facts: &RemapFacts) -> (place: &'static str)
    ensures
        place@ == package_place(*facts),
{
    match facts.source {
        PackageSource::Git => "/__cargo_artifact_cache_git_checkouts",
        PackageSource::Registry => "/__cargo_artifact_cache_registry_sources",
        PackageSource::Other => if path_has_prefix(
            facts.package_root.as_slice(),
            facts.workspace_root.as_slice(),
        ) {
            "/__cargo_artifact_cache_workspace"
        } else {
            "/__cargo_artifact_cache_package"
        },
    }
}

/// A remap rule as it is written and as keys see it.
pub type Remap = (Seq<u8>, Seq<u8>);

/// Remap rules as plain values.
pub open spec fn plain_remaps(list: Seq<PortableRemap>) -> Seq<Remap> {
    list.map_values(|remap: PortableRemap| (remap.original@, remap.normalized@))
}

/// A remap rule as it is written and as keys see it, where keys see another.
pub open spec fn remap_in_keys(rule: Seq<u8>, place: Seq<char>) -> Seq<Remap> {
    match portable_remap(rule, place) {
        Some(normalized) => seq![(rule, utf8(normalized))],
        None => Seq::empty(),
    }
}

/// The remap rules that keys see with other prefixes.
pub open spec fn portable_remaps(facts: RemapFacts) -> Seq<Remap> {
    remap_in_keys(package_rule(facts), package_place(facts)) + remap_in_keys(
        build_dir_rule(facts),
        "/__cargo_artifact_cache_build_dir"@,
    ) + remap_in_keys(
        sysroot_rule(facts),
        "/__cargo_artifact_cache_compiler_sysroot/lib/rustlib/src/rust"@,
    )
}

/// Adds a remap rule, where keys see another.
fn push_remap(list: &mut Vec<PortableRemap>, rule: Vec<u8>, place: &str)
    ensures
        plain_remaps(final(list)@) == plain_remaps(old(list)@) + remap_in_keys(rule@, place@),
{
    let ghost before = list@;
    match artifact_cache_portable_remap(rule, place) {
        Some(remap) => {
            let ghost plain = (remap.original@, remap.normalized@);
            list.push(remap);
            proof {
                assert(plain_remaps(list@) =~= plain_remaps(before) + seq![plain]);
            }
        },
        None => {
            proof {
                assert(plain_remaps(list@) =~= plain_remaps(before) + Seq::<Remap>::empty());
            }
        },
    }
}

/// An invocation that may become a cached action.
pub struct Candidate {
    pub compiler_program: Vec<u8>,
    pub identity_program: Vec<u8>,
    pub dependency_search_paths: Vec<Vec<u8>>,
    pub portable_remaps: Vec<PortableRemap>,
    pub build_dir: Vec<u8>,
    pub output_root: Vec<u8>,
    pub cwd: Vec<u8>,
    pub rustc_verbose_version: String,
    pub rustc_host: String,
}

/// How an invocation goes on its way to a cached action.
pub enum ArtifactCacheActionBuilder {
    /// There is no cache.
    Disabled,
    /// It is not looked for in the cache.
    Rejected(Rejection),
    Candidate(Candidate),
}

/// What a candidate is made from.
pub struct CandidateFacts {
    pub compiler_program: Vec<u8>,
    /// The program that identifies the compiler, where one does.
    pub identity_program: Option<Vec<u8>>,
    pub build_dir: Vec<u8>,
    pub output_root: Vec<u8>,
    pub cwd: Vec<u8>,
    pub rustc_verbose_version: String,
    pub rustc_host: String,
    /// The libraries of the dependencies.
    pub search: SearchFacts,
    pub unit: usize,
    pub remap: RemapFacts,
    /// What is in the directories that the loader searches.
    pub loader_directories: Vec<Directory>,
}

/// The program that identifies a compiler: the compiler itself, where nothing
/// else does.
pub open spec fn identifying_program(facts: CandidateFacts) -> Seq<u8> {
    match facts.identity_program {
        Some(program) => program@,
        None => facts.compiler_program@,
    }
}

/// Whether a candidate is made from facts.
pub open spec fn is_candidate_of(candidate: Candidate, facts: CandidateFacts) -> bool {
    let words = search_words(search_dirs(facts.search, facts.unit as int));
    &&& candidate.compiler_program@ == facts.compiler_program@
    &&& candidate.identity_program@ == identifying_program(facts)
    &&& byte_strings(candidate.dependency_search_paths@) == operands_of(words, words.len() / 2)
    &&& plain_remaps(candidate.portable_remaps@) == portable_remaps(facts.remap)
    &&& candidate.build_dir@ == facts.build_dir@
    &&& candidate.output_root@ == facts.output_root@
    &&& candidate.cwd@ == facts.cwd@
    &&& candidate.rustc_verbose_version@ == facts.rustc_verbose_version@
    &&& candidate.rustc_host@ == facts.rustc_host@
}

impl ArtifactCacheActionBuilder {
    /// Starts an invocation on its way to a cached action.
    pub fn new(
        cache_configured: bool,
        unit: &UnitFacts,
        host: &Host,
        rustc: &Command,
        facts: &CandidateFacts,
    ) -> (builder: Self)
        requires
            facts.search.well_formed(),
            facts.unit < facts.search.deps_dirs@.len(),
        ensures
            match builder {
                ArtifactCacheActionBuilder::Disabled => !cache_configured,
                ArtifactCacheActionBuilder::Rejected(rejection) => cache_configured && (
                match static_rejection(*unit, *host, rustc) {
                    Some(expected) => rejection == expected,
                    None => !searches_are_modeled(*host, facts.loader_directories@) && rejection
                        == Rejection::Ineligible(IneligibleReason::UnmodeledLoaderInputs),
                }),
                ArtifactCacheActionBuilder::Candidate(candidate) => cache_configured
                    && static_rejection(*unit, *host, rustc) is None && searches_are_modeled(
                    *host,
                    facts.loader_directories@,
                ) && is_candidate_of(candidate, *facts),
            },
    {
        if !cache_configured {
            return ArtifactCacheActionBuilder::Disabled;
        }
        match find_static_rejection(unit, host, rustc) {
            Some(rejection) => {
                return ArtifactCacheActionBuilder::Rejected(rejection);
            },
            None => {},
        }
        if !artifact_cache_loader_input_paths_are_modeled(host, &facts.loader_directories) {
            return ArtifactCacheActionBuilder::Rejected(
                Rejection::Ineligible(IneligibleReason::UnmodeledLoaderInputs),
            );
        }
        let words = lib_search_paths(&facts.search, facts.unit);
        let dependency_search_paths = search_operands(&words);
        let identity_program = match &facts.identity_program {
            Some(program) => copy_bytes(program.as_slice()),
            None => copy_bytes(facts.compiler_program.as_slice()),
        };
        let mut remaps: Vec<PortableRemap> = Vec::new();
        proof {
            assert(plain_remaps(remaps@) =~= Seq::<Remap>::empty());
        }
        push_remap(&mut remaps, package_remap(&facts.remap), package_replacement(&facts.remap));
        proof {
            assert(plain_remaps(remaps@) =~= remap_in_keys(
                package_rule(facts.remap),
                package_place(facts.remap),
            ));
        }
        push_remap(
            &mut remaps,
            build_dir_remap(&facts.remap),
            "/__cargo_artifact_cache_build_dir",
        );
        push_remap(
            &mut remaps,
            sysroot_remap(&facts.remap),
            "/__cargo_artifact_cache_compiler_sysroot/lib/rustlib/src/rust",
        );
        proof {
            let plain = search_words(search_dirs(facts.search, facts.unit as int));
            assert(byte_strings(words@) == plain);
            assert(words@.len() == plain.len());
        }
        ArtifactCacheActionBuilder::Candidate(
            Candidate {
                compiler_program: copy_bytes(facts.compiler_program.as_slice()),
                identity_program,
                dependency_search_paths,
                portable_remaps: remaps,
                build_dir: copy_bytes(facts.build_dir.as_slice()),
                output_root: copy_bytes(facts.output_root.as_slice()),
                cwd: copy_bytes(facts.cwd.as_slice()),
                rustc_verbose_version: facts.rustc_verbose_version.as_str().to_owned(),
                rustc_host: facts.rustc_host.as_str().to_owned(),
            },
        )
    }

    /// Counts an invocation that was rejected at the start. A custom executor is
    /// not a reason that is counted.
    pub fn record_static_rejection(&self, stats: &mut ArtifactCacheStats)
        ensures
            match *self {
                ArtifactCacheActionBuilder::Rejected(Rejection::Ineligible(reason)) => final(stats).ineligible@ == old(stats).ineligible@.update(
                    reason.position(),
                    counted(old(stats).ineligible@[reason.position()], 1),
                ) && *final(stats) == (ArtifactCacheStats {
                    ineligible: final(stats).ineligible,
                    ..*old(stats)
                }),
                _ => *final(stats) == *old(stats),
            },
    {
        if let ArtifactCacheActionBuilder::Rejected(Rejection::Ineligible(reason)) = self {
            stats.ineligible(*reason);
        }
    }
}

/// Why a candidate does not become a cached action.
#[derive(Clone, Copy, Debug, PartialEq, Eq, Structural)]
pub enum Dismissal {
    Ineligible(IneligibleReason),
    /// What the invocation reads is not there yet.
    NotMaterialized,
}

impl Dismissal {
    /// Counts a candidate that was dismissed. One that is looked at again later
    /// is not counted.
    pub fn record(&self, stats: &mut ArtifactCacheStats)
        ensures
            match *self {
                Dismissal::Ineligible(reason) => final(stats).ineligible@ == old(stats).ineligible@.update(
                    reason.position(),
                    counted(old(stats).ineligible@[reason.position()], 1),
                ) && *final(stats) == (ArtifactCacheStats {
                    ineligible: final(stats).ineligible,
                    ..*old(stats)
                }),
                Dismissal::NotMaterialized => *final(stats) == *old(stats),
            },
    {
        match self {
            Dismissal::Ineligible(reason) => stats.ineligible(*reason),
            Dismissal::NotMaterialized => {},
        }
    }
}

/// Whether what an invocation reads is there.
pub open spec fn is_materialized(rustc: &Command, cwd: Seq<u8>, disk: Disk) -> bool {
    &&& forall|i: int|
        0 <= i < operands(lossy_list(rustc.argument_list()), "--extern"@).len() ==> extern_exists(
            #[trigger] operands(lossy_list(rustc.argument_list()), "--extern"@)[i],
            cwd,
            disk,
        )
    &&& forall|i: int|
        0 <= i < rustc.setting_list().len() ==> generated_exists(
            #[trigger] rustc.setting_list()[i],
            cwd,
            disk,
        )
}

/// Why an invocation does not become a cached action, before its loader inputs
/// are looked at.
pub open spec fn first_dismissal(
    candidate: Candidate,
    rustc: &Command,
    host: Host,
    disk: Disk,
    action_program: Seq<u8>,
    compiler_program: Seq<u8>,
    require_materialized_inputs: bool,
) -> Option<Dismissal> {
    if !is_cacheable(
        rustc,
        candidate.output_root@,
        action_program,
        compiler_program,
        candidate.rustc_host@,
        byte_strings(candidate.dependency_search_paths@),
    ) {
        Some(Dismissal::Ineligible(action_reason(rustc)))
    } else if require_materialized_inputs && !is_materialized(rustc, candidate.cwd@, disk) {
        Some(Dismissal::NotMaterialized)
    } else if !settings_are_modeled(host, rustc) {
        Some(Dismissal::Ineligible(IneligibleReason::UnmodeledLoaderEnvironment))
    } else {
        None
    }
}

impl Candidate {
    /// Checks an invocation, and tells which directories the loader searches.
    /// `action_program` and `compiler_program` are the program of the invocation
    /// and the compiler, as they were found.
    pub fn describe_loader_inputs(
        &self,
        rustc: &Command,
        host: &Host,
        disk: &Disk,
        action_program: &[u8],
        compiler_program: &[u8],
        require_materialized_inputs: bool,
    ) -> (inputs: Result<Vec<CompilerLoaderInput>, Dismissal>)
        requires
            rustc.well_formed(),
        ensures
            match inputs {
                Ok(inputs) => first_dismissal(
                    *self,
                    rustc,
                    *host,
                    *disk,
                    action_program@,
                    compiler_program@,
                    require_materialized_inputs,
                ) is None && exists|roots: Roots|
                    are_roots(
                        roots,
                        self.identity_program@,
                        self.build_dir@,
                        self.output_root@,
                        self.cwd@,
                    ) && loader_inputs(inputs@) == #[trigger] searched_inputs(
                        *host,
                        *disk,
                        rustc.effective("HOME"@),
                        rustc,
                        roots,
                    ),
                Err(dismissal) => first_dismissal(
                    *self,
                    rustc,
                    *host,
                    *disk,
                    action_program@,
                    compiler_program@,
                    require_materialized_inputs,
                ) == Some(dismissal),
            },
    {
        if !rlib_action_is_cacheable_with_search_paths(
            rustc,
            self.output_root.as_slice(),
            action_program,
            compiler_program,
            self.rustc_host.as_str(),
            &self.dependency_search_paths,
        ) {
            return Err(Dismissal::Ineligible(unmodeled_rustc_action_reason(rustc)));
        }
        if require_materialized_inputs && !artifact_cache_action_inputs_are_materialized(
            rustc,
            self.cwd.as_slice(),
            disk,
        ) {
            return Err(Dismissal::NotMaterialized);
        }
        if !artifact_cache_rustc_loader_environment_is_modeled(host, rustc) {
            return Err(Dismissal::Ineligible(IneligibleReason::UnmodeledLoaderEnvironment));
        }
        let home = rustc.get_env("HOME");
        let home_slice = match &home {
            Some(home) => Some(home.as_slice()),
            None => None,
        };
        let roots = Roots::new(
            self.identity_program.as_slice(),
            self.build_dir.as_slice(),
            self.output_root.as_slice(),
            self.cwd.as_slice(),
        );
        proof {
            assert(optional_slice(home_slice) == rustc.effective("HOME"@));
        }
        let inputs = compiler_loader_input_paths(host, disk, home_slice, rustc, &roots);
        Ok(inputs)
    }
}

/// The identity of a compiler, in the context of a key.
pub struct Identified<'a> {
    pub context: &'a KeyContext<'a>,
    pub witness: &'a ArtifactCacheIdentityWitness,
}

/// A cached action.
pub struct PreparedArtifactCacheAction {
    pub prepared: PreparedArtifactCacheKey,
    pub command_digest: [u8; 32],
}

/// Whether the key of an invocation can be made.
pub open spec fn has_key(
    rustc: &Command,
    cwd: Seq<u8>,
    context: KeyContext,
    witness: ArtifactCacheIdentityWitness,
    inputs: KeyInputs,
) -> bool {
    &&& key_text(context, rustc, Seq::empty(), Seq::empty()) is Some
    &&& loader_text(
        *context.host,
        *inputs.disk,
        context.loader_input_paths@,
        inputs.directories@,
        Some(witness),
    ) is Ok
    &&& action_gathered(rustc, cwd, *inputs.action) is Ok
}

/// Whether `action` is what an invocation whose loader inputs are known becomes:
/// a cached action with its key, or why it is none. `identified` is absent where
/// the compiler has no identity.
pub open spec fn is_description(
    action: Result<PreparedArtifactCacheAction, Dismissal>,
    host: Host,
    cache_root: Seq<u8>,
    rustc: &Command,
    cwd: Seq<u8>,
    identified: Option<(KeyContext, ArtifactCacheIdentityWitness)>,
    inputs: KeyInputs,
) -> bool {
    if !searches_are_modeled(host, inputs.directories@) {
        action == Err::<PreparedArtifactCacheAction, Dismissal>(
            Dismissal::Ineligible(IneligibleReason::UnmodeledLoaderInputs),
        )
    } else {
        match identified {
            None => action == Err::<PreparedArtifactCacheAction, Dismissal>(
                Dismissal::Ineligible(IneligibleReason::CompilerIdentityUnavailable),
            ),
            Some((context, witness)) => if !has_key(rustc, cwd, context, witness, inputs) {
                action == Err::<PreparedArtifactCacheAction, Dismissal>(
                    Dismissal::Ineligible(IneligibleReason::KeyGenerationFailure),
                )
            } else {
                &&& action is Ok
                &&& is_key(
                    action->Ok_0.prepared,
                    cache_root,
                    rustc,
                    context,
                    loader_text(
                        *context.host,
                        *inputs.disk,
                        context.loader_input_paths@,
                        inputs.directories@,
                        Some(witness),
                    )->Ok_0,
                    action_gathered(rustc, cwd, *inputs.action)->Ok_0,
                )
                &&& action->Ok_0.command_digest@ == blake3_digest(command_text(rustc))
            },
        }
    }
}

/// Makes a cached action of an invocation whose loader inputs are known.
/// `identified` is absent where the compiler has no identity.
pub fn describe_action(
    host: &Host,
    cache_root: &[u8],
    rustc: &Command,
    cwd: &[u8],
    identified: Option<Identified>,
    inputs: &KeyInputs,
) -> (action: Result<PreparedArtifactCacheAction, Dismissal>)
    requires
        identified is Some ==> inputs.directories@.len()
            == identified->Some_0.context.loader_input_paths@.len(),
    ensures
        match identified {
            Some(identified) => is_description(
                action,
                *host,
                cache_root@,
                rustc,
                cwd@,
                Some((*identified.context, *identified.witness)),
                *inputs,
            ),
            None => is_description(action, *host, cache_root@, rustc, cwd@, None, *inputs),
        },
{
    if !artifact_cache_loader_input_paths_are_modeled(host, inputs.directories) {
        return Err(Dismissal::Ineligible(IneligibleReason::UnmodeledLoaderInputs));
    }
    match identified {
        None => Err(Dismissal::Ineligible(IneligibleReason::CompilerIdentityUnavailable)),
        Some(identified) => {
            match rlib_cache_entry(
                cache_root,
                rustc,
                cwd,
                identified.context,
                Some(identified.witness),
                inputs,
            ) {
                Err(_) => Err(Dismissal::Ineligible(IneligibleReason::KeyGenerationFailure)),
                Ok(prepared) => {
                    let command_digest = artifact_cache_command_digest(rustc);
                    Ok(PreparedArtifactCacheAction { prepared, command_digest })
                },
            }
        },
    }
}

/// Whether a key is made from what a candidate holds.
pub open spec fn is_context_of(
    context: KeyContext,
    candidate: Candidate,
    host: Host,
    compiler_identity: Seq<u8>,
    loader_input_paths: Seq<CompilerLoaderInput>,
) -> bool {
    &&& *context.host == host
    &&& context.build_dir@ == candidate.build_dir@
    &&& context.output_root@ == candidate.output_root@
    &&& context.rustc_verbose_version@ == candidate.rustc_verbose_version@
    &&& context.compiler_identity@ == compiler_identity
    &&& context.compiler_program@ == candidate.identity_program@
    &&& *context.modeled_dependency_search_paths == candidate.dependency_search_paths
    &&& *context.portable_remaps == candidate.portable_remaps
    &&& context.loader_input_paths@ == loader_input_paths
}

impl Candidate {
    /// What the key of the invocation is made from beside its command and its
    /// inputs.
    pub fn key_context<'a>(
        &'a self,
        host: &'a Host,
        compiler_identity: &'a [u8; 32],
        loader_input_paths: &'a Vec<CompilerLoaderInput>,
    ) -> (context: KeyContext<'a>)
        ensures
            is_context_of(context, *self, *host, compiler_identity@, loader_input_paths@),
    {
        KeyContext {
            host,
            build_dir: self.build_dir.as_slice(),
            output_root: self.output_root.as_slice(),
            rustc_verbose_version: self.rustc_verbose_version.as_str(),
            compiler_identity,
            compiler_program: self.identity_program.as_slice(),
            modeled_dependency_search_paths: &self.dependency_search_paths,
            portable_remaps: &self.portable_remaps,
            loader_input_paths,
        }
    }

    /// Makes a cached action of the invocation, whose loader inputs are known.
    /// `identity` is absent where the compiler has none.
    pub fn describe(
        &self,
        host: &Host,
        cache_root: &[u8],
        rustc: &Command,
        identity: Option<&ArtifactCacheIdentity>,
        loader_input_paths: &Vec<CompilerLoaderInput>,
        inputs: &KeyInputs,
    ) -> (action: Result<PreparedArtifactCacheAction, Dismissal>)
        requires
            inputs.directories@.len() == loader_input_paths@.len(),
        ensures
            match identity {
                Some(identity) => exists|context: KeyContext|
                    #[trigger] is_context_of(
                        context,
                        *self,
                        *host,
                        identity.digest@,
                        loader_input_paths@,
                    ) && is_description(
                        action,
                        *host,
                        cache_root@,
                        rustc,
                        self.cwd@,
                        Some((context, identity.witness)),
                        *inputs,
                    ),
                None => is_description(
                    action,
                    *host,
                    cache_root@,
                    rustc,
                    self.cwd@,
                    None,
                    *inputs,
                ),
            },
    {
        match identity {
            None => describe_action(host, cache_root, rustc, self.cwd.as_slice(), None, inputs),
            Some(identity) => {
                let context = self.key_context(host, &identity.digest, loader_input_paths);
                let identified = Identified { context: &context, witness: &identity.witness };
                describe_action(
                    host,
                    cache_root,
                    rustc,
                    self.cwd.as_slice(),
                    Some(identified),
                    inputs,
                )
            },
        }
    }
}

/// A candidate gives one key: whichever context is made from what it holds, the
/// text that is hashed is the same.
pub proof fn law_candidates_have_one_key(
    candidate: Candidate,
    host: Host,
    compiler_identity: Seq<u8>,
    loader_input_paths: Seq<CompilerLoaderInput>,
    left: KeyContext,
    right: KeyContext,
    rustc: &Command,
    loader_digest: Seq<u8>,
    action_digest: Seq<u8>,
)
    requires
        is_context_of(left, candidate, host, compiler_identity, loader_input_paths),
        is_context_of(right, candidate, host, compiler_identity, loader_input_paths),
    ensures
        key_text(left, rustc, loader_digest, action_digest) == key_text(
            right,
            rustc,
            loader_digest,
            action_digest,
        ),
{
}

/// Counts an invocation that was described: it is eligible, or dismissed.
pub fn record_description(dismissal: &Option<Dismissal>, stats: &mut ArtifactCacheStats)
    ensures
        match *dismissal {
            None => *final(stats) == (ArtifactCacheStats {
                eligible: counted(old(stats).eligible, 1),
                ..*old(stats)
            }),
            Some(Dismissal::Ineligible(reason)) => final(stats).ineligible@ == old(stats).ineligible@.update(
                reason.position(),
                counted(old(stats).ineligible@[reason.position()], 1),
            ) && *final(stats) == (ArtifactCacheStats {
                ineligible: final(stats).ineligible,
                ..*old(stats)
            }),
            Some(Dismissal::NotMaterialized) => *final(stats) == *old(stats),
        },
{
    match dismissal {
        None => stats.eligible(),
        Some(dismissal) => dismissal.record(stats),
    }
}

/// Whether an invocation is still the one that an action was prepared for.
pub fn confirm_prepared_action(rustc: &Command, command_digest: &[u8; 32]) -> (same: bool)
    ensures
        same == (command_digest@ == blake3_digest(command_text(rustc))),
{
    let digest = artifact_cache_command_digest(rustc);
    bytes_equal(digest.as_slice(), command_digest.as_slice())
}

/// Whether a restore was a hit, and how it is counted: a failed restore is a
/// miss. Without an action nothing is looked for and nothing counted.
pub fn restore_artifact_cache_action(
    has_action: bool,
    restored: Result<bool, ()>,
    elapsed: u128,
    stats: &mut ArtifactCacheStats,
) -> (hit: bool)
    ensures
        hit == (has_action && restored == Ok::<bool, ()>(true)),
        *final(stats) == if has_action {
            lookup_counted(*old(stats), hit, restored is Err, clamped(elapsed))
        } else {
            *old(stats)
        },
{
    if !has_action {
        return false;
    }
    let (hit, failed) = match restored {
        Ok(hit) => (hit, false),
        Err(_) => (false, true),
    };
    stats.restore_finished(hit, failed, elapsed);
    hit
}

/// A unit is looked for in the cache only where nothing speaks against it: the
/// executor agrees, the unit is a library and no macro, it is built or checked and no
/// test, nothing else is written beside it, and the host is one whose loader is
/// followed, with nothing that steers it. A reason that is given applies.
pub proof fn law_looked_for_units_are_plain_libraries(facts: UnitFacts, host: Host, rustc: &Command)
    ensures
        static_rejection(facts, host, rustc) is None ==> {
            &&& facts.executor_compatible
            &&& facts.is_lib
            &&& !facts.is_proc_macro
            &&& facts.mode == CompileMode::Build || facts.mode == (CompileMode::Check {
                test: false,
            })
            &&& facts.sbom_files == 0
            &&& host.linux || host.macos
            &&& forall|i: int|
                0 <= i < rustc.setting_list().len() ==> ((
                #[trigger] rustc.setting_list()[i]).1 is Some ==> !steers_the_loader(
                    host,
                    rustc.setting_list()[i].0,
                    rustc.setting_list()[i].1->Some_0,
                ))
            &&& forall|i: int|
                0 <= i < facts.configured@.len() ==> !steers_the_loader(
                    host,
                    (#[trigger] facts.configured@[i]).name@,
                    utf8(facts.configured@[i].value@),
                )
        },
        static_rejection(facts, host, rustc) matches Some(rejection) ==> match rejection {
            Rejection::CustomExecutor => !facts.executor_compatible,
            Rejection::Ineligible(IneligibleReason::TargetNotLibrary) => !facts.is_lib,
            Rejection::Ineligible(IneligibleReason::ProcMacro) => facts.is_proc_macro,
            Rejection::Ineligible(IneligibleReason::CompileMode) => facts.mode
                != CompileMode::Build && facts.mode != (CompileMode::Check { test: false }),
            Rejection::Ineligible(IneligibleReason::Sbom) => facts.sbom_files > 0,
            Rejection::Ineligible(IneligibleReason::UnsupportedHost) => !host.linux && !host.macos,
            Rejection::Ineligible(IneligibleReason::UnmodeledLoaderEnvironment) => !(
            inherited_is_modeled(host, rustc) && configured_is_modeled(host, facts.configured@)
                && settings_are_modeled(host, rustc)),
            _ => false,
        },
{
    law_steered_loaders_are_refused(host, rustc, facts.configured@);
}

/// The inputs of an invocation are there only where every crate that it links by name
/// is a file on disk, and every directory that a build script wrote to is one.
pub proof fn law_materialized_inputs_are_there(
    rustc: &Command,
    cwd: Seq<u8>,
    disk: Disk,
    at: int,
    name: Seq<char>,
    path: Seq<char>,
    setting: int,
)
    requires
        is_materialized(rustc, cwd, disk),
    ensures
        gives_operand(rustc, at, "--extern"@, name + seq!['='] + path) && !name.contains('=')
            ==> (disk.followed(joined(cwd, utf8(path))) matches Lookup::Found(found) && found.kind
            == FileKind::File),
        0 <= setting < rustc.setting_list().len() && (rustc.setting_list()[setting].0 == "OUT_DIR"@
            || "_OUT_DIR"@.is_suffix_of(rustc.setting_list()[setting].0)) ==> (
        rustc.setting_list()[setting].1 matches Some(value) ==> (disk.followed(
            joined(cwd, value),
        ) matches Lookup::Found(found) && found.kind == FileKind::Directory)),
{
    let arguments = lossy_list(rustc.argument_list());
    let list = operands(arguments, "--extern"@);
    let operand = name + seq!['='] + path;
    if gives_operand(rustc, at, "--extern"@, operand) && !name.contains('=') {
        lemma_operand_found(arguments, "--extern"@, at);
        let k = choose|k: int| 0 <= k < list.len() && list[k] == operand;
        assert(extern_exists(list[k], cwd, disk));
        law_texts_are_cut_at_the_first(name, '=', path);
    }
    if 0 <= setting < rustc.setting_list().len() {
        assert(generated_exists(rustc.setting_list()[setting], cwd, disk));
    }
}

} // verus!
