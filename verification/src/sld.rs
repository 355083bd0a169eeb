//! Incremental linking with the native linker: when it is used, what its
//! environment is, and how its outputs are kept apart.

use vstd::prelude::*;
use vstd::string::*;

use crate::bytes::copy_bytes;
use crate::bytes::optional;
use crate::bytes::utf8;
use crate::command::copy_value;
use crate::command::explicit_setting;
use crate::command::law_settings_take_effect;
use crate::command::with_setting;
use crate::command::Command;
use crate::disk::FileKind;
use crate::disk::Lookup;
use crate::disk::Metadata;
use crate::text::text_is;
use crate::text::texts;
use crate::unit::CompileMode;
use crate::unix_path::parent;
use crate::unix_path::path_parent;

verus! {

/// The hosts and targets that are supported.
pub const SLD_TRIPLE: &'static str = "aarch64-apple-darwin";

/// Settings of an environment.
pub type Settings = Seq<(Seq<char>, Option<Seq<u8>>)>;

/// Whether a host is supported.
pub fn sld_native_incremental_supported(host_triple: &str) -> (supported: bool)
    ensures
        supported == (host_triple@ == SLD_TRIPLE@),
{
    text_is(host_triple, SLD_TRIPLE)
}

/// Whether incremental linking is asked for on a host that supports it.
pub fn sld_native_incremental_requested(enabled: bool, host_triple: &str) -> (requested: bool)
    ensures
        requested == (enabled && host_triple@ == SLD_TRIPLE@),
{
    enabled && sld_native_incremental_supported(host_triple)
}

/// What users are warned of.
#[derive(Clone, Copy, Debug, PartialEq, Eq, Structural)]
pub enum SldWarning {
    /// The host is not supported.
    UnsupportedHost,
    /// One of the targets is not supported.
    UnsupportedTarget,
}

impl SldWarning {
    /// The text of the warning.
    pub fn text(&self) -> (text: &'static str)
        ensures
            text@ == match *self {
                SldWarning::UnsupportedHost =>
                    "`-Z sld-native-incremental` is ignored because it only supports aarch64-apple-darwin hosts and targets"@,
                SldWarning::UnsupportedTarget =>
                    "`-Z sld-native-incremental` is only enabled for aarch64-apple-darwin targets; unsupported targets are ignored"@,
            },
    {
        match self {
            SldWarning::UnsupportedHost =>
                "`-Z sld-native-incremental` is ignored because it only supports aarch64-apple-darwin hosts and targets",
            SldWarning::UnsupportedTarget =>
                "`-Z sld-native-incremental` is only enabled for aarch64-apple-darwin targets; unsupported targets are ignored",
        }
    }
}

/// Whether a target is not supported.
pub open spec fn has_unsupported(targets: Seq<Seq<char>>) -> bool {
    exists|i: int| 0 <= i < targets.len() && #[trigger] targets[i] != SLD_TRIPLE@
}

/// What users are warned of, before the first unit is compiled.
pub fn warn_if_sld_native_incremental_unsupported(
    enabled: bool,
    compiled_anything: bool,
    host_triple: &str,
    targets: &Vec<String>,
) -> (warning: Option<SldWarning>)
    ensures
        warning == if !enabled || compiled_anything {
            None
        } else if host_triple@ != SLD_TRIPLE@ {
            Some(SldWarning::UnsupportedHost)
        } else if has_unsupported(texts(targets@)) {
            Some(SldWarning::UnsupportedTarget)
        } else {
            None
        },
{
    if !enabled || compiled_anything {
        return None;
    }
    if !sld_native_incremental_supported(host_triple) {
        return Some(SldWarning::UnsupportedHost);
    }
    let mut index: usize = 0;
    while index < targets.len()
        invariant
            index <= targets@.len(),
            enabled,
            !compiled_anything,
            host_triple@ == SLD_TRIPLE@,
            forall|i: int| 0 <= i < index ==> #[trigger] texts(targets@)[i] == SLD_TRIPLE@,
        decreases targets@.len() - index,
    {
        proof {
            assert(texts(targets@)[index as int] == targets@[index as int]@);
        }
        if !text_is(targets[index].as_str(), SLD_TRIPLE) {
            return Some(SldWarning::UnsupportedTarget);
        }
        index = index + 1;
    }
    None
}

/// Whether a unit is linked incrementally: it is an executable that was asked
/// for, built for a supported target.
pub fn sld_native_incremental_root_output(
    requested: bool,
    target: &str,
    is_root: bool,
    is_executable: bool,
    mode: CompileMode,
) -> (root: bool)
    ensures
        root == (requested && target@ == SLD_TRIPLE@ && is_root && is_executable && mode
            == CompileMode::Build),
{
    requested && text_is(target, SLD_TRIPLE) && is_root && is_executable && match mode {
        CompileMode::Build => true,
        _ => false,
    }
}

/// Whether a unit tells where its objects come from. The compiler hands that on
/// to the linker, so only units that are not linked do.
pub fn sld_native_incremental_rlib_producer(
    requested: bool,
    target: &str,
    mode: CompileMode,
    requires_upstream_objects: bool,
) -> (producer: bool)
    ensures
        producer == (requested && target@ == SLD_TRIPLE@ && mode == CompileMode::Build
            && !requires_upstream_objects),
{
    requested && text_is(target, SLD_TRIPLE) && match mode {
        CompileMode::Build => true,
        _ => false,
    } && !requires_upstream_objects
}

/// A variable of the environment that incremental linking reads: what the
/// configuration sets counts before what the process has.
pub fn sld_native_incremental_root_variable(
    configured: &Option<Vec<u8>>,
    inherited: &Option<Vec<u8>>,
) -> (value: Option<Vec<u8>>)
    ensures
        optional(value) == match *configured {
            Some(value) => Some(value@),
            None => optional(*inherited),
        },
{
    match configured {
        Some(value) => Some(copy_bytes(value.as_slice())),
        None => copy_value(inherited),
    }
}

/// Settings with the variables of incremental linking removed.
pub open spec fn without_sld(list: Settings) -> Settings {
    let list = with_setting(list, "SLD_EXPERIMENT_PRIVATE_PERSISTENT_OUTPUT"@, None);
    let list = with_setting(list, "SLD_EXPERIMENT_UNSIGNED_PERSISTENT_OUTPUT"@, None);
    let list = with_setting(list, "SLD_INCREMENTAL"@, None);
    let list = with_setting(list, "SLD_INCREMENTAL_PADDING_PERCENT"@, None);
    let list = with_setting(list, "SLD_RUSTC_WORK_PRODUCT_PROVENANCE"@, None);
    let list = with_setting(list, "SLD_RUSTC_WORK_PRODUCT_PROVENANCE_FILE"@, None);
    with_setting(list, "SLD_STABILIZE_RUSTC_TRANSIENT_INPUTS"@, None)
}

/// Removes the variables of incremental linking.
pub fn remove_sld_native_incremental_env(command: &mut Command)
    requires
        old(command).well_formed(),
    ensures
        final(command).well_formed(),
        final(command).setting_list() == without_sld(old(command).setting_list()),
        final(command).wrappers == old(command).wrappers,
        final(command).program == old(command).program,
        final(command).arguments == old(command).arguments,
        final(command).directory == old(command).directory,
        final(command).inherited == old(command).inherited,
        final(command).retry_with_argfile == old(command).retry_with_argfile,
{
    command.env_remove("SLD_EXPERIMENT_PRIVATE_PERSISTENT_OUTPUT");
    command.env_remove("SLD_EXPERIMENT_UNSIGNED_PERSISTENT_OUTPUT");
    command.env_remove("SLD_INCREMENTAL");
    command.env_remove("SLD_INCREMENTAL_PADDING_PERCENT");
    command.env_remove("SLD_RUSTC_WORK_PRODUCT_PROVENANCE");
    command.env_remove("SLD_RUSTC_WORK_PRODUCT_PROVENANCE_FILE");
    command.env_remove("SLD_STABILIZE_RUSTC_TRANSIENT_INPUTS");
}

/// Makes an invocation tell where its objects come from.
pub fn configure_sld_native_incremental_rlib_producer(command: &mut Command)
    requires
        old(command).well_formed(),
    ensures
        final(command).well_formed(),
        final(command).setting_list() == with_setting(
            without_sld(old(command).setting_list()),
            "SLD_RUSTC_WORK_PRODUCT_PROVENANCE"@,
            Some(utf8("1"@)),
        ),
        final(command).wrappers == old(command).wrappers,
        final(command).program == old(command).program,
        final(command).arguments == old(command).arguments,
        final(command).directory == old(command).directory,
        final(command).inherited == old(command).inherited,
        final(command).retry_with_argfile == old(command).retry_with_argfile,
{
    remove_sld_native_incremental_env(command);
    command.env("SLD_RUSTC_WORK_PRODUCT_PROVENANCE", "1".as_bytes());
}

/// A value, or `1` where there is none.
pub open spec fn value_or_one(value: Option<Seq<u8>>) -> Seq<u8> {
    match value {
        Some(value) => value,
        None => utf8("1"@),
    }
}

/// The settings of an invocation that links incrementally.
pub open spec fn root_settings(
    list: Settings,
    padding_percent: Option<Seq<u8>>,
    provenance: Option<Seq<u8>>,
    stabilize: Option<Seq<u8>>,
) -> Settings {
    let list = without_sld(list);
    let list = with_setting(
        list,
        "SLD_EXPERIMENT_PRIVATE_PERSISTENT_OUTPUT"@,
        Some(utf8("1"@)),
    );
    let list = with_setting(list, "SLD_INCREMENTAL"@, Some(utf8("1"@)));
    let list = with_setting(
        list,
        "SLD_RUSTC_WORK_PRODUCT_PROVENANCE"@,
        Some(value_or_one(provenance)),
    );
    let list = with_setting(
        list,
        "SLD_STABILIZE_RUSTC_TRANSIENT_INPUTS"@,
        Some(value_or_one(stabilize)),
    );
    match padding_percent {
        Some(value) => with_setting(list, "SLD_INCREMENTAL_PADDING_PERCENT"@, Some(value)),
        None => list,
    }
}

/// Sets a variable to a value, or to `1` where there is none.
fn set_or_one(command: &mut Command, name: &str, value: &Option<Vec<u8>>)
    requires
        old(command).well_formed(),
    ensures
        final(command).well_formed(),
        final(command).setting_list() == with_setting(
            old(command).setting_list(),
            name@,
            Some(value_or_one(optional(*value))),
        ),
        final(command).wrappers == old(command).wrappers,
        final(command).program == old(command).program,
        final(command).arguments == old(command).arguments,
        final(command).directory == old(command).directory,
        final(command).inherited == old(command).inherited,
        final(command).retry_with_argfile == old(command).retry_with_argfile,
{
    match value {
        Some(value) => command.env(name, value.as_slice()),
        None => command.env(name, "1".as_bytes()),
    }
}

/// Makes an invocation link incrementally.
pub fn configure_sld_native_incremental_root(
    command: &mut Command,
    padding_percent: &Option<Vec<u8>>,
    rustc_work_product_provenance: &Option<Vec<u8>>,
    stabilize_rustc_transient_inputs: &Option<Vec<u8>>,
)
    requires
        old(command).well_formed(),
    ensures
        final(command).well_formed(),
        final(command).setting_list() == root_settings(
            old(command).setting_list(),
            optional(*padding_percent),
            optional(*rustc_work_product_provenance),
            optional(*stabilize_rustc_transient_inputs),
        ),
        final(command).wrappers == old(command).wrappers,
        final(command).program == old(command).program,
        final(command).arguments == old(command).arguments,
        final(command).directory == old(command).directory,
        final(command).inherited == old(command).inherited,
        final(command).retry_with_argfile == old(command).retry_with_argfile,
{
    remove_sld_native_incremental_env(command);
    command.env("SLD_EXPERIMENT_PRIVATE_PERSISTENT_OUTPUT", "1".as_bytes());
    command.env("SLD_INCREMENTAL", "1".as_bytes());
    set_or_one(command, "SLD_RUSTC_WORK_PRODUCT_PROVENANCE", rustc_work_product_provenance);
    set_or_one(command, "SLD_STABILIZE_RUSTC_TRANSIENT_INPUTS", stabilize_rustc_transient_inputs);
    match padding_percent {
        Some(value) => command.env("SLD_INCREMENTAL_PADDING_PERCENT", value.as_slice()),
        None => {},
    }
}

/// How often a copy is tried again.
pub const COPY_RETRIES: u32 = 10;

/// What came of an attempt to copy.
#[derive(Clone, Copy, Debug, PartialEq, Eq, Structural)]
pub enum CopyAttempt {
    Copied,
    /// The system asks to try again.
    Again,
    Failed,
}

/// What follows an attempt to copy.
#[derive(Clone, Copy, Debug, PartialEq, Eq, Structural)]
pub enum CopyStep {
    Done,
    /// What is at the destination is removed, and after a pause the copy is
    /// tried again, with this many retries left.
    Retry(u32),
    Fail,
}

/// What follows an attempt to copy an output of incremental linking. Only macOS
/// asks to try again.
pub fn copy_sld_native_incremental_artifact(attempt: CopyAttempt, macos: bool, retries: u32) -> (step:
    CopyStep)
    ensures
        step == match attempt {
            CopyAttempt::Copied => CopyStep::Done,
            CopyAttempt::Again => if macos && retries > 0 {
                CopyStep::Retry((retries - 1) as u32)
            } else {
                CopyStep::Fail
            },
            CopyAttempt::Failed => CopyStep::Fail,
        },
{
    match attempt {
        CopyAttempt::Copied => CopyStep::Done,
        CopyAttempt::Again => if macos && retries > 0 {
            CopyStep::Retry(retries - 1)
        } else {
            CopyStep::Fail
        },
        CopyAttempt::Failed => CopyStep::Fail,
    }
}

/// What a run of attempts to copy comes to. `None` where it is not over.
pub open spec fn copy_run(attempts: Seq<CopyAttempt>, macos: bool, retries: u32) -> Option<bool>
    decreases attempts.len(),
{
    if attempts.len() == 0 {
        None
    } else {
        match attempts[0] {
            CopyAttempt::Copied => Some(true),
            CopyAttempt::Failed => Some(false),
            CopyAttempt::Again => if macos && retries > 0 {
                copy_run(attempts.drop_first(), macos, (retries - 1) as u32)
            } else {
                Some(false)
            },
        }
    }
}

/// A copy is over after one attempt more than the retries.
pub proof fn law_copies_end(attempts: Seq<CopyAttempt>, macos: bool, retries: u32)
    requires
        attempts.len() > retries,
    ensures
        copy_run(attempts, macos, retries) is Some,
    decreases attempts.len(),
{
    if attempts[0] is Again && macos && retries > 0 {
        law_copies_end(attempts.drop_first(), macos, (retries - 1) as u32);
    }
}

/// Why an output of incremental linking cannot be handled.
#[derive(Clone, Copy, Debug, PartialEq, Eq, Structural)]
pub enum SldArtifactError {
    Uninspectable,
    NoParent,
}

/// Whether an output has other names than its own.
pub fn sld_native_incremental_artifact_has_multiple_links(
    found: &Lookup<Metadata>,
    unix: bool,
) -> (multiple: Result<bool, SldArtifactError>)
    ensures
        multiple == if !unix {
            Ok::<bool, SldArtifactError>(false)
        } else {
            match *found {
                Lookup::Found(metadata) => Ok::<bool, SldArtifactError>(metadata.links > 1),
                _ => Err::<bool, SldArtifactError>(SldArtifactError::Uninspectable),
            }
        },
{
    if !unix {
        return Ok(false);
    }
    match found {
        Lookup::Found(metadata) => Ok(metadata.links > 1),
        _ => Err(SldArtifactError::Uninspectable),
    }
}

/// Whether an output is a regular file.
pub fn sld_native_incremental_artifact_is_regular_file(found: &Lookup<Metadata>) -> (regular: Result<
    bool,
    SldArtifactError,
>)
    ensures
        regular == match *found {
            Lookup::Found(metadata) => Ok::<bool, SldArtifactError>(
                metadata.kind == FileKind::File,
            ),
            _ => Err::<bool, SldArtifactError>(SldArtifactError::Uninspectable),
        },
{
    match found {
        Lookup::Found(metadata) => Ok(metadata.kind == FileKind::File),
        _ => Err(SldArtifactError::Uninspectable),
    }
}

/// The directory in which a copy of an output is made that takes its place.
pub fn isolate_sld_native_incremental_artifact(path: &[u8]) -> (directory: Result<
    Vec<u8>,
    SldArtifactError,
>)
    ensures
        match (directory, parent(path@)) {
            (Ok(directory), Some(expected)) => directory@ == expected,
            (Err(error), None) => error == SldArtifactError::NoParent,
            _ => false,
        },
{
    match path_parent(path) {
        Some(directory) => Ok(directory),
        None => Err(SldArtifactError::NoParent),
    }
}

/// An invocation that links incrementally has the variables of incremental
/// linking as given, whatever it had before, and none of the others of them.
pub proof fn law_root_settings(
    list: Settings,
    padding_percent: Option<Seq<u8>>,
    provenance: Option<Seq<u8>>,
    stabilize: Option<Seq<u8>>,
)
    requires
        crate::command::ordered(list),
    ensures
        ({
            let result = root_settings(list, padding_percent, provenance, stabilize);
            &&& explicit_setting(result, "SLD_INCREMENTAL"@) == Some(Some(utf8("1"@)))
            &&& explicit_setting(result, "SLD_INCREMENTAL_PADDING_PERCENT"@) == Some(
                padding_percent,
            )
            &&& explicit_setting(result, "SLD_RUSTC_WORK_PRODUCT_PROVENANCE"@) == Some(
                Some(value_or_one(provenance)),
            )
            &&& explicit_setting(result, "SLD_RUSTC_WORK_PRODUCT_PROVENANCE_FILE"@) == Some(
                None::<Seq<u8>>,
            )
            &&& explicit_setting(result, "SLD_STABILIZE_RUSTC_TRANSIENT_INPUTS"@) == Some(
                Some(value_or_one(stabilize)),
            )
            &&& explicit_setting(result, "SLD_EXPERIMENT_UNSIGNED_PERSISTENT_OUTPUT"@) == Some(
                None::<Seq<u8>>,
            )
        }),
{
    reveal_strlit("SLD_EXPERIMENT_PRIVATE_PERSISTENT_OUTPUT");
    reveal_strlit("SLD_EXPERIMENT_UNSIGNED_PERSISTENT_OUTPUT");
    reveal_strlit("SLD_INCREMENTAL");
    reveal_strlit("SLD_INCREMENTAL_PADDING_PERCENT");
    reveal_strlit("SLD_RUSTC_WORK_PRODUCT_PROVENANCE");
    reveal_strlit("SLD_RUSTC_WORK_PRODUCT_PROVENANCE_FILE");
    reveal_strlit("SLD_STABILIZE_RUSTC_TRANSIENT_INPUTS");
    let private = "SLD_EXPERIMENT_PRIVATE_PERSISTENT_OUTPUT"@;
    let unsigned = "SLD_EXPERIMENT_UNSIGNED_PERSISTENT_OUTPUT"@;
    let incremental = "SLD_INCREMENTAL"@;
    let padding = "SLD_INCREMENTAL_PADDING_PERCENT"@;
    let work = "SLD_RUSTC_WORK_PRODUCT_PROVENANCE"@;
    let file = "SLD_RUSTC_WORK_PRODUCT_PROVENANCE_FILE"@;
    let stable = "SLD_STABILIZE_RUSTC_TRANSIENT_INPUTS"@;
    assert(private.len() == 40 && unsigned.len() == 41 && incremental.len() == 15 && padding.len()
        == 31 && work.len() == 33 && file.len() == 38 && stable.len() == 36);
    let l1 = with_setting(list, private, None);
    let l2 = with_setting(l1, unsigned, None);
    let l3 = with_setting(l2, incremental, None);
    let l4 = with_setting(l3, padding, None);
    let l5 = with_setting(l4, work, None);
    let l6 = with_setting(l5, file, None);
    let l7 = with_setting(l6, stable, None);
    let l8 = with_setting(l7, private, Some(utf8("1"@)));
    let l9 = with_setting(l8, incremental, Some(utf8("1"@)));
    let l10 = with_setting(l9, work, Some(value_or_one(provenance)));
    let l11 = with_setting(l10, stable, Some(value_or_one(stabilize)));
    lemma_step(list, private, None);
    lemma_step(l1, unsigned, None);
    lemma_step(l2, incremental, None);
    lemma_step(l3, padding, None);
    lemma_step(l4, work, None);
    lemma_step(l5, file, None);
    lemma_step(l6, stable, None);
    lemma_step(l7, private, Some(utf8("1"@)));
    lemma_step(l8, incremental, Some(utf8("1"@)));
    lemma_step(l9, work, Some(value_or_one(provenance)));
    lemma_step(l10, stable, Some(value_or_one(stabilize)));
    match padding_percent {
        Some(value) => {
            lemma_step(l11, padding, Some(value));
        },
        None => {},
    }
}

/// Setting a variable, for all others at once.
proof fn lemma_step(list: Settings, name: Seq<char>, value: Option<Seq<u8>>)
    requires
        crate::command::ordered(list),
    ensures
        crate::command::ordered(with_setting(list, name, value)),
        explicit_setting(with_setting(list, name, value), name) == Some(value),
        forall|other: Seq<char>|
            other != name ==> #[trigger] explicit_setting(with_setting(list, name, value), other)
                == explicit_setting(list, other),
{
    crate::command::lemma_with_setting_ordered(list, name, value);
    law_settings_take_effect(list, name, value, name);
    assert forall|other: Seq<char>| other != name implies #[trigger] explicit_setting(
        with_setting(list, name, value),
        other,
    ) == explicit_setting(list, other) by {
        law_settings_take_effect(list, name, value, other);
    }
}

/// A copy that has to be tried again is, on macOS, as often as is allowed: it is made
/// where it succeeds in time, and given up where it does not. Elsewhere it is given
/// up at once, and a copy that fails is not tried again anywhere.
pub proof fn law_copies_are_retried(attempts: Seq<CopyAttempt>, macos: bool, retries: u32, again: int)
    requires
        0 <= again < attempts.len(),
        forall|i: int| 0 <= i < again ==> (#[trigger] attempts[i]) is Again,
        !(attempts[again] is Again),
    ensures
        macos && again <= retries ==> copy_run(attempts, macos, retries) == Some(
            attempts[again] is Copied,
        ),
        macos && again > retries ==> copy_run(attempts, macos, retries) == Some(false),
        !macos && again == 0 ==> copy_run(attempts, macos, retries) == Some(attempts[0] is Copied),
        !macos && again > 0 ==> copy_run(attempts, macos, retries) == Some(false),
    decreases attempts.len(),
{
    if again > 0 {
        assert(attempts[0] is Again);
        if macos && retries > 0 {
            let rest = attempts.drop_first();
            assert forall|i: int| 0 <= i < again - 1 implies (#[trigger] rest[i]) is Again by {
                assert(rest[i] == attempts[i + 1]);
            }
            law_copies_are_retried(rest, macos, (retries - 1) as u32, again - 1);
        }
    }
}

} // verus!
