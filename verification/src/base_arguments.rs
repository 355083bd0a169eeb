//! The essential arguments of a compiler invocation.

use vstd::prelude::*;
use vstd::string::*;
use vstd::utf8::*;

use crate::arguments::flag;
use crate::arguments::lemma_no_words;
use crate::arguments::no_words;
use crate::arguments::push_flag;
use crate::arguments::push_joined_flag;
use crate::arguments::push_raw_flag;
use crate::arguments::push_raw_word;
use crate::arguments::push_repeated_flag;
use crate::arguments::push_text_flag;
use crate::arguments::push_text_words;
use crate::arguments::push_word;
use crate::arguments::push_words;
use crate::arguments::repeated_flag;
use crate::arguments::text_flag;
use crate::arguments::text_words;
use crate::arguments::two_texts;
use crate::arguments::word;
use crate::arguments::Words;
use crate::bytes::utf8;
use crate::remap::trim_paths_args;
use crate::remap::trim_paths_words;
use crate::remap::RemapFacts;
use crate::remap::TrimPaths;
use crate::text::characters;
use crate::text::decimal;
use crate::text::decimal_text;
use crate::text::text_is;
use crate::text::text_of;
use crate::text::texts;
use crate::unit::CompileMode;
use crate::unix_path::byte_strings;

verus! {

/// How much debugging information there is.
#[derive(Clone, Copy, Debug, PartialEq, Eq, Structural)]
pub enum DebugInfo {
    Off,
    LineDirectivesOnly,
    LineTablesOnly,
    Limited,
    Full,
}

impl DebugInfo {
    /// The value as an argument names it.
    pub open spec fn name(self) -> Seq<char> {
        match self {
            DebugInfo::Off => "0"@,
            DebugInfo::Limited => "1"@,
            DebugInfo::Full => "2"@,
            DebugInfo::LineDirectivesOnly => "line-directives-only"@,
            DebugInfo::LineTablesOnly => "line-tables-only"@,
        }
    }

    /// The value as an argument names it.
    pub fn as_str(self) -> (name: &'static str)
        ensures
            name@ == self.name(),
    {
        match self {
            DebugInfo::Off => "0",
            DebugInfo::Limited => "1",
            DebugInfo::Full => "2",
            DebugInfo::LineDirectivesOnly => "line-directives-only",
            DebugInfo::LineTablesOnly => "line-tables-only",
        }
    }
}

/// What a panic does.
#[derive(Clone, Copy, Debug, PartialEq, Eq, Structural)]
pub enum PanicStrategy {
    Unwind,
    Abort,
    ImmediateAbort,
}

impl PanicStrategy {
    /// The value as an argument names it.
    pub open spec fn name(self) -> Seq<char> {
        match self {
            PanicStrategy::Unwind => "unwind"@,
            PanicStrategy::Abort => "abort"@,
            PanicStrategy::ImmediateAbort => "immediate-abort"@,
        }
    }

    /// The value as an argument names it.
    pub fn as_str(self) -> (name: &'static str)
        ensures
            name@ == self.name(),
    {
        match self {
            PanicStrategy::Unwind => "unwind",
            PanicStrategy::Abort => "abort",
            PanicStrategy::ImmediateAbort => "immediate-abort",
        }
    }
}

/// How a unit takes part in link-time optimization.
pub enum Lto {
    /// It is optimized, in a way that may be named.
    Run(Option<String>),
    /// It is not optimized, and has no bitcode.
    Off,
    /// It has objects and bitcode.
    ObjectAndBitcode,
    /// It has only bitcode.
    OnlyBitcode,
    /// It has only objects.
    OnlyObject,
}

/// How a unit is built.
pub struct Profile {
    pub opt_level: String,
    pub codegen_backend: Option<String>,
    pub codegen_units: Option<u32>,
    pub debuginfo: DebugInfo,
    pub debug_assertions: bool,
    /// How debugging information is split, where the target supports that.
    pub split_debuginfo: Option<String>,
    pub overflow_checks: bool,
    pub rpath: bool,
    pub panic: PanicStrategy,
    pub incremental: bool,
    /// What is stripped, if something is.
    pub strip: Option<String>,
    pub rustflags: Vec<String>,
    pub trim_paths: Option<TrimPaths>,
    pub hint_mostly_unused: Option<bool>,
}

/// A hint in a manifest.
#[derive(Clone, Copy, Debug, PartialEq, Eq, Structural)]
pub enum Hint {
    Absent,
    Value(bool),
    /// The value is not of the type that it should be.
    WrongType,
}

/// How messages are printed.
pub struct OutputFacts {
    /// Whether the time that sections take is recorded.
    pub section_timings: bool,
    pub has_logger: bool,
    pub cargo_lints: bool,
    pub short_messages: bool,
    pub unicode_terminal: bool,
    pub rustc_unicode: bool,
    pub terminal_width: Option<u64>,
    pub allow_features: Option<Vec<String>>,
}

/// A unit, and what its invocation depends on.
pub struct BaseFacts {
    pub mode: CompileMode,
    pub crate_name: String,
    pub edition_args: Vec<String>,
    pub source_path: Vec<u8>,
    /// Where the invocation runs; the path of the source is relative to it.
    pub cwd: Vec<u8>,
    pub crate_types: Vec<String>,
    pub no_embed_metadata: bool,
    pub benefits_from_no_embed_metadata: bool,
    pub requires_upstream_objects: bool,
    pub for_host: bool,
    pub is_custom_build: bool,
    pub is_primary: bool,
    pub lto: Lto,
    pub lint_rustflags: Vec<String>,
    pub harness: bool,
    pub features: Vec<String>,
    pub declared_features: Vec<String>,
    pub c_metadata: String,
    pub c_extra_filename: Option<String>,
    pub output_dir: Vec<u8>,
    pub target_args: Vec<String>,
    pub target_applies_to_host: bool,
    pub host_linker: Option<Vec<u8>>,
    pub target_linker: Option<Vec<u8>>,
    pub incremental_dir: Vec<u8>,
    pub package_hint: Hint,
    pub hints_enabled: bool,
    pub show_warnings: bool,
    pub is_std: bool,
    pub profile: Profile,
    pub remap: RemapFacts,
    pub output: OutputFacts,
}

/// The kinds of messages that are asked for.
pub open spec fn json_text(output: OutputFacts) -> Seq<char> {
    "--json=diagnostic-rendered-ansi,artifacts,future-incompat"@ + (if output.cargo_lints {
        ",unused-externs-silent"@
    } else {
        Seq::empty()
    }) + (if output.short_messages {
        ",diagnostic-short"@
    } else if output.unicode_terminal && output.rustc_unicode {
        ",diagnostic-unicode"@
    } else {
        Seq::empty()
    }) + (if output.section_timings && output.has_logger {
        ",timings"@
    } else {
        Seq::empty()
    })
}

/// The arguments on how messages are printed.
pub open spec fn error_format_words(output: OutputFacts) -> Words {
    (if output.section_timings && output.has_logger {
        word("-Zunstable-options"@)
    } else {
        no_words()
    }) + word("--error-format=json"@) + word(json_text(output)) + (match output.terminal_width {
        Some(width) => word("--diagnostic-width="@ + decimal(width as nat)),
        None => no_words(),
    })
}

/// Adds the arguments on how messages are printed. Messages are always asked
/// for in JSON.
pub fn add_error_format_and_color(out: &mut Vec<Vec<u8>>, output: &OutputFacts)
    ensures
        byte_strings(final(out)@) == byte_strings(old(out)@) + error_format_words(*output),
{
    let ghost before = byte_strings(out@);
    let enable_timings = output.section_timings && output.has_logger;
    if enable_timings {
        push_word(out, "-Zunstable-options");
    }
    push_word(out, "--error-format=json");
    let mut json = "--json=diagnostic-rendered-ansi,artifacts,future-incompat".to_owned();
    if output.cargo_lints {
        json.append(",unused-externs-silent");
    }
    if output.short_messages {
        json.append(",diagnostic-short");
    } else if output.unicode_terminal && output.rustc_unicode {
        json.append(",diagnostic-unicode");
    }
    if enable_timings {
        json.append(",timings");
    }
    proof {
        assert(json@ =~= json_text(*output));
    }
    push_word(out, json.as_str());
    match output.terminal_width {
        Some(width) => {
            let number = decimal_text(width);
            let argument = two_texts("--diagnostic-width=", number.as_str());
            push_word(out, argument.as_str());
        },
        None => {},
    }
    proof {
        assert(byte_strings(out@) =~= before + error_format_words(*output));
    }
}

/// Features with a comma behind each.
pub open spec fn comma_list(features: Seq<Seq<char>>) -> Seq<char>
    decreases features.len(),
{
    if features.len() == 0 {
        Seq::empty()
    } else {
        comma_list(features.drop_last()) + features.last() + ","@
    }
}

/// `text` without the commas at its end.
pub open spec fn without_commas(text: Seq<char>) -> Seq<char>
    decreases text.len(),
{
    if text.len() > 0 && text.last() == ',' {
        without_commas(text.drop_last())
    } else {
        text
    }
}

/// `text` without the commas at its end.
fn trim_commas(text: &str) -> (result: String)
    ensures
        result@ == without_commas(text@),
{
    let mut chars = characters(text);
    while chars.len() > 0 && chars[chars.len() - 1] == ','
        invariant
            without_commas(chars@) == without_commas(text@),
        decreases chars@.len(),
    {
        proof {
            assert(chars@.last() == chars@[chars@.len() - 1]);
        }
        let ghost before = chars@;
        chars.pop();
        proof {
            assert(chars@ =~= before.drop_last());
        }
    }
    text_of(chars.as_slice())
}

/// The argument that allows unstable features.
pub open spec fn allow_features_words(allowed: Option<Vec<String>>) -> Words {
    match allowed {
        Some(list) => word(without_commas("-Zallow-features="@ + comma_list(texts(list@)))),
        None => no_words(),
    }
}

/// Adds the argument that allows unstable features.
pub fn add_allow_features(out: &mut Vec<Vec<u8>>, allowed: &Option<Vec<String>>)
    ensures
        byte_strings(final(out)@) == byte_strings(old(out)@) + allow_features_words(*allowed),
{
    let ghost before = byte_strings(out@);
    match allowed {
        None => {
            proof {
                lemma_no_words(before);
            }
        },
        Some(list) => {
            let mut argument = "-Zallow-features=".to_owned();
            let ghost start = argument@;
            let ghost all = texts(list@);
            let mut index: usize = 0;
            proof {
                assert(all.take(0) =~= Seq::empty());
                assert(start + comma_list(all.take(0)) =~= start);
            }
            while index < list.len()
                invariant
                    index <= list@.len(),
                    all == texts(list@),
                    argument@ == start + comma_list(all.take(index as int)),
                decreases list@.len() - index,
            {
                argument.append(list[index].as_str());
                argument.append(",");
                proof {
                    assert(all.take(index + 1).drop_last() =~= all.take(index as int));
                    assert(all.take(index + 1).last() == list@[index as int]@);
                    assert(argument@ =~= start + comma_list(all.take(index + 1)));
                }
                index = index + 1;
            }
            proof {
                assert(all.take(index as int) =~= all);
            }
            let trimmed = trim_commas(argument.as_str());
            push_word(out, trimmed.as_str());
        },
    }
}

/// Whether a harness or a test of another kind is compiled.
pub open spec fn is_test_mode(mode: CompileMode) -> bool {
    mode.tests() || mode == CompileMode::Doctest
}

/// The arguments for the kinds of outputs.
pub open spec fn crate_type_words(facts: BaseFacts) -> Words {
    if is_test_mode(facts.mode) {
        no_words()
    } else {
        repeated_flag("--crate-type"@, texts(facts.crate_types@))
    }
}

/// Whether a dynamic library is among the outputs.
pub open spec fn makes_dylib(facts: BaseFacts) -> bool {
    !is_test_mode(facts.mode) && texts(facts.crate_types@).contains("dylib"@)
}

/// The arguments on what is written.
pub open spec fn emit_words(facts: BaseFacts) -> Words {
    if facts.mode.checks() {
        word("--emit=dep-info,metadata"@)
    } else if facts.no_embed_metadata {
        if facts.benefits_from_no_embed_metadata {
            word("--emit=dep-info,metadata,link"@) + text_flag("-Z"@, "embed-metadata=no"@)
        } else {
            word("--emit=dep-info,link"@)
        }
    } else if !facts.requires_upstream_objects {
        word("--emit=dep-info,metadata,link"@)
    } else {
        word("--emit=dep-info,link"@)
    }
}

/// Adds the arguments on what is written.
fn push_emit(out: &mut Vec<Vec<u8>>, facts: &BaseFacts)
    ensures
        byte_strings(final(out)@) == byte_strings(old(out)@) + emit_words(*facts),
{
    let ghost before = byte_strings(out@);
    if facts.mode.is_check() {
        push_word(out, "--emit=dep-info,metadata");
    } else if facts.no_embed_metadata {
        if facts.benefits_from_no_embed_metadata {
            push_word(out, "--emit=dep-info,metadata,link");
            push_text_flag(out, "-Z", "embed-metadata=no");
            proof {
                assert(byte_strings(out@) =~= before + emit_words(*facts));
            }
        } else {
            push_word(out, "--emit=dep-info,link");
        }
    } else if !facts.requires_upstream_objects {
        push_word(out, "--emit=dep-info,metadata,link");
    } else {
        push_word(out, "--emit=dep-info,link");
    }
}

/// Whether dynamic libraries are preferred.
pub open spec fn prefers_dynamic(facts: BaseFacts) -> bool {
    (facts.for_host && !facts.is_custom_build) || (makes_dylib(facts) && !facts.is_primary)
}

/// The arguments on how code is generated.
pub open spec fn codegen_words(facts: BaseFacts) -> Words {
    let profile = facts.profile;
    (if prefers_dynamic(facts) {
        text_flag("-C"@, "prefer-dynamic"@)
    } else {
        no_words()
    }) + (if profile.opt_level@ != "0"@ {
        text_flag("-C"@, "opt-level="@ + profile.opt_level@)
    } else {
        no_words()
    }) + (if profile.panic != PanicStrategy::Unwind {
        text_flag("-C"@, "panic="@ + profile.panic.name())
    } else {
        no_words()
    }) + (if profile.panic == PanicStrategy::ImmediateAbort {
        text_flag("-Z"@, "unstable-options"@)
    } else {
        no_words()
    }) + lto_words(facts.lto) + (match profile.codegen_backend {
        Some(backend) => text_flag("-Z"@, "codegen-backend="@ + backend@),
        None => no_words(),
    }) + (match profile.codegen_units {
        Some(units) => text_flag("-C"@, "codegen-units="@ + decimal(units as nat)),
        None => no_words(),
    }) + debuginfo_words(profile)
}

/// The arguments for debugging information.
pub open spec fn debuginfo_words(profile: Profile) -> Words {
    if profile.debuginfo == DebugInfo::Off {
        no_words()
    } else {
        text_flag("-C"@, "debuginfo="@ + profile.debuginfo.name()) + (match profile.split_debuginfo {
            Some(split) => text_flag("-C"@, "split-debuginfo="@ + split@),
            None => no_words(),
        })
    }
}

/// The arguments for link-time optimization.
pub open spec fn lto_words(lto: Lto) -> Words {
    match lto {
        Lto::Run(None) => text_flag("-C"@, "lto"@),
        Lto::Run(Some(kind)) => text_flag("-C"@, "lto="@ + kind@),
        Lto::Off => text_flag("-C"@, "lto=off"@) + text_flag("-C"@, "embed-bitcode=no"@),
        Lto::ObjectAndBitcode => no_words(),
        Lto::OnlyBitcode => text_flag("-C"@, "linker-plugin-lto"@),
        Lto::OnlyObject => text_flag("-C"@, "embed-bitcode=no"@),
    }
}

/// Adds the arguments for link-time optimization.
pub fn lto_args(out: &mut Vec<Vec<u8>>, lto: &Lto)
    ensures
        byte_strings(final(out)@) == byte_strings(old(out)@) + lto_words(*lto),
{
    let ghost before = byte_strings(out@);
    proof {
        lemma_no_words(before);
    }
    match lto {
        Lto::Run(kind) => match kind {
            None => push_text_flag(out, "-C", "lto"),
            Some(kind) => push_joined_flag(out, "-C", "lto=", kind.as_str()),
        },
        Lto::Off => {
            push_text_flag(out, "-C", "lto=off");
            push_text_flag(out, "-C", "embed-bitcode=no");
            proof {
                assert(byte_strings(out@) =~= before + lto_words(*lto));
            }
        },
        Lto::ObjectAndBitcode => {},
        Lto::OnlyBitcode => push_text_flag(out, "-C", "linker-plugin-lto"),
        Lto::OnlyObject => push_text_flag(out, "-C", "embed-bitcode=no"),
    }
}

/// Whether one of the texts is `text`.
fn texts_hold(list: &Vec<String>, text: &str) -> (held: bool)
    ensures
        held == texts(list@).contains(text@),
{
    let mut index: usize = 0;
    while index < list.len()
        invariant
            index <= list@.len(),
            forall|i: int| 0 <= i < index ==> #[trigger] texts(list@)[i] != text@,
        decreases list@.len() - index,
    {
        proof {
            assert(texts(list@)[index as int] == list@[index as int]@);
        }
        if text_is(list[index].as_str(), text) {
            return true;
        }
        index = index + 1;
    }
    proof {
        assert(texts(list@).len() == list@.len());
    }
    false
}

/// Adds a flag under a condition.
fn push_flag_if(out: &mut Vec<Vec<u8>>, condition: bool, name: &str, key: &str, value: &str)
    ensures
        byte_strings(final(out)@) == byte_strings(old(out)@) + if condition {
            text_flag(name@, key@ + value@)
        } else {
            no_words()
        },
{
    proof {
        lemma_no_words(byte_strings(out@));
    }
    if condition {
        push_joined_flag(out, name, key, value);
    }
}

/// Adds the arguments for debugging information.
fn push_debuginfo(out: &mut Vec<Vec<u8>>, profile: &Profile)
    ensures
        byte_strings(final(out)@) == byte_strings(old(out)@) + debuginfo_words(*profile),
{
    let ghost before = byte_strings(out@);
    if profile.debuginfo != DebugInfo::Off {
        push_joined_flag(out, "-C", "debuginfo=", profile.debuginfo.as_str());
        match &profile.split_debuginfo {
            Some(split) => push_joined_flag(out, "-C", "split-debuginfo=", split.as_str()),
            None => {},
        }
    }
    proof {
        assert(byte_strings(out@) =~= before + debuginfo_words(*profile));
    }
}

/// A text with nothing behind it.
proof fn lemma_with_nothing(text: Seq<char>)
    ensures
        text + ""@ == text,
{
    reveal_strlit("");
    assert(text + ""@ =~= text);
}

/// Adds the arguments on how code is generated.
fn push_codegen(out: &mut Vec<Vec<u8>>, facts: &BaseFacts)
    ensures
        byte_strings(final(out)@) == byte_strings(old(out)@) + codegen_words(*facts),
{
    let profile = &facts.profile;
    let dylib = !facts.mode.is_any_test() && texts_hold(&facts.crate_types, "dylib");
    let prefer_dynamic = (facts.for_host && !facts.is_custom_build) || (dylib
        && !facts.is_primary);
    let mut list: Vec<Vec<u8>> = Vec::new();
    proof {
        assert(byte_strings(list@) =~= no_words());
        lemma_no_words(text_flag("-C"@, "prefer-dynamic"@));
        lemma_no_words(no_words());
        lemma_with_nothing("prefer-dynamic"@);
        lemma_with_nothing("unstable-options"@);
    }
    push_flag_if(&mut list, prefer_dynamic, "-C", "prefer-dynamic", "");
    push_flag_if(
        &mut list,
        !text_is(profile.opt_level.as_str(), "0"),
        "-C",
        "opt-level=",
        profile.opt_level.as_str(),
    );
    push_flag_if(
        &mut list,
        profile.panic != PanicStrategy::Unwind,
        "-C",
        "panic=",
        profile.panic.as_str(),
    );
    push_flag_if(
        &mut list,
        profile.panic == PanicStrategy::ImmediateAbort,
        "-Z",
        "unstable-options",
        "",
    );
    lto_args(&mut list, &facts.lto);
    match &profile.codegen_backend {
        Some(backend) => push_joined_flag(&mut list, "-Z", "codegen-backend=", backend.as_str()),
        None => {
            proof {
                lemma_no_words(byte_strings(list@));
            }
        },
    }
    match profile.codegen_units {
        Some(units) => {
            let number = decimal_text(units as u64);
            push_joined_flag(&mut list, "-C", "codegen-units=", number.as_str());
        },
        None => {
            proof {
                lemma_no_words(byte_strings(list@));
            }
        },
    }
    push_debuginfo(&mut list, profile);
    proof {
        assert(byte_strings(list@) == codegen_words(*facts));
    }
    push_words(out, &list);
}

/// The arguments for checks at run time. Overflow checks follow debugging
/// assertions unless they are set apart.
pub open spec fn check_words(profile: Profile) -> Words {
    if profile.opt_level@ != "0"@ {
        if profile.debug_assertions {
            text_flag("-C"@, "debug-assertions=on"@) + if !profile.overflow_checks {
                text_flag("-C"@, "overflow-checks=off"@)
            } else {
                no_words()
            }
        } else if profile.overflow_checks {
            text_flag("-C"@, "overflow-checks=on"@)
        } else {
            no_words()
        }
    } else if !profile.debug_assertions {
        text_flag("-C"@, "debug-assertions=off"@) + if profile.overflow_checks {
            text_flag("-C"@, "overflow-checks=on"@)
        } else {
            no_words()
        }
    } else if !profile.overflow_checks {
        text_flag("-C"@, "overflow-checks=off"@)
    } else {
        no_words()
    }
}

/// Adds the arguments for checks at run time.
fn push_checks(out: &mut Vec<Vec<u8>>, profile: &Profile)
    ensures
        byte_strings(final(out)@) == byte_strings(old(out)@) + check_words(*profile),
{
    let ghost before = byte_strings(out@);
    if !text_is(profile.opt_level.as_str(), "0") {
        if profile.debug_assertions {
            push_text_flag(out, "-C", "debug-assertions=on");
            if !profile.overflow_checks {
                push_text_flag(out, "-C", "overflow-checks=off");
            }
        } else if profile.overflow_checks {
            push_text_flag(out, "-C", "overflow-checks=on");
        }
    } else if !profile.debug_assertions {
        push_text_flag(out, "-C", "debug-assertions=off");
        if profile.overflow_checks {
            push_text_flag(out, "-C", "overflow-checks=on");
        }
    } else if !profile.overflow_checks {
        push_text_flag(out, "-C", "overflow-checks=off");
    }
    proof {
        assert(byte_strings(out@) =~= before + check_words(*profile));
    }
}

/// The arguments for tests.
pub open spec fn test_words(facts: BaseFacts) -> Words {
    if !is_test_mode(facts.mode) {
        no_words()
    } else if facts.harness {
        word("--test"@) + if facts.profile.panic != PanicStrategy::Unwind {
            text_flag("-Z"@, "panic-abort-tests"@)
        } else {
            no_words()
        }
    } else {
        text_flag("--cfg"@, "test"@)
    }
}

/// Adds the arguments for tests.
fn push_test(out: &mut Vec<Vec<u8>>, facts: &BaseFacts)
    ensures
        byte_strings(final(out)@) == byte_strings(old(out)@) + test_words(*facts),
{
    let ghost before = byte_strings(out@);
    let test = facts.mode.is_any_test();
    if test && facts.harness {
        push_word(out, "--test");
        if facts.profile.panic == PanicStrategy::Abort || facts.profile.panic
            == PanicStrategy::ImmediateAbort {
            push_text_flag(out, "-Z", "panic-abort-tests");
        }
    } else if test {
        push_text_flag(out, "--cfg", "test");
    }
    proof {
        assert(byte_strings(out@) =~= before + test_words(*facts));
    }
}

/// A feature as a condition.
pub open spec fn feature_text(feature: Seq<char>) -> Seq<char> {
    "feature=\""@ + feature + "\""@
}

/// The arguments for the features of a unit.
pub open spec fn feature_words(features: Seq<Seq<char>>) -> Words
    decreases features.len(),
{
    if features.len() == 0 {
        no_words()
    } else {
        feature_words(features.drop_last()) + text_flag("--cfg"@, feature_text(features.last()))
    }
}

/// Adds the arguments for the features of a unit.
pub fn features_args(out: &mut Vec<Vec<u8>>, features: &Vec<String>)
    ensures
        byte_strings(final(out)@) == byte_strings(old(out)@) + feature_words(texts(features@)),
{
    let ghost before = byte_strings(out@);
    let ghost all = texts(features@);
    let mut index: usize = 0;
    proof {
        assert(all.take(0) =~= Seq::empty());
        lemma_no_words(before);
    }
    while index < features.len()
        invariant
            index <= features@.len(),
            all == texts(features@),
            byte_strings(out@) == before + feature_words(all.take(index as int)),
        decreases features@.len() - index,
    {
        let mut text = "feature=\"".to_owned();
        text.append(features[index].as_str());
        text.append("\"");
        push_text_flag(out, "--cfg", text.as_str());
        proof {
            assert(all.take(index + 1).drop_last() =~= all.take(index as int));
            assert(all.take(index + 1).last() == features@[index as int]@);
            assert(byte_strings(out@) =~= before + feature_words(all.take(index + 1)));
        }
        index = index + 1;
    }
    proof {
        assert(all.take(index as int) =~= all);
    }
}

/// Features in quotes, with commas between them.
pub open spec fn quoted_features(features: Seq<Seq<char>>) -> Seq<char>
    decreases features.len(),
{
    if features.len() == 0 {
        Seq::empty()
    } else if features.len() == 1 {
        "\""@ + features[0] + "\""@
    } else {
        quoted_features(features.drop_last()) + ", "@ + "\""@ + features.last() + "\""@
    }
}

/// The arguments that make conditions checked: the features that are declared
/// are expected, and `docsrs` and `test`.
pub open spec fn check_cfg_words(declared: Seq<Seq<char>>) -> Words {
    text_flag("--check-cfg"@, "cfg(docsrs,test)"@) + text_flag(
        "--check-cfg"@,
        "cfg(feature, values("@ + quoted_features(declared) + "))"@,
    )
}

/// Adds the arguments that make conditions checked.
pub fn check_cfg_args(out: &mut Vec<Vec<u8>>, declared: &Vec<String>)
    ensures
        byte_strings(final(out)@) == byte_strings(old(out)@) + check_cfg_words(texts(declared@)),
{
    let ghost before = byte_strings(out@);
    let mut text = "cfg(feature, values(".to_owned();
    let ghost start = text@;
    let ghost all = texts(declared@);
    let mut index: usize = 0;
    proof {
        assert(all.take(0) =~= Seq::empty());
        assert(start + quoted_features(all.take(0)) =~= start);
    }
    while index < declared.len()
        invariant
            index <= declared@.len(),
            all == texts(declared@),
            text@ == start + quoted_features(all.take(index as int)),
        decreases declared@.len() - index,
    {
        let ghost so_far = text@;
        proof {
            assert(all.take(index + 1).drop_last() =~= all.take(index as int));
            assert(all.take(index + 1).last() == declared@[index as int]@);
            if index == 0 {
                assert(all.take(index + 1)[0] == declared@[0]@);
                assert(quoted_features(all.take(0)) =~= Seq::<char>::empty());
            }
        }
        if index != 0 {
            text.append(", ");
        }
        text.append("\"");
        text.append(declared[index].as_str());
        text.append("\"");
        proof {
            assert(text@ =~= start + quoted_features(all.take(index + 1)));
        }
        index = index + 1;
    }
    proof {
        assert(all.take(index as int) =~= all);
    }
    text.append("))");
    push_text_flag(out, "--check-cfg", "cfg(docsrs,test)");
    push_text_flag(out, "--check-cfg", text.as_str());
    proof {
        assert(byte_strings(out@) =~= before + check_cfg_words(all));
    }
}

/// The arguments that tell builds of a crate apart.
pub open spec fn metadata_words(facts: BaseFacts) -> Words {
    text_flag("-C"@, "metadata="@ + facts.c_metadata@) + (match facts.c_extra_filename {
        Some(name) => text_flag("-C"@, "extra-filename=-"@ + name@),
        None => no_words(),
    }) + if facts.profile.rpath {
        text_flag("-C"@, "rpath"@)
    } else {
        no_words()
    }
}

/// Adds the arguments that tell builds of a crate apart.
fn push_metadata(out: &mut Vec<Vec<u8>>, facts: &BaseFacts)
    ensures
        byte_strings(final(out)@) == byte_strings(old(out)@) + metadata_words(*facts),
{
    let ghost before = byte_strings(out@);
    push_joined_flag(out, "-C", "metadata=", facts.c_metadata.as_str());
    match &facts.c_extra_filename {
        Some(name) => push_joined_flag(out, "-C", "extra-filename=-", name.as_str()),
        None => {},
    }
    if facts.profile.rpath {
        push_text_flag(out, "-C", "rpath");
    }
    proof {
        assert(byte_strings(out@) =~= before + metadata_words(*facts));
    }
}

/// The argument for the linker: that of the host, where the unit runs on it and
/// the settings for targets do not apply.
pub open spec fn linker_words(facts: BaseFacts) -> Words {
    let linker = if facts.for_host && !facts.target_applies_to_host {
        crate::bytes::optional(facts.host_linker)
    } else {
        crate::bytes::optional(facts.target_linker)
    };
    match linker {
        Some(linker) => flag("-C"@, utf8("linker="@) + linker),
        None => no_words(),
    }
}

/// Adds the argument for the linker.
pub fn add_codegen_linker(out: &mut Vec<Vec<u8>>, facts: &BaseFacts)
    ensures
        byte_strings(final(out)@) == byte_strings(old(out)@) + linker_words(*facts),
{
    proof {
        lemma_no_words(byte_strings(out@));
    }
    let linker = if facts.for_host && !facts.target_applies_to_host {
        &facts.host_linker
    } else {
        &facts.target_linker
    };
    match linker {
        Some(linker) => push_raw_flag(out, "-C", "linker=", linker.as_slice()),
        None => {},
    }
}

/// The argument for incremental compilation.
pub open spec fn incremental_words(facts: BaseFacts) -> Words {
    if facts.profile.incremental {
        flag("-C"@, utf8("incremental="@) + facts.incremental_dir@)
    } else {
        no_words()
    }
}

/// Adds the argument for incremental compilation.
pub fn add_codegen_incremental(out: &mut Vec<Vec<u8>>, facts: &BaseFacts)
    ensures
        byte_strings(final(out)@) == byte_strings(old(out)@) + incremental_words(*facts),
{
    proof {
        lemma_no_words(byte_strings(out@));
    }
    if facts.profile.incremental {
        push_raw_flag(out, "-C", "incremental=", facts.incremental_dir.as_slice());
    }
}

/// What users are warned of.
#[derive(Clone, Copy, Debug, PartialEq, Eq, Structural)]
pub enum HintWarning {
    /// The hint of a package is of the wrong type.
    WrongType,
    /// The option of a profile is not enabled.
    ProfileOption,
    /// The hint of a package is not enabled.
    PackageHint,
}

impl HintWarning {
    /// The text of the warning. `value_type` is the type that a hint of the wrong
    /// type has.
    pub open spec fn warning(self, value_type: Seq<char>) -> Seq<char> {
        match self {
            HintWarning::WrongType => "ignoring unsupported value type ("@ + value_type
                + ") for 'hints.mostly-unused', which expects a boolean"@,
            HintWarning::ProfileOption =>
                "ignoring 'hint-mostly-unused' profile option, pass `-Zprofile-hint-mostly-unused` to enable it"@,
            HintWarning::PackageHint =>
                "ignoring 'hints.mostly-unused', pass `-Zprofile-hint-mostly-unused` to enable it"@,
        }
    }

    /// The text of the warning.
    pub fn text(self, value_type: &str) -> (text: String)
        ensures
            text@ == self.warning(value_type@),
    {
        match self {
            HintWarning::WrongType => {
                let mut text = "ignoring unsupported value type (".to_owned();
                text.append(value_type);
                text.append(") for 'hints.mostly-unused', which expects a boolean");
                text
            },
            HintWarning::ProfileOption =>
                "ignoring 'hint-mostly-unused' profile option, pass `-Zprofile-hint-mostly-unused` to enable it".to_owned(),
            HintWarning::PackageHint =>
                "ignoring 'hints.mostly-unused', pass `-Zprofile-hint-mostly-unused` to enable it".to_owned(),
        }
    }
}

/// Whether a crate is taken to be mostly unused: the profile decides, then the
/// package.
pub open spec fn is_mostly_unused(facts: BaseFacts) -> bool {
    match facts.profile.hint_mostly_unused {
        Some(unused) => unused,
        None => facts.package_hint == Hint::Value(true),
    }
}

/// What users are warned of. Warnings on packages are shown only where warnings
/// are.
pub open spec fn hint_warnings(facts: BaseFacts) -> Seq<HintWarning> {
    (if facts.package_hint == Hint::WrongType && facts.show_warnings {
        seq![HintWarning::WrongType]
    } else {
        Seq::empty()
    }) + (if is_mostly_unused(facts) && !facts.hints_enabled {
        if facts.profile.hint_mostly_unused is Some {
            seq![HintWarning::ProfileOption]
        } else if facts.show_warnings {
            seq![HintWarning::PackageHint]
        } else {
            Seq::empty()
        }
    } else {
        Seq::empty()
    })
}

/// The arguments at the end: hints, what is stripped, and what the standard
/// library needs.
pub open spec fn closing_words(facts: BaseFacts) -> Words {
    (if is_mostly_unused(facts) && facts.hints_enabled {
        word("-Zhint-mostly-unused"@)
    } else {
        no_words()
    }) + (match facts.profile.strip {
        Some(strip) => text_flag("-C"@, "strip="@ + strip@),
        None => no_words(),
    }) + if facts.is_std {
        text_flag("-Z"@, "force-unstable-if-unmarked"@)
    } else {
        no_words()
    }
}

/// Whether a crate is taken to be mostly unused.
fn mostly_unused(facts: &BaseFacts) -> (unused: bool)
    ensures
        unused == is_mostly_unused(*facts),
{
    match facts.profile.hint_mostly_unused {
        Some(unused) => unused,
        None => match facts.package_hint {
            Hint::Value(unused) => unused,
            _ => false,
        },
    }
}

/// Adds the arguments at the end.
fn push_closing(out: &mut Vec<Vec<u8>>, facts: &BaseFacts)
    ensures
        byte_strings(final(out)@) == byte_strings(old(out)@) + closing_words(*facts),
{
    let ghost before = byte_strings(out@);
    if mostly_unused(facts) && facts.hints_enabled {
        push_word(out, "-Zhint-mostly-unused");
    }
    match &facts.profile.strip {
        Some(strip) => push_joined_flag(out, "-C", "strip=", strip.as_str()),
        None => {},
    }
    if facts.is_std {
        push_text_flag(out, "-Z", "force-unstable-if-unmarked");
    }
    proof {
        assert(byte_strings(out@) =~= before + closing_words(*facts));
    }
}

/// The argument for trimmed paths.
pub open spec fn trimming_words(facts: BaseFacts) -> Words {
    match facts.profile.trim_paths {
        Some(trim_paths) => trim_paths_words(facts.remap, trim_paths),
        None => no_words(),
    }
}

/// The essential arguments of a compiler invocation.
pub open spec fn base_words(facts: BaseFacts) -> Words {
    text_flag("--crate-name"@, facts.crate_name@) + text_words(facts.edition_args@)
        + seq![facts.source_path@] + error_format_words(facts.output) + allow_features_words(
        facts.output.allow_features,
    ) + crate_type_words(facts) + emit_words(facts) + codegen_words(facts) + trimming_words(facts)
        + text_words(facts.lint_rustflags@) + text_words(facts.profile.rustflags@) + check_words(
        facts.profile,
    ) + test_words(facts) + feature_words(texts(facts.features@)) + check_cfg_words(
        texts(facts.declared_features@),
    ) + metadata_words(facts) + flag("--out-dir"@, facts.output_dir@) + text_words(
        facts.target_args@,
    ) + linker_words(facts) + incremental_words(facts) + closing_words(facts)
}

/// Adds the essential arguments of a compiler invocation, and tells what users
/// are warned of. An invocation that builds the standard library also needs
/// `RUSTC_BOOTSTRAP` in its environment.
pub fn build_base_args(out: &mut Vec<Vec<u8>>, facts: &BaseFacts) -> (warnings: Vec<HintWarning>)
    requires
        facts.mode != CompileMode::RunCustomBuild,
    ensures
        byte_strings(final(out)@) == byte_strings(old(out)@) + base_words(*facts),
        warnings@ == hint_warnings(*facts),
{
    let mut list: Vec<Vec<u8>> = Vec::new();
    proof {
        assert(byte_strings(list@) =~= no_words());
        lemma_no_words(text_flag("--crate-name"@, facts.crate_name@));
    }
    push_text_flag(&mut list, "--crate-name", facts.crate_name.as_str());
    push_text_words(&mut list, &facts.edition_args);
    push_raw_word(&mut list, facts.source_path.as_slice());
    add_error_format_and_color(&mut list, &facts.output);
    add_allow_features(&mut list, &facts.output.allow_features);
    if !facts.mode.is_any_test() {
        push_repeated_flag(&mut list, "--crate-type", &facts.crate_types);
    } else {
        proof {
            lemma_no_words(byte_strings(list@));
        }
    }
    push_emit(&mut list, facts);
    push_codegen(&mut list, facts);
    match &facts.profile.trim_paths {
        Some(trim_paths) => trim_paths_args(&mut list, &facts.remap, trim_paths),
        None => {
            proof {
                lemma_no_words(byte_strings(list@));
            }
        },
    }
    push_text_words(&mut list, &facts.lint_rustflags);
    push_text_words(&mut list, &facts.profile.rustflags);
    push_checks(&mut list, &facts.profile);
    push_test(&mut list, facts);
    features_args(&mut list, &facts.features);
    check_cfg_args(&mut list, &facts.declared_features);
    push_metadata(&mut list, facts);
    push_flag(&mut list, "--out-dir", facts.output_dir.as_slice());
    push_text_words(&mut list, &facts.target_args);
    add_codegen_linker(&mut list, facts);
    add_codegen_incremental(&mut list, facts);
    push_closing(&mut list, facts);
    proof {
        assert(byte_strings(list@) == base_words(*facts));
    }
    push_words(out, &list);
    let mut warnings: Vec<HintWarning> = Vec::new();
    let wrong_type = match facts.package_hint {
        Hint::WrongType => true,
        _ => false,
    };
    if wrong_type && facts.show_warnings {
        warnings.push(HintWarning::WrongType);
    }
    if mostly_unused(facts) && !facts.hints_enabled {
        if facts.profile.hint_mostly_unused.is_some() {
            warnings.push(HintWarning::ProfileOption);
        } else if facts.show_warnings {
            warnings.push(HintWarning::PackageHint);
        }
    }
    proof {
        assert(warnings@ =~= hint_warnings(*facts));
    }
    warnings
}

/// `text` in the form of a variable's name, given its characters in upper case.
pub open spec fn with_underscores(upper: Seq<char>) -> Seq<char> {
    upper.map_values(
        |c: char|
            if c == '-' {
                '_'
            } else {
                c
            },
    )
}

/// The upper case of a character by `char::to_uppercase`.
pub uninterp spec fn upper_case(character: char) -> Seq<char>;

/// Calls `char::to_uppercase`, whose result depends on the character alone. It
/// may be more than one character.
#[verifier::external_body]
fn to_upper_case(character: char) -> (upper: Vec<char>)
    ensures
        upper@ == upper_case(character),
{
    character.to_uppercase().collect()
}

/// The upper case of a text.
pub open spec fn upper_text(text: Seq<char>) -> Seq<char>
    decreases text.len(),
{
    if text.len() == 0 {
        Seq::empty()
    } else {
        upper_text(text.drop_last()) + upper_case(text.last())
    }
}

/// Characters with underscores for hyphens.
pub fn underscored(upper: &[char]) -> (text: String)
    ensures
        text@ == with_underscores(upper@),
{
    let mut text = String::new();
    let mut index: usize = 0;
    proof {
        assert(text@ =~= with_underscores(upper@.take(0)));
    }
    while index < upper.len()
        invariant
            index <= upper@.len(),
            text@ == with_underscores(upper@.take(index as int)),
        decreases upper@.len() - index,
    {
        let ghost before = text@;
        if upper[index] == '-' {
            text.push('_');
        } else {
            text.push(upper[index]);
        }
        proof {
            assert(text@ =~= with_underscores(upper@.take(index + 1)));
        }
        index = index + 1;
    }
    proof {
        assert(upper@.take(index as int) =~= upper@);
    }
    text
}

/// `text` in the form of a variable's name: in upper case, with underscores for
/// hyphens.
pub fn envify(text: &str) -> (name: String)
    ensures
        name@ == with_underscores(upper_text(text@)),
{
    let chars = characters(text);
    let mut upper: Vec<char> = Vec::new();
    let mut index: usize = 0;
    proof {
        assert(chars@.take(0) =~= Seq::empty());
        assert(upper@ =~= upper_text(chars@.take(0)));
    }
    while index < chars.len()
        invariant
            index <= chars@.len(),
            chars@ == text@,
            upper@ == upper_text(chars@.take(index as int)),
        decreases chars@.len() - index,
    {
        let ghost before = upper@;
        let more = to_upper_case(chars[index]);
        let mut at: usize = 0;
        while at < more.len()
            invariant
                at <= more@.len(),
                upper@ == before + more@.take(at as int),
            decreases more@.len() - at,
        {
            upper.push(more[at]);
            proof {
                assert(upper@ =~= before + more@.take(at + 1));
            }
            at = at + 1;
        }
        proof {
            assert(more@.take(at as int) =~= more@);
            assert(chars@.take(index + 1).drop_last() =~= chars@.take(index as int));
            assert(chars@.take(index + 1).last() == chars@[index as int]);
        }
        index = index + 1;
    }
    proof {
        assert(chars@.take(index as int) =~= chars@);
    }
    underscored(upper.as_slice())
}

} // verus!
