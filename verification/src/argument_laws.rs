//! What the compiler is told of a unit.

use vstd::prelude::*;
use vstd::string::*;
use vstd::utf8::*;

use crate::arguments::flag;
use crate::arguments::repeated_flag;
use crate::arguments::text_flag;
use crate::arguments::text_words;
use crate::arguments::Words;
use crate::base_arguments::allow_features_words;
use crate::base_arguments::base_words;
use crate::base_arguments::check_cfg_words;
use crate::base_arguments::check_words;
use crate::base_arguments::closing_words;
use crate::base_arguments::codegen_words;
use crate::base_arguments::crate_type_words;
use crate::base_arguments::debuginfo_words;
use crate::base_arguments::emit_words;
use crate::base_arguments::error_format_words;
use crate::base_arguments::feature_words;
use crate::base_arguments::incremental_words;
use crate::base_arguments::linker_words;
use crate::base_arguments::lto_words;
use crate::base_arguments::metadata_words;
use crate::base_arguments::prefers_dynamic;
use crate::base_arguments::test_words;
use crate::base_arguments::trimming_words;
use crate::base_arguments::BaseFacts;
use crate::base_arguments::DebugInfo;
use crate::base_arguments::Hint;
use crate::base_arguments::Lto;
use crate::base_arguments::PanicStrategy;
use crate::base_arguments::Profile;
use crate::bytes::utf8;
use crate::command::explicit_setting;
use crate::command::law_settings_take_effect;
use crate::command::lemma_with_setting_ordered;
use crate::command::ordered;
use crate::dependency_arguments::extern_prefix;
use crate::dependency_arguments::extern_words;
use crate::dependency_arguments::externs_are_unstable;
use crate::dependency_arguments::first_rmeta;
use crate::dependency_arguments::link_words;
use crate::dependency_arguments::linked_words;
use crate::dependency_arguments::links_words;
use crate::dependency_arguments::option_text;
use crate::dependency_arguments::path_order;
use crate::dependency_arguments::reached_dirs;
use crate::dependency_arguments::search_dirs;
use crate::dependency_arguments::search_words;
use crate::dependency_arguments::Dependency;
use crate::dependency_arguments::ExternFacts;
use crate::dependency_arguments::SearchFacts;
use crate::invocation::cap_lints_words;
use crate::invocation::embedded_words;
use crate::invocation::extra_words;
use crate::invocation::freshness_words;
use crate::invocation::lint_words;
use crate::invocation::rustc_words;
use crate::invocation::with_configured;
use crate::invocation::RustcFacts;
use crate::key_laws::lemma_texts_of_bytes;
use crate::link_arguments::custom_words;
use crate::link_arguments::dependency_words;
use crate::link_arguments::dynamic_path;
use crate::link_arguments::native_words;
use crate::link_arguments::paths_of;
use crate::link_arguments::script_link_words;
use crate::link_arguments::script_paths;
use crate::link_arguments::scripts_link_words;
use crate::link_arguments::LibraryOrigin;
use crate::link_arguments::LibraryPath;
use crate::link_arguments::LinkerArgument;
use crate::link_arguments::ScriptLink;
use crate::link_arguments::ScriptVariable;
use crate::ordering::lemma_sorted_holds;
use crate::ordering::sorted;
use crate::outputs::FileFlavor;
use crate::outputs::OutputFile;
use crate::reach::is_reachable;
use crate::sld::Settings;
use crate::text::decimal;
use crate::text::texts;
use crate::text_laws::law_texts_are_cut_at_the_first;
use crate::unit::CompileMode;

verus! {

/// Whether a flag and its value stand in arguments at one place.
pub open spec fn pair_at(words: Words, name: Seq<char>, value: Seq<u8>, at: int) -> bool {
    0 <= at && at + 1 < words.len() && words[at] == utf8(name) && words[at + 1] == value
}

/// Whether a flag and its value stand in arguments.
pub open spec fn tells(words: Words, name: Seq<char>, value: Seq<u8>) -> bool {
    exists|at: int| pair_at(words, name, value, at)
}

/// Whether a flag and its value, which is text, stand in arguments.
pub open spec fn says(words: Words, name: Seq<char>, value: Seq<char>) -> bool {
    tells(words, name, utf8(value))
}

/// A flag and its value stand where arguments that hold them stand.
proof fn lemma_tells(front: Words, middle: Words, back: Words, name: Seq<char>, value: Seq<u8>)
    requires
        tells(middle, name, value),
    ensures
        tells(front + middle + back, name, value),
        tells(front + middle, name, value),
        tells(middle + back, name, value),
{
    let at = choose|at: int| pair_at(middle, name, value, at);
    assert(pair_at(front + middle + back, name, value, front.len() + at));
    assert(pair_at(front + middle, name, value, front.len() + at));
    assert(pair_at(middle + back, name, value, at));
}

/// A flag and its value stand in what holds them alone.
proof fn lemma_tells_flag(name: Seq<char>, value: Seq<u8>)
    ensures
        tells(flag(name, value), name, value),
{
    assert(pair_at(flag(name, value), name, value, 0));
}

/// Arguments one list behind the other.
spec fn chained(parts: Seq<Words>) -> Words
    decreases parts.len(),
{
    if parts.len() == 0 {
        Seq::empty()
    } else {
        chained(parts.drop_last()) + parts.last()
    }
}

/// One more list of arguments.
proof fn lemma_chained(parts: Seq<Words>, more: Words)
    ensures
        chained(parts.push(more)) == chained(parts) + more,
{
    assert(parts.push(more).drop_last() =~= parts);
}

/// What one list tells, all of them tell.
proof fn lemma_chained_tells(parts: Seq<Words>, at: int, name: Seq<char>, value: Seq<u8>)
    requires
        0 <= at < parts.len(),
        tells(parts[at], name, value),
    ensures
        tells(chained(parts), name, value),
    decreases parts.len(),
{
    let front = chained(parts.drop_last());
    if at == parts.len() - 1 {
        lemma_tells(front, parts.last(), Seq::empty(), name, value);
    } else {
        assert(parts.drop_last()[at] == parts[at]);
        lemma_chained_tells(parts.drop_last(), at, name, value);
        lemma_tells(Seq::empty(), front, parts.last(), name, value);
    }
}

/// The lists that base arguments are made of.
spec fn base_parts(facts: BaseFacts) -> Seq<Words> {
    Seq::empty().push(text_flag("--crate-name"@, facts.crate_name@)).push(
        text_words(facts.edition_args@),
    ).push(seq![facts.source_path@]).push(error_format_words(facts.output)).push(
        allow_features_words(facts.output.allow_features),
    ).push(crate_type_words(facts)).push(emit_words(facts)).push(codegen_words(facts)).push(
        trimming_words(facts),
    ).push(text_words(facts.lint_rustflags@)).push(text_words(facts.profile.rustflags@)).push(
        check_words(facts.profile),
    ).push(test_words(facts)).push(feature_words(texts(facts.features@))).push(
        check_cfg_words(texts(facts.declared_features@)),
    ).push(metadata_words(facts)).push(flag("--out-dir"@, facts.output_dir@)).push(
        text_words(facts.target_args@),
    ).push(linker_words(facts)).push(incremental_words(facts)).push(closing_words(facts))
}

/// Base arguments are those lists one behind the other.
proof fn lemma_base_parts(facts: BaseFacts)
    ensures
        chained(base_parts(facts)) == base_words(facts),
        base_parts(facts).len() == 21,
{
    let p0 = Seq::<Words>::empty();
    let w1 = text_flag("--crate-name"@, facts.crate_name@);
    let p1 = p0.push(w1);
    lemma_chained(p0, w1);
    assert(chained(p0) + w1 =~= w1);
    let p2 = p1.push(text_words(facts.edition_args@));
    lemma_chained(p1, text_words(facts.edition_args@));
    let p3 = p2.push(seq![facts.source_path@]);
    lemma_chained(p2, seq![facts.source_path@]);
    let p4 = p3.push(error_format_words(facts.output));
    lemma_chained(p3, error_format_words(facts.output));
    let p5 = p4.push(allow_features_words(facts.output.allow_features));
    lemma_chained(p4, allow_features_words(facts.output.allow_features));
    let p6 = p5.push(crate_type_words(facts));
    lemma_chained(p5, crate_type_words(facts));
    let p7 = p6.push(emit_words(facts));
    lemma_chained(p6, emit_words(facts));
    let p8 = p7.push(codegen_words(facts));
    lemma_chained(p7, codegen_words(facts));
    let p9 = p8.push(trimming_words(facts));
    lemma_chained(p8, trimming_words(facts));
    let p10 = p9.push(text_words(facts.lint_rustflags@));
    lemma_chained(p9, text_words(facts.lint_rustflags@));
    let p11 = p10.push(text_words(facts.profile.rustflags@));
    lemma_chained(p10, text_words(facts.profile.rustflags@));
    let p12 = p11.push(check_words(facts.profile));
    lemma_chained(p11, check_words(facts.profile));
    let p13 = p12.push(test_words(facts));
    lemma_chained(p12, test_words(facts));
    let p14 = p13.push(feature_words(texts(facts.features@)));
    lemma_chained(p13, feature_words(texts(facts.features@)));
    let p15 = p14.push(check_cfg_words(texts(facts.declared_features@)));
    lemma_chained(p14, check_cfg_words(texts(facts.declared_features@)));
    let p16 = p15.push(metadata_words(facts));
    lemma_chained(p15, metadata_words(facts));
    let p17 = p16.push(flag("--out-dir"@, facts.output_dir@));
    lemma_chained(p16, flag("--out-dir"@, facts.output_dir@));
    let p18 = p17.push(text_words(facts.target_args@));
    lemma_chained(p17, text_words(facts.target_args@));
    let p19 = p18.push(linker_words(facts));
    lemma_chained(p18, linker_words(facts));
    let p20 = p19.push(incremental_words(facts));
    lemma_chained(p19, incremental_words(facts));
    lemma_chained(p20, closing_words(facts));
}

/// What one of the lists tells, base arguments tell.
proof fn lemma_base_tells(facts: BaseFacts, at: int, name: Seq<char>, value: Seq<u8>)
    requires
        0 <= at < 21,
        tells(base_parts(facts)[at], name, value),
    ensures
        tells(base_words(facts), name, value),
{
    lemma_base_parts(facts);
    lemma_chained_tells(base_parts(facts), at, name, value);
}

/// A flag in front of each text tells each of them.
proof fn lemma_repeated_tells(name: Seq<char>, values: Seq<Seq<char>>, at: int)
    requires
        0 <= at < values.len(),
    ensures
        says(repeated_flag(name, values), name, values[at]),
    decreases values.len(),
{
    let front = repeated_flag(name, values.drop_last());
    if at == values.len() - 1 {
        lemma_tells_flag(name, utf8(values[at]));
        lemma_tells(front, flag(name, utf8(values[at])), Seq::empty(), name, utf8(values[at]));
    } else {
        lemma_repeated_tells(name, values.drop_last(), at);
        lemma_tells(
            Seq::empty(),
            front,
            text_flag(name, values.last()),
            name,
            utf8(values[at]),
        );
    }
}

/// Every feature is told.
proof fn lemma_features_tell(features: Seq<Seq<char>>, at: int)
    requires
        0 <= at < features.len(),
    ensures
        says(feature_words(features), "--cfg"@, "feature=\""@ + features[at] + "\""@),
    decreases features.len(),
{
    let value = "feature=\""@ + features[at] + "\""@;
    let front = feature_words(features.drop_last());
    if at == features.len() - 1 {
        lemma_tells_flag("--cfg"@, utf8(value));
        lemma_tells(front, flag("--cfg"@, utf8(value)), Seq::empty(), "--cfg"@, utf8(value));
    } else {
        lemma_features_tell(features.drop_last(), at);
        lemma_tells(
            Seq::empty(),
            front,
            text_flag("--cfg"@, "feature=\""@ + features.last() + "\""@),
            "--cfg"@,
            utf8(value),
        );
    }
}

/// Every feature that is enabled is told to the compiler, and every kind of crate
/// that is made, unless a test is.
pub proof fn law_features_and_kinds_reach_the_compiler(facts: BaseFacts, at: int)
    ensures
        0 <= at < facts.features@.len() ==> says(
            base_words(facts),
            "--cfg"@,
            "feature=\""@ + facts.features@[at]@ + "\""@,
        ),
        0 <= at < facts.crate_types@.len() && (facts.mode == CompileMode::Build || facts.mode == (
        CompileMode::Check { test: false })) ==> says(
            base_words(facts),
            "--crate-type"@,
            facts.crate_types@[at]@,
        ),
{
    if 0 <= at < facts.features@.len() {
        let list = texts(facts.features@);
        lemma_features_tell(list, at);
        assert(base_parts(facts)[13] == feature_words(list));
        lemma_base_tells(
            facts,
            13,
            "--cfg"@,
            utf8("feature=\""@ + facts.features@[at]@ + "\""@),
        );
    }
    if 0 <= at < facts.crate_types@.len() && (facts.mode == CompileMode::Build || facts.mode == (
    CompileMode::Check { test: false })) {
        let list = texts(facts.crate_types@);
        lemma_repeated_tells("--crate-type"@, list, at);
        assert(base_parts(facts)[5] == repeated_flag("--crate-type"@, list));
        lemma_base_tells(facts, 5, "--crate-type"@, utf8(facts.crate_types@[at]@));
    }
}

/// The name of the crate, its identity, and where its outputs go are told to the
/// compiler; so are the linker that is configured for what is built, and the
/// directory for what is compiled step by step.
pub proof fn law_identities_reach_the_compiler(facts: BaseFacts)
    ensures
        says(base_words(facts), "--crate-name"@, facts.crate_name@),
        says(base_words(facts), "-C"@, "metadata="@ + facts.c_metadata@),
        facts.c_extra_filename matches Some(name) ==> says(
            base_words(facts),
            "-C"@,
            "extra-filename=-"@ + name@,
        ),
        tells(base_words(facts), "--out-dir"@, facts.output_dir@),
        facts.profile.incremental ==> tells(
            base_words(facts),
            "-C"@,
            utf8("incremental="@) + facts.incremental_dir@,
        ),
        !facts.for_host ==> (facts.target_linker matches Some(linker) ==> tells(
            base_words(facts),
            "-C"@,
            utf8("linker="@) + linker@,
        )),
        facts.for_host && !facts.target_applies_to_host ==> (facts.host_linker matches Some(linker)
            ==> tells(base_words(facts), "-C"@, utf8("linker="@) + linker@)),
        facts.profile.strip matches Some(strip) ==> says(
            base_words(facts),
            "-C"@,
            "strip="@ + strip@,
        ),
{
    let name = utf8(facts.crate_name@);
    lemma_tells_flag("--crate-name"@, name);
    assert(base_parts(facts)[0] == flag("--crate-name"@, name));
    lemma_base_tells(facts, 0, "--crate-name"@, name);
    let metadata = utf8("metadata="@ + facts.c_metadata@);
    assert(pair_at(metadata_words(facts), "-C"@, metadata, 0));
    assert(base_parts(facts)[15] == metadata_words(facts));
    lemma_base_tells(facts, 15, "-C"@, metadata);
    if facts.c_extra_filename is Some {
        let extra = utf8("extra-filename=-"@ + facts.c_extra_filename->Some_0@);
        assert(pair_at(metadata_words(facts), "-C"@, extra, 2));
        lemma_base_tells(facts, 15, "-C"@, extra);
    }
    lemma_tells_flag("--out-dir"@, facts.output_dir@);
    assert(base_parts(facts)[16] == flag("--out-dir"@, facts.output_dir@));
    lemma_base_tells(facts, 16, "--out-dir"@, facts.output_dir@);
    assert(base_parts(facts)[18] == linker_words(facts));
    assert(base_parts(facts)[19] == incremental_words(facts));
    assert(base_parts(facts)[20] == closing_words(facts));
    if facts.profile.incremental {
        let value = utf8("incremental="@) + facts.incremental_dir@;
        lemma_tells_flag("-C"@, value);
        lemma_base_tells(facts, 19, "-C"@, value);
    }
    if !facts.for_host && facts.target_linker is Some {
        let value = utf8("linker="@) + facts.target_linker->Some_0@;
        lemma_tells_flag("-C"@, value);
        lemma_base_tells(facts, 18, "-C"@, value);
    }
    if facts.for_host && !facts.target_applies_to_host && facts.host_linker is Some {
        let value = utf8("linker="@) + facts.host_linker->Some_0@;
        lemma_tells_flag("-C"@, value);
        lemma_base_tells(facts, 18, "-C"@, value);
    }
    if facts.profile.strip is Some {
        let value = utf8("strip="@ + facts.profile.strip->Some_0@);
        let words = closing_words(facts);
        if facts.profile.hint_mostly_unused == Some(true) || (facts.profile.hint_mostly_unused
            is None && facts.package_hint == Hint::Value(true)) {
            if facts.hints_enabled {
                assert(pair_at(words, "-C"@, value, 1));
            } else {
                assert(pair_at(words, "-C"@, value, 0));
            }
        } else {
            assert(pair_at(words, "-C"@, value, 0));
        }
        lemma_base_tells(facts, 20, "-C"@, value);
    }
}

/// The lists that arguments for code generation are made of.
spec fn codegen_parts(facts: BaseFacts) -> Seq<Words> {
    let profile = facts.profile;
    let none: Words = Seq::empty();
    Seq::empty().push(
        if prefers_dynamic(facts) {
            text_flag("-C"@, "prefer-dynamic"@)
        } else {
            none
        },
    ).push(
        if profile.opt_level@ != "0"@ {
            text_flag("-C"@, "opt-level="@ + profile.opt_level@)
        } else {
            none
        },
    ).push(
        if profile.panic != PanicStrategy::Unwind {
            text_flag("-C"@, "panic="@ + profile.panic.name())
        } else {
            none
        },
    ).push(
        if profile.panic == PanicStrategy::ImmediateAbort {
            text_flag("-Z"@, "unstable-options"@)
        } else {
            none
        },
    ).push(lto_words(facts.lto)).push(
        match profile.codegen_backend {
            Some(backend) => text_flag("-Z"@, "codegen-backend="@ + backend@),
            None => none,
        },
    ).push(
        match profile.codegen_units {
            Some(units) => text_flag("-C"@, "codegen-units="@ + decimal(units as nat)),
            None => none,
        },
    ).push(debuginfo_words(profile))
}

/// Arguments for code generation are those lists one behind the other.
proof fn lemma_codegen_parts(facts: BaseFacts)
    ensures
        chained(codegen_parts(facts)) == codegen_words(facts),
        codegen_parts(facts).len() == 8,
{
    let all = codegen_parts(facts);
    let p8 = all;
    let p7 = p8.drop_last();
    let p6 = p7.drop_last();
    let p5 = p6.drop_last();
    let p4 = p5.drop_last();
    let p3 = p4.drop_last();
    let p2 = p3.drop_last();
    let p1 = p2.drop_last();
    let p0 = p1.drop_last();
    assert(p0.len() == 0);
    assert(chained(p0) =~= Seq::<Seq<u8>>::empty());
    assert(chained(p1) =~= all[0]);
    assert(chained(p2) == all[0] + all[1]);
    assert(chained(p3) == all[0] + all[1] + all[2]);
    assert(chained(p4) == all[0] + all[1] + all[2] + all[3]);
    assert(chained(p5) == all[0] + all[1] + all[2] + all[3] + all[4]);
    assert(chained(p6) == all[0] + all[1] + all[2] + all[3] + all[4] + all[5]);
    assert(chained(p7) == all[0] + all[1] + all[2] + all[3] + all[4] + all[5] + all[6]);
    assert(chained(p8) == all[0] + all[1] + all[2] + all[3] + all[4] + all[5] + all[6] + all[7]);
}

/// What one of those lists tells, base arguments tell.
proof fn lemma_codegen_tells(facts: BaseFacts, at: int, name: Seq<char>, value: Seq<u8>)
    requires
        0 <= at < 8,
        tells(codegen_parts(facts)[at], name, value),
    ensures
        tells(base_words(facts), name, value),
{
    lemma_codegen_parts(facts);
    lemma_chained_tells(codegen_parts(facts), at, name, value);
    assert(base_parts(facts)[7] == codegen_words(facts));
    lemma_base_tells(facts, 7, name, value);
}

/// How the compiler spells an amount of debugging information.
pub open spec fn spells_debuginfo(debuginfo: DebugInfo, text: Seq<char>) -> bool {
    match debuginfo {
        DebugInfo::Off => false,
        DebugInfo::Limited => text == "debuginfo=1"@,
        DebugInfo::Full => text == "debuginfo=2"@,
        DebugInfo::LineDirectivesOnly => text == "debuginfo=line-directives-only"@,
        DebugInfo::LineTablesOnly => text == "debuginfo=line-tables-only"@,
    }
}

/// How the compiler spells a way to panic.
pub open spec fn spells_panic(panic: PanicStrategy, text: Seq<char>) -> bool {
    match panic {
        PanicStrategy::Unwind => false,
        PanicStrategy::Abort => text == "panic=abort"@,
        PanicStrategy::ImmediateAbort => text == "panic=immediate-abort"@,
    }
}

/// How the compiler spells a part in link-time optimization.
pub open spec fn spells_lto(lto: Lto, text: Seq<char>) -> bool {
    match lto {
        Lto::Run(None) => text == "lto"@,
        Lto::Run(Some(kind)) => text == "lto="@ + kind@,
        Lto::Off => text == "lto=off"@ || text == "embed-bitcode=no"@,
        Lto::ObjectAndBitcode => false,
        Lto::OnlyBitcode => text == "linker-plugin-lto"@,
        Lto::OnlyObject => text == "embed-bitcode=no"@,
    }
}

/// How to panic is told.
proof fn lemma_panic_told(facts: BaseFacts, text: Seq<char>)
    ensures
        spells_panic(facts.profile.panic, text) ==> says(base_words(facts), "-C"@, text),
{
    let profile = facts.profile;
    let parts = codegen_parts(facts);
    if spells_panic(profile.panic, text) {
        reveal_strlit("panic=");
        reveal_strlit("abort");
        reveal_strlit("immediate-abort");
        reveal_strlit("panic=abort");
        reveal_strlit("panic=immediate-abort");
        assert(text =~= "panic="@ + profile.panic.name());
        assert(pair_at(parts[2], "-C"@, utf8(text), 0));
        lemma_codegen_tells(facts, 2, "-C"@, utf8(text));
    }
}

/// The part in link-time optimization is told.
proof fn lemma_lto_told(facts: BaseFacts, text: Seq<char>)
    ensures
        spells_lto(facts.lto, text) ==> says(base_words(facts), "-C"@, text),
{
    let parts = codegen_parts(facts);
    if spells_lto(facts.lto, text) {
        if facts.lto is Off && text != "lto=off"@ {
            assert(pair_at(parts[4], "-C"@, utf8(text), 2));
        } else {
            assert(pair_at(parts[4], "-C"@, utf8(text), 0));
        }
        lemma_codegen_tells(facts, 4, "-C"@, utf8(text));
    }
}

/// The debugging information is told.
proof fn lemma_debuginfo_told(facts: BaseFacts, text: Seq<char>)
    ensures
        spells_debuginfo(facts.profile.debuginfo, text) ==> says(base_words(facts), "-C"@, text),
{
    let profile = facts.profile;
    let parts = codegen_parts(facts);
    if spells_debuginfo(profile.debuginfo, text) {
        reveal_strlit("debuginfo=");
        reveal_strlit("1");
        reveal_strlit("2");
        reveal_strlit("line-directives-only");
        reveal_strlit("line-tables-only");
        reveal_strlit("debuginfo=1");
        reveal_strlit("debuginfo=2");
        reveal_strlit("debuginfo=line-directives-only");
        reveal_strlit("debuginfo=line-tables-only");
        assert(text =~= "debuginfo="@ + profile.debuginfo.name());
        assert(pair_at(parts[7], "-C"@, utf8(text), 0));
        lemma_codegen_tells(facts, 7, "-C"@, utf8(text));
    }
}

/// The level of optimization and how to link are told.
proof fn lemma_levels_told(facts: BaseFacts)
    ensures
        facts.profile.opt_level@ != "0"@ ==> says(
            base_words(facts),
            "-C"@,
            "opt-level="@ + facts.profile.opt_level@,
        ),
        facts.for_host && !facts.is_custom_build ==> says(
            base_words(facts),
            "-C"@,
            "prefer-dynamic"@,
        ),
{
    let profile = facts.profile;
    let parts = codegen_parts(facts);
    if facts.for_host && !facts.is_custom_build {
        let value = utf8("prefer-dynamic"@);
        assert(pair_at(parts[0], "-C"@, value, 0));
        lemma_codegen_tells(facts, 0, "-C"@, value);
    }
    if profile.opt_level@ != "0"@ {
        let value = utf8("opt-level="@ + profile.opt_level@);
        assert(pair_at(parts[1], "-C"@, value, 0));
        lemma_codegen_tells(facts, 1, "-C"@, value);
    }
}

/// The backend and the number of units are told.
proof fn lemma_units_told(facts: BaseFacts)
    ensures
        facts.profile.codegen_units matches Some(units) ==> says(
            base_words(facts),
            "-C"@,
            "codegen-units="@ + decimal(units as nat),
        ),
        facts.profile.codegen_backend matches Some(backend) ==> says(
            base_words(facts),
            "-Z"@,
            "codegen-backend="@ + backend@,
        ),
{
    let profile = facts.profile;
    let parts = codegen_parts(facts);
    if profile.codegen_backend is Some {
        let value = utf8("codegen-backend="@ + profile.codegen_backend->Some_0@);
        assert(pair_at(parts[5], "-Z"@, value, 0));
        lemma_codegen_tells(facts, 5, "-Z"@, value);
    }
    if profile.codegen_units is Some {
        let value = utf8("codegen-units="@ + decimal(profile.codegen_units->Some_0 as nat));
        assert(pair_at(parts[6], "-C"@, value, 0));
        lemma_codegen_tells(facts, 6, "-C"@, value);
    }
}

/// How debugging information is split is told.
proof fn lemma_split_told(facts: BaseFacts)
    ensures
        facts.profile.debuginfo != DebugInfo::Off ==> (facts.profile.split_debuginfo matches Some(
            split,
        ) ==> says(base_words(facts), "-C"@, "split-debuginfo="@ + split@)),
{
    let profile = facts.profile;
    let parts = codegen_parts(facts);
    if profile.debuginfo != DebugInfo::Off && profile.split_debuginfo is Some {
        let value = utf8("split-debuginfo="@ + profile.split_debuginfo->Some_0@);
        assert(pair_at(parts[7], "-C"@, value, 2));
        lemma_codegen_tells(facts, 7, "-C"@, value);
    }
}

/// What a profile asks for is told to the compiler: the level of optimization,
/// how to panic, the number of units, the debugging information and how it is
/// split, and the part in link-time optimization.
pub proof fn law_profiles_reach_the_compiler(facts: BaseFacts, text: Seq<char>)
    ensures
        facts.profile.opt_level@ != "0"@ ==> says(
            base_words(facts),
            "-C"@,
            "opt-level="@ + facts.profile.opt_level@,
        ),
        spells_panic(facts.profile.panic, text) ==> says(base_words(facts), "-C"@, text),
        spells_debuginfo(facts.profile.debuginfo, text) ==> says(base_words(facts), "-C"@, text),
        spells_lto(facts.lto, text) ==> says(base_words(facts), "-C"@, text),
        facts.profile.debuginfo != DebugInfo::Off ==> (facts.profile.split_debuginfo matches Some(
            split,
        ) ==> says(base_words(facts), "-C"@, "split-debuginfo="@ + split@)),
        facts.profile.codegen_units matches Some(units) ==> says(
            base_words(facts),
            "-C"@,
            "codegen-units="@ + decimal(units as nat),
        ),
        facts.profile.codegen_backend matches Some(backend) ==> says(
            base_words(facts),
            "-Z"@,
            "codegen-backend="@ + backend@,
        ),
        facts.for_host && !facts.is_custom_build ==> says(
            base_words(facts),
            "-C"@,
            "prefer-dynamic"@,
        ),
{
    lemma_panic_told(facts, text);
    lemma_lto_told(facts, text);
    lemma_debuginfo_told(facts, text);
    lemma_levels_told(facts);
    lemma_units_told(facts);
    lemma_split_told(facts);
}

/// Whether a switch of the compiler is on: as it is said, or else as it is
/// without being said.
pub open spec fn is_on(words: Words, on: Seq<char>, off: Seq<char>, otherwise: bool) -> bool {
    if says(words, "-C"@, on) {
        true
    } else if says(words, "-C"@, off) {
        false
    } else {
        otherwise
    }
}

/// The four values are told apart.
proof fn lemma_switches()
    ensures
        utf8("debug-assertions=on"@) != utf8("debug-assertions=off"@),
        utf8("overflow-checks=on"@) != utf8("overflow-checks=off"@),
        utf8("debug-assertions=on"@) != utf8("overflow-checks=on"@),
        utf8("debug-assertions=on"@) != utf8("overflow-checks=off"@),
        utf8("debug-assertions=off"@) != utf8("overflow-checks=on"@),
        utf8("debug-assertions=off"@) != utf8("overflow-checks=off"@),
        utf8("debug-assertions=on"@) != utf8("-C"@),
        utf8("debug-assertions=off"@) != utf8("-C"@),
        utf8("overflow-checks=on"@) != utf8("-C"@),
        utf8("overflow-checks=off"@) != utf8("-C"@),
{
    reveal_strlit("debug-assertions=on");
    reveal_strlit("debug-assertions=off");
    reveal_strlit("overflow-checks=on");
    reveal_strlit("overflow-checks=off");
    reveal_strlit("-C");
    let texts = seq![
        "debug-assertions=on"@,
        "debug-assertions=off"@,
        "overflow-checks=on"@,
        "overflow-checks=off"@,
        "-C"@,
    ];
    assert("debug-assertions=on"@[0] == 'd');
    assert("debug-assertions=off"@[0] == 'd');
    assert("overflow-checks=on"@[0] == 'o');
    assert("overflow-checks=off"@[0] == 'o');
    assert("-C"@[0] == '-');
    assert forall|i: int, j: int| 0 <= i < j < 5 implies utf8(#[trigger] texts[i]) != utf8(
        #[trigger] texts[j],
    ) by {
        if utf8(texts[i]) == utf8(texts[j]) {
            lemma_texts_of_bytes(texts[i], texts[j]);
            assert(texts[i].len() == texts[j].len());
            assert(texts[i][0] == texts[j][0]);
        }
    }
    assert(utf8(texts[0]) != utf8(texts[1]));
    assert(utf8(texts[2]) != utf8(texts[3]));
    assert(utf8(texts[0]) != utf8(texts[2]));
    assert(utf8(texts[0]) != utf8(texts[3]));
    assert(utf8(texts[1]) != utf8(texts[2]));
    assert(utf8(texts[1]) != utf8(texts[3]));
    assert(utf8(texts[0]) != utf8(texts[4]));
    assert(utf8(texts[1]) != utf8(texts[4]));
    assert(utf8(texts[2]) != utf8(texts[4]));
    assert(utf8(texts[3]) != utf8(texts[4]));
}

/// The compiler checks what the profile asks for. Without a word it checks debug
/// assertions where nothing is optimized, and overflow where it checks debug
/// assertions; whatever is said, the outcome is that of the profile.
pub proof fn law_checks_are_those_of_the_profile(profile: Profile)
    ensures
        ({
            let words = check_words(profile);
            let assertions = is_on(
                words,
                "debug-assertions=on"@,
                "debug-assertions=off"@,
                profile.opt_level@ == "0"@,
            );
            &&& assertions == profile.debug_assertions
            &&& is_on(words, "overflow-checks=on"@, "overflow-checks=off"@, assertions)
                == profile.overflow_checks
        }),
{
    lemma_switches();
    let words = check_words(profile);
    let on = utf8("debug-assertions=on"@);
    let off = utf8("debug-assertions=off"@);
    let checked = utf8("overflow-checks=on"@);
    let unchecked = utf8("overflow-checks=off"@);
    assert(words.len() == 0 || words.len() == 2 || words.len() == 4);
    assert(tells(words, "-C"@, on) == (words.len() >= 2 && words[1] == on)) by {
        lemma_switch(words, on);
    }
    assert(tells(words, "-C"@, off) == (words.len() >= 2 && words[1] == off)) by {
        lemma_switch(words, off);
    }
    lemma_switch(words, checked);
    lemma_switch(words, unchecked);
}

/// A value stands second or fourth in two pairs at most.
proof fn lemma_switch(words: Words, value: Seq<u8>)
    requires
        words.len() == 0 || words.len() == 2 || words.len() == 4,
        value != utf8("-C"@),
        forall|i: int| 0 <= i < words.len() && i % 2 == 0 ==> #[trigger] words[i] == utf8("-C"@),
    ensures
        tells(words, "-C"@, value) == ((words.len() >= 2 && words[1] == value) || (words.len() >= 4
            && words[3] == value)),
{
    if words.len() >= 2 && words[1] == value {
        assert(words[0] == utf8("-C"@));
        assert(pair_at(words, "-C"@, value, 0));
    }
    if words.len() >= 4 && words[3] == value {
        assert(words[2] == utf8("-C"@));
        assert(pair_at(words, "-C"@, value, 2));
    }
    if tells(words, "-C"@, value) {
        let at = choose|at: int| pair_at(words, "-C"@, value, at);
        if at == 1 {
            assert(words[2] == utf8("-C"@));
        }
    }
}

/// The options that an argument may put in front of a crate's name.
pub open spec fn is_option_text(
    private: bool,
    noprelude: bool,
    nounused: bool,
    text: Seq<char>,
) -> bool {
    text == match (private, noprelude, nounused) {
        (false, false, false) => ""@,
        (true, false, false) => "priv:"@,
        (false, true, false) => "noprelude:"@,
        (false, false, true) => "nounused:"@,
        (true, true, false) => "priv,noprelude:"@,
        (true, false, true) => "priv,nounused:"@,
        (false, true, true) => "noprelude,nounused:"@,
        (true, true, true) => "priv,noprelude,nounused:"@,
    }
}

/// The options in front of a crate's name.
proof fn lemma_option_text(private: bool, noprelude: bool, nounused: bool, text: Seq<char>)
    requires
        is_option_text(private, noprelude, nounused, text),
    ensures
        option_text(private, noprelude, nounused) == text,
{
    reveal_strlit("");
    reveal_strlit("priv");
    reveal_strlit(",");
    reveal_strlit("noprelude");
    reveal_strlit("nounused");
    reveal_strlit(":");
    reveal_strlit("priv:");
    reveal_strlit("noprelude:");
    reveal_strlit("nounused:");
    reveal_strlit("priv,noprelude:");
    reveal_strlit("priv,nounused:");
    reveal_strlit("noprelude,nounused:");
    reveal_strlit("priv,noprelude,nounused:");
    assert(option_text(private, noprelude, nounused) =~= text);
}

/// Every file of a list that is linked is told.
proof fn lemma_linked_tells(
    prefix: Seq<char>,
    outputs: Seq<OutputFile>,
    no_embed_metadata: bool,
    at: int,
)
    requires
        0 <= at < outputs.len(),
        outputs[at].flavor == FileFlavor::Linkable || (no_embed_metadata && outputs[at].flavor
            == FileFlavor::Rmeta),
    ensures
        tells(
            linked_words(prefix, outputs, no_embed_metadata),
            "--extern"@,
            utf8(prefix) + outputs[at].path@,
        ),
    decreases outputs.len(),
{
    let front = linked_words(prefix, outputs.drop_last(), no_embed_metadata);
    let value = utf8(prefix) + outputs[at].path@;
    if at == outputs.len() - 1 {
        lemma_tells_flag("--extern"@, value);
        lemma_tells(front, flag("--extern"@, value), Seq::empty(), "--extern"@, value);
    } else {
        lemma_linked_tells(prefix, outputs.drop_last(), no_embed_metadata, at);
        lemma_tells(
            Seq::empty(),
            front,
            flag("--extern"@, utf8(prefix) + outputs.last().path@),
            "--extern"@,
            value,
        );
    }
}

/// What is told for one dependency is told for all of them.
proof fn lemma_links_tell(
    facts: ExternFacts,
    dependencies: Seq<Dependency>,
    at: int,
    value: Seq<u8>,
)
    requires
        0 <= at < dependencies.len(),
        tells(link_words(facts, dependencies[at]), "--extern"@, value),
    ensures
        tells(links_words(facts, dependencies), "--extern"@, value),
    decreases dependencies.len(),
{
    let front = links_words(facts, dependencies.drop_last());
    let back = link_words(facts, dependencies.last());
    if at == dependencies.len() - 1 {
        lemma_tells(front, back, Seq::empty(), "--extern"@, value);
    } else {
        lemma_links_tell(facts, dependencies.drop_last(), at, value);
        lemma_tells(Seq::empty(), front, back, "--extern"@, value);
    }
}

/// What is told of linked crates is among all arguments for dependencies.
proof fn lemma_dependencies_tell(
    search: SearchFacts,
    unit: int,
    facts: ExternFacts,
    dependencies: Seq<Dependency>,
    at: int,
    value: Seq<u8>,
)
    requires
        0 <= at < dependencies.len(),
        tells(link_words(facts, dependencies[at]), "--extern"@, value),
    ensures
        tells(dependency_words(search, unit, facts, dependencies), "--extern"@, value),
{
    let links = links_words(facts, dependencies);
    let macros: Words = if facts.is_proc_macro {
        text_flag("--extern"@, "proc_macro"@)
    } else {
        Seq::empty()
    };
    let options: Words = if externs_are_unstable(facts, dependencies) {
        text_flag("-Z"@, "unstable-options"@)
    } else {
        Seq::empty()
    };
    lemma_links_tell(facts, dependencies, at, value);
    lemma_tells(Seq::empty(), links, macros, "--extern"@, value);
    let dirs = search_words(search_dirs(search, unit));
    assert(extern_words(facts, dependencies) == links + macros);
    lemma_tells(dirs, links + macros, options, "--extern"@, value);
}

/// Whether a dependency is private: it is not public, the unit is a library, and
/// the unit tells public dependencies from others.
pub open spec fn counts_as_private(facts: ExternFacts, dependency: Dependency) -> bool {
    &&& facts.is_lib
    &&& !dependency.is_public
    &&& facts.public_dependency || facts.public_dependency_feature
}

/// Every library of every crate that a unit depends on is linked under the name
/// that the unit gives it, with the options that apply: `priv`, `noprelude`,
/// `nounused`, in this order.
pub proof fn law_libraries_are_linked(
    search: SearchFacts,
    unit: int,
    facts: ExternFacts,
    dependencies: Seq<Dependency>,
    at: int,
    output: int,
    options: Seq<char>,
)
    requires
        0 <= at < dependencies.len(),
        dependencies[at].is_linkable,
        !dependencies[at].is_doc,
        !dependencies[at].only_requires_rmeta,
        !dependencies[at].is_check,
        0 <= output < dependencies[at].outputs@.len(),
        dependencies[at].outputs@[output].flavor == FileFlavor::Linkable || (
        facts.no_embed_metadata && dependencies[at].outputs@[output].flavor == FileFlavor::Rmeta),
        is_option_text(
            counts_as_private(facts, dependencies[at]),
            dependencies[at].noprelude,
            dependencies[at].nounused,
            options,
        ),
    ensures
        tells(
            dependency_words(search, unit, facts, dependencies),
            "--extern"@,
            utf8(options + dependencies[at].extern_crate_name@ + "="@)
                + dependencies[at].outputs@[output].path@,
        ),
{
    let dependency = dependencies[at];
    let prefix = extern_prefix(facts, dependency);
    lemma_option_text(
        counts_as_private(facts, dependency),
        dependency.noprelude,
        dependency.nounused,
        options,
    );
    assert(prefix == options + dependency.extern_crate_name@ + "="@);
    lemma_linked_tells(prefix, dependency.outputs@, facts.no_embed_metadata, output);
    lemma_dependencies_tell(
        search,
        unit,
        facts,
        dependencies,
        at,
        utf8(prefix) + dependency.outputs@[output].path@,
    );
}

/// The first metadata is the one that is found.
proof fn lemma_first_rmeta(outputs: Seq<OutputFile>, at: int)
    requires
        0 <= at < outputs.len(),
        outputs[at].flavor == FileFlavor::Rmeta,
        forall|k: int| 0 <= k < at ==> (#[trigger] outputs[k]).flavor != FileFlavor::Rmeta,
    ensures
        first_rmeta(outputs) == Some(outputs[at].path@),
    decreases outputs.len(),
{
    if at > 0 {
        assert(outputs[0].flavor != FileFlavor::Rmeta);
        let rest = outputs.drop_first();
        assert forall|k: int| 0 <= k < at - 1 implies (#[trigger] rest[k]).flavor
            != FileFlavor::Rmeta by {
            assert(rest[k] == outputs[k + 1]);
        }
        lemma_first_rmeta(rest, at - 1);
    }
}

/// Where a unit needs only the metadata of a crate, or the crate is only checked,
/// its metadata is what the unit is given.
pub proof fn law_metadata_is_linked(
    search: SearchFacts,
    unit: int,
    facts: ExternFacts,
    dependencies: Seq<Dependency>,
    at: int,
    output: int,
    options: Seq<char>,
)
    requires
        0 <= at < dependencies.len(),
        dependencies[at].is_linkable,
        !dependencies[at].is_doc,
        dependencies[at].only_requires_rmeta || dependencies[at].is_check,
        0 <= output < dependencies[at].outputs@.len(),
        dependencies[at].outputs@[output].flavor == FileFlavor::Rmeta,
        forall|k: int|
            0 <= k < output ==> (#[trigger] dependencies[at].outputs@[k]).flavor
                != FileFlavor::Rmeta,
        is_option_text(
            counts_as_private(facts, dependencies[at]),
            dependencies[at].noprelude,
            dependencies[at].nounused,
            options,
        ),
    ensures
        link_words(facts, dependencies[at]) == flag(
            "--extern"@,
            utf8(options + dependencies[at].extern_crate_name@ + "="@)
                + dependencies[at].outputs@[output].path@,
        ),
        tells(
            dependency_words(search, unit, facts, dependencies),
            "--extern"@,
            utf8(options + dependencies[at].extern_crate_name@ + "="@)
                + dependencies[at].outputs@[output].path@,
        ),
{
    let dependency = dependencies[at];
    lemma_option_text(
        counts_as_private(facts, dependency),
        dependency.noprelude,
        dependency.nounused,
        options,
    );
    lemma_first_rmeta(dependency.outputs@, output);
    let value = utf8(options + dependency.extern_crate_name@ + "="@)
        + dependency.outputs@[output].path@;
    lemma_tells_flag("--extern"@, value);
    lemma_dependencies_tell(search, unit, facts, dependencies, at, value);
}

/// The directory of a unit that is reached is among those that are reached.
proof fn lemma_reached_dirs(facts: SearchFacts, unit: int, count: int, other: int)
    requires
        0 <= other < count,
        is_reachable(facts.dependencies@, unit, other),
    ensures
        reached_dirs(facts, unit, count).contains(facts.deps_dirs@[other]@),
    decreases count,
{
    let all = reached_dirs(facts, unit, count);
    let front = reached_dirs(facts, unit, count - 1);
    let path = facts.deps_dirs@[other]@;
    if other == count - 1 {
        assert(all[all.len() - 1] == path);
    } else {
        lemma_reached_dirs(facts, unit, count - 1, other);
        let k = choose|k: int| 0 <= k < front.len() && front[k] == path;
        assert(all[k] == path);
    }
}

/// Every directory that is searched is told.
proof fn lemma_search_tells(dirs: Seq<Seq<u8>>, at: int)
    requires
        0 <= at < dirs.len(),
    ensures
        tells(search_words(dirs), "-L"@, utf8("dependency="@) + dirs[at]),
    decreases dirs.len(),
{
    let front = search_words(dirs.drop_last());
    let value = utf8("dependency="@) + dirs[at];
    if at == dirs.len() - 1 {
        lemma_tells_flag("-L"@, value);
        lemma_tells(front, flag("-L"@, value), Seq::empty(), "-L"@, value);
    } else {
        lemma_search_tells(dirs.drop_last(), at);
        lemma_tells(
            Seq::empty(),
            front,
            flag("-L"@, utf8("dependency="@) + dirs.last()),
            "-L"@,
            value,
        );
    }
}

/// The compiler searches the directory of every unit that is reached, where each
/// has one of its own, or the one that they share; and, for what does not run on
/// the host, that of libraries for the host.
pub proof fn law_reached_units_are_searched(
    search: SearchFacts,
    unit: int,
    facts: ExternFacts,
    dependencies: Seq<Dependency>,
    other: int,
)
    ensures
        search.new_layout && 0 <= other < search.deps_dirs@.len() && is_reachable(
            search.dependencies@,
            unit,
            other,
        ) ==> tells(
            dependency_words(search, unit, facts, dependencies),
            "-L"@,
            utf8("dependency="@) + search.deps_dirs@[other]@,
        ),
        !search.new_layout ==> tells(
            dependency_words(search, unit, facts, dependencies),
            "-L"@,
            utf8("dependency="@) + search.deps_dirs@[unit]@,
        ),
        !search.is_host ==> tells(
            dependency_words(search, unit, facts, dependencies),
            "-L"@,
            utf8("dependency="@) + search.host_deps@,
        ),
{
    let dirs = search_dirs(search, unit);
    let words = search_words(dirs);
    let externs = extern_words(facts, dependencies);
    let options: Words = if externs_are_unstable(facts, dependencies) {
        text_flag("-Z"@, "unstable-options"@)
    } else {
        Seq::empty()
    };
    assert(dependency_words(search, unit, facts, dependencies) == words + externs + options);
    assert(words + externs + options =~= words + (externs + options));
    if search.new_layout && 0 <= other < search.deps_dirs@.len() && is_reachable(
        search.dependencies@,
        unit,
        other,
    ) {
        let count = search.deps_dirs@.len() as int;
        let path = search.deps_dirs@[other]@;
        let reached = reached_dirs(search, unit, count);
        lemma_reached_dirs(search, unit, count, other);
        let k = choose|k: int| 0 <= k < reached.len() && reached[k] == path;
        lemma_sorted_holds(reached, path_order(), k);
        let ordered = sorted(reached, path_order());
        let m = choose|m: int| 0 <= m < ordered.len() && ordered[m] == path;
        assert(dirs[m] == path);
        lemma_search_tells(dirs, m);
        lemma_tells(
            Seq::empty(),
            words,
            externs + options,
            "-L"@,
            utf8("dependency="@) + path,
        );
    }
    if !search.new_layout {
        assert(dirs[0] == search.deps_dirs@[unit]@);
        lemma_search_tells(dirs, 0);
        lemma_tells(Seq::empty(), words, externs + options, "-L"@, utf8("dependency="@) + dirs[0]);
    }
    if !search.is_host {
        let last = dirs.len() - 1;
        assert(dirs[last] == search.host_deps@);
        lemma_search_tells(dirs, last);
        lemma_tells(
            Seq::empty(),
            words,
            externs + options,
            "-L"@,
            utf8("dependency="@) + dirs[last],
        );
    }
}

/// Every path of one origin is told.
proof fn lemma_paths_tell(list: Seq<LibraryPath>, at: int)
    requires
        0 <= at < list.len(),
    ensures
        tells(paths_of(list, list[at].origin), "-L"@, list[at].path@),
    decreases list.len(),
{
    let origin = list[at].origin;
    let front = paths_of(list.drop_last(), origin);
    let value = list[at].path@;
    if at == list.len() - 1 {
        lemma_tells_flag("-L"@, value);
        lemma_tells(front, flag("-L"@, value), Seq::empty(), "-L"@, value);
    } else {
        assert(list.drop_last()[at] == list[at]);
        lemma_paths_tell(list.drop_last(), at);
        lemma_tells(Seq::empty(), front, flag("-L"@, list.last().path@), "-L"@, value);
    }
}

/// Every path of every script is told.
proof fn lemma_script_paths_tell(scripts: Seq<ScriptLink>, script: int, at: int)
    requires
        0 <= script < scripts.len(),
        scripts[script].output is Some,
        0 <= at < scripts[script].output->Some_0.library_paths@.len(),
    ensures
        ({
            let path = scripts[script].output->Some_0.library_paths@[at];
            tells(script_paths(scripts, path.origin), "-L"@, path.path@)
        }),
    decreases scripts.len(),
{
    let path = scripts[script].output->Some_0.library_paths@[at];
    let front = script_paths(scripts.drop_last(), path.origin);
    let back = paths_of(scripts.last().output->Some_0.library_paths@, path.origin);
    if script == scripts.len() - 1 {
        lemma_paths_tell(scripts[script].output->Some_0.library_paths@, at);
        lemma_tells(front, back, Seq::empty(), "-L"@, path.path@);
    } else {
        assert(scripts.drop_last()[script] == scripts[script]);
        lemma_script_paths_tell(scripts.drop_last(), script, at);
        lemma_tells(Seq::empty(), front, back, "-L"@, path.path@);
    }
}

/// Every linker argument that applies is told.
proof fn lemma_linker_tells(arguments: Seq<LinkerArgument>, is_current: bool, at: int)
    requires
        0 <= at < arguments.len(),
        arguments[at].applies,
        is_current || arguments[at].is_cdylib,
    ensures
        says(
            crate::link_arguments::linker_words(arguments, is_current),
            "-C"@,
            "link-arg="@ + arguments[at].argument@,
        ),
    decreases arguments.len(),
{
    let front = crate::link_arguments::linker_words(arguments.drop_last(), is_current);
    let value = utf8("link-arg="@ + arguments[at].argument@);
    if at == arguments.len() - 1 {
        lemma_tells_flag("-C"@, value);
        lemma_tells(front, flag("-C"@, value), Seq::empty(), "-C"@, value);
    } else {
        assert(arguments.drop_last()[at] == arguments[at]);
        lemma_linker_tells(arguments.drop_last(), is_current, at);
        lemma_tells(
            Seq::empty(),
            front,
            text_flag("-C"@, "link-arg="@ + arguments.last().argument@),
            "-C"@,
            value,
        );
    }
}

/// What is told for one script is told for all of them.
proof fn lemma_scripts_tell(
    scripts: Seq<ScriptLink>,
    pass_l_flag: bool,
    script: int,
    name: Seq<char>,
    value: Seq<u8>,
)
    requires
        0 <= script < scripts.len(),
        tells(script_link_words(scripts[script], pass_l_flag), name, value),
    ensures
        tells(native_words(scripts, pass_l_flag), name, value),
{
    lemma_scripts_link_tell(scripts, pass_l_flag, script, name, value);
    let dirs = script_paths(scripts, LibraryOrigin::CargoArtifact) + script_paths(
        scripts,
        LibraryOrigin::External,
    );
    lemma_tells(dirs, scripts_link_words(scripts, pass_l_flag), Seq::empty(), name, value);
}

/// What is told for one script is told for all of them.
proof fn lemma_scripts_link_tell(
    scripts: Seq<ScriptLink>,
    pass_l_flag: bool,
    script: int,
    name: Seq<char>,
    value: Seq<u8>,
)
    requires
        0 <= script < scripts.len(),
        tells(script_link_words(scripts[script], pass_l_flag), name, value),
    ensures
        tells(scripts_link_words(scripts, pass_l_flag), name, value),
    decreases scripts.len(),
{
    let front = scripts_link_words(scripts.drop_last(), pass_l_flag);
    let back = script_link_words(scripts.last(), pass_l_flag);
    if script == scripts.len() - 1 {
        lemma_tells(front, back, Seq::empty(), name, value);
    } else {
        lemma_scripts_link_tell(scripts.drop_last(), pass_l_flag, script, name, value);
        lemma_tells(Seq::empty(), front, back, name, value);
    }
}

/// What build scripts print reaches the compiler: every directory to search, from
/// every script; every library to link, from the script of the package itself,
/// where libraries are passed on; and every linker argument that applies, from
/// that script, or from another where it is for dynamic libraries with a C
/// interface.
pub proof fn law_scripts_reach_the_compiler(
    scripts: Seq<ScriptLink>,
    pass_l_flag: bool,
    script: int,
    at: int,
)
    requires
        0 <= script < scripts.len(),
        scripts[script].output is Some,
    ensures
        ({
            let words = native_words(scripts, pass_l_flag);
            let output = scripts[script].output->Some_0;
            &&& 0 <= at < output.library_paths@.len() ==> tells(
                words,
                "-L"@,
                output.library_paths@[at].path@,
            )
            &&& 0 <= at < output.library_links@.len() && scripts[script].is_current && pass_l_flag
                ==> says(words, "-l"@, output.library_links@[at]@)
            &&& 0 <= at < output.linker_args@.len() && output.linker_args@[at].applies && (
            scripts[script].is_current || output.linker_args@[at].is_cdylib) ==> says(
                words,
                "-C"@,
                "link-arg="@ + output.linker_args@[at].argument@,
            )
        }),
{
    let output = scripts[script].output->Some_0;
    let is_current = scripts[script].is_current;
    let links: Words = if is_current && pass_l_flag {
        repeated_flag("-l"@, texts(output.library_links@))
    } else {
        Seq::empty()
    };
    let arguments = crate::link_arguments::linker_words(output.linker_args@, is_current);
    assert(script_link_words(scripts[script], pass_l_flag) == links + arguments);
    if 0 <= at < output.library_paths@.len() {
        let path = output.library_paths@[at];
        lemma_script_paths_tell(scripts, script, at);
        let own = script_paths(scripts, LibraryOrigin::CargoArtifact);
        let external = script_paths(scripts, LibraryOrigin::External);
        let rest = scripts_link_words(scripts, pass_l_flag);
        if path.origin == LibraryOrigin::CargoArtifact {
            lemma_tells(Seq::empty(), own, external, "-L"@, path.path@);
        } else {
            lemma_tells(own, external, Seq::empty(), "-L"@, path.path@);
        }
        lemma_tells(Seq::empty(), own + external, rest, "-L"@, path.path@);
    }
    if 0 <= at < output.library_links@.len() && is_current && pass_l_flag {
        let list = texts(output.library_links@);
        lemma_repeated_tells("-l"@, list, at);
        lemma_tells(Seq::empty(), links, arguments, "-l"@, utf8(list[at]));
        lemma_scripts_tell(scripts, pass_l_flag, script, "-l"@, utf8(list[at]));
    }
    if 0 <= at < output.linker_args@.len() && output.linker_args@[at].applies && (is_current
        || output.linker_args@[at].is_cdylib) {
        let value = utf8("link-arg="@ + output.linker_args@[at].argument@);
        lemma_linker_tells(output.linker_args@, is_current, at);
        lemma_tells(links, arguments, Seq::empty(), "-C"@, value);
        lemma_scripts_tell(scripts, pass_l_flag, script, "-C"@, value);
    }
}

/// Every condition that a build script sets, and every one that it declares, is told
/// to the compiler.
pub proof fn law_conditions_reach_the_compiler(scripts: Seq<ScriptLink>, script: int, at: int)
    requires
        0 <= script < scripts.len(),
        scripts[script].output is Some,
    ensures
        ({
            let output = scripts[script].output->Some_0;
            &&& 0 <= at < output.cfgs@.len() ==> says(
                custom_words(scripts),
                "--cfg"@,
                output.cfgs@[at]@,
            )
            &&& 0 <= at < output.check_cfgs@.len() ==> says(
                custom_words(scripts),
                "--check-cfg"@,
                output.check_cfgs@[at]@,
            )
        }),
    decreases scripts.len(),
{
    let output = scripts[script].output->Some_0;
    let front = custom_words(scripts.drop_last());
    let back: Words = match scripts.last().output {
        Some(output) => repeated_flag("--cfg"@, texts(output.cfgs@)) + repeated_flag(
            "--check-cfg"@,
            texts(output.check_cfgs@),
        ),
        None => Seq::empty(),
    };
    assert(custom_words(scripts) == front + back);
    if script < scripts.len() - 1 {
        assert(scripts.drop_last()[script] == scripts[script]);
        law_conditions_reach_the_compiler(scripts.drop_last(), script, at);
    }
    let set = repeated_flag("--cfg"@, texts(output.cfgs@));
    let declared = repeated_flag("--check-cfg"@, texts(output.check_cfgs@));
    if 0 <= at < output.cfgs@.len() {
        let value = utf8(output.cfgs@[at]@);
        if script == scripts.len() - 1 {
            lemma_repeated_tells("--cfg"@, texts(output.cfgs@), at);
            lemma_tells(Seq::empty(), set, declared, "--cfg"@, value);
            lemma_tells(front, back, Seq::empty(), "--cfg"@, value);
        } else {
            lemma_tells(Seq::empty(), front, back, "--cfg"@, value);
        }
    }
    if 0 <= at < output.check_cfgs@.len() {
        let value = utf8(output.check_cfgs@[at]@);
        if script == scripts.len() - 1 {
            lemma_repeated_tells("--check-cfg"@, texts(output.check_cfgs@), at);
            lemma_tells(set, declared, Seq::empty(), "--check-cfg"@, value);
            lemma_tells(front, back, Seq::empty(), "--check-cfg"@, value);
        } else {
            lemma_tells(Seq::empty(), front, back, "--check-cfg"@, value);
        }
    }
}

/// The directory of a library path is what stands behind its kind, and the whole path
/// where it has none.
pub proof fn law_kinds_are_taken_off_library_paths(directory: Seq<char>)
    ensures
        dynamic_path(utf8("native="@ + directory)) == utf8(directory),
        dynamic_path(utf8("crate="@ + directory)) == utf8(directory),
        dynamic_path(utf8("dependency="@ + directory)) == utf8(directory),
        dynamic_path(utf8("framework="@ + directory)) == utf8(directory),
        dynamic_path(utf8("all="@ + directory)) == utf8(directory),
        !directory.contains('=') ==> dynamic_path(utf8(directory)) == utf8(directory),
{
    reveal_strlit("native");
    reveal_strlit("crate");
    reveal_strlit("dependency");
    reveal_strlit("framework");
    reveal_strlit("all");
    reveal_strlit("native=");
    reveal_strlit("crate=");
    reveal_strlit("dependency=");
    reveal_strlit("framework=");
    reveal_strlit("all=");
    lemma_kind_taken_off("native"@, "native="@, directory);
    lemma_kind_taken_off("crate"@, "crate="@, directory);
    lemma_kind_taken_off("dependency"@, "dependency="@, directory);
    lemma_kind_taken_off("framework"@, "framework="@, directory);
    lemma_kind_taken_off("all"@, "all="@, directory);
    if !directory.contains('=') {
        encode_utf8_valid_utf8(directory);
        encode_utf8_decode_utf8(directory);
        law_texts_are_cut_at_the_first(directory, '=', Seq::empty());
    }
}

/// What stands behind a kind.
proof fn lemma_kind_taken_off(kind: Seq<char>, mark: Seq<char>, directory: Seq<char>)
    requires
        mark =~= kind + seq!['='],
        !kind.contains('='),
        kind == "native"@ || kind == "crate"@ || kind == "dependency"@ || kind == "framework"@
            || kind == "all"@,
    ensures
        dynamic_path(utf8(mark + directory)) == utf8(directory),
{
    let text = mark + directory;
    encode_utf8_valid_utf8(text);
    encode_utf8_decode_utf8(text);
    law_texts_are_cut_at_the_first(kind, '=', directory);
    assert(text =~= kind + seq!['='] + directory);
}

/// Texts are among the arguments that they become.
proof fn lemma_text_words(list: Seq<String>, at: int)
    requires
        0 <= at < list.len(),
    ensures
        text_words(list).contains(utf8(list[at]@)),
{
    assert(text_words(list)[at] == utf8(list[at]@));
}

/// An argument stands where arguments that hold it stand.
proof fn lemma_holds(front: Words, middle: Words, back: Words, value: Seq<u8>)
    requires
        middle.contains(value),
    ensures
        (front + middle + back).contains(value),
{
    let k = choose|k: int| 0 <= k < middle.len() && middle[k] == value;
    assert((front + middle + back)[front.len() + k] == value);
}

/// Eight lists of arguments, grouped around one of them.
proof fn lemma_regrouped_words(
    a: Words,
    b: Words,
    c: Words,
    d: Words,
    e: Words,
    f: Words,
    g: Words,
    h: Words,
)
    ensures
        a + b + c + d + e + f + g + h == a + (b + c + d + e + f + g + h),
        a + b + c + d + e + f + g + h == (a + b) + c + (d + e + f + g + h),
        a + b + c + d + e + f + g + h == (a + b + c) + d + (e + f + g + h),
        a + b + c + d + e + f + g + h == (a + b + c + d) + e + (f + g + h),
        a + b + c + d + e + f + g + h == (a + b + c + d + e) + f + (g + h),
{
    let words = a + b + c + d + e + f + g + h;
    assert(words =~= a + (b + c + d + e + f + g + h));
    assert(words =~= (a + b) + c + (d + e + f + g + h));
    assert(words =~= (a + b + c) + d + (e + f + g + h));
    assert(words =~= (a + b + c + d) + e + (f + g + h));
    assert(words =~= (a + b + c + d + e) + f + (g + h));
}

/// What the compiler is told of a unit and of its dependencies is in the invocation,
/// with the flags that a user gives. Warnings of packages that are not local are
/// capped, and all warnings where none are shown.
pub proof fn law_invocations_hold_every_part(
    facts: RustcFacts,
    name: Seq<char>,
    value: Seq<u8>,
    at: int,
)
    ensures
        ({
            let words = rustc_words(facts);
            &&& tells(base_words(facts.base), name, value) ==> tells(words, name, value)
            &&& tells(facts.dependencies.words(), name, value) ==> tells(words, name, value)
            &&& !facts.base.show_warnings ==> says(words, "--cap-lints"@, "allow"@)
            &&& facts.base.show_warnings && !facts.is_local ==> says(
                words,
                "--cap-lints"@,
                "warn"@,
            )
            &&& 0 <= at < facts.rustflags@.len() ==> words.contains(utf8(facts.rustflags@[at]@))
            &&& facts.extra_args matches Some(list) ==> (0 <= at < list@.len() ==> words.contains(
                utf8(list@[at]@),
            ))
            &&& facts.binary_dep_depinfo ==> says(words, "-Z"@, "binary-dep-depinfo"@)
            &&& facts.checksum_freshness ==> says(
                words,
                "-Z"@,
                "checksum-hash-algorithm=blake3"@,
            )
        }),
{
    let a = base_words(facts.base);
    let b = embedded_words(facts.is_embedded);
    let c = facts.dependencies.words();
    let d = cap_lints_words(facts.base.show_warnings, facts.is_local);
    let e = extra_words(facts.extra_args);
    let f = text_words(facts.rustflags@);
    let g = freshness_words(facts);
    let h = lint_words(facts.base.output.cargo_lints);
    let words = rustc_words(facts);
    assert(words == a + b + c + d + e + f + g + h);
    lemma_regrouped_words(a, b, c, d, e, f, g, h);
    if tells(a, name, value) {
        lemma_tells(Seq::empty(), a, b + c + d + e + f + g + h, name, value);
    }
    if tells(c, name, value) {
        lemma_tells(a + b, c, d + e + f + g + h, name, value);
    }
    if !facts.base.show_warnings {
        lemma_tells_flag("--cap-lints"@, utf8("allow"@));
        lemma_tells(a + b + c, d, e + f + g + h, "--cap-lints"@, utf8("allow"@));
    } else if !facts.is_local {
        lemma_tells_flag("--cap-lints"@, utf8("warn"@));
        lemma_tells(a + b + c, d, e + f + g + h, "--cap-lints"@, utf8("warn"@));
    }
    if 0 <= at < facts.rustflags@.len() {
        lemma_text_words(facts.rustflags@, at);
        lemma_holds(a + b + c + d + e, f, g + h, utf8(facts.rustflags@[at]@));
    }
    if let Some(list) = facts.extra_args {
        if 0 <= at < list@.len() {
            lemma_text_words(list@, at);
            lemma_holds(a + b + c + d, e, f + g + h, utf8(list@[at]@));
        }
    }
    lemma_freshness_told(facts, a + b + c + d + e + f, h);
}

/// How freshness is found out is told.
proof fn lemma_freshness_told(facts: RustcFacts, front: Words, back: Words)
    ensures
        facts.binary_dep_depinfo ==> says(
            front + freshness_words(facts) + back,
            "-Z"@,
            "binary-dep-depinfo"@,
        ),
        facts.checksum_freshness ==> says(
            front + freshness_words(facts) + back,
            "-Z"@,
            "checksum-hash-algorithm=blake3"@,
        ),
{
    let words = freshness_words(facts);
    let dependencies = utf8("binary-dep-depinfo"@);
    let checksum = utf8("checksum-hash-algorithm=blake3"@);
    if facts.binary_dep_depinfo {
        assert(pair_at(words, "-Z"@, dependencies, 0));
        lemma_tells(front, words, back, "-Z"@, dependencies);
    }
    if facts.checksum_freshness {
        if facts.binary_dep_depinfo {
            assert(pair_at(words, "-Z"@, checksum, 2));
        } else {
            assert(pair_at(words, "-Z"@, checksum, 0));
        }
        lemma_tells(front, words, back, "-Z"@, checksum);
    }
}

/// What is configured never changes what is set already: a variable that is set
/// keeps its value. One that is not set gets the value that is configured first.
pub proof fn law_configuration_does_not_override(
    list: Settings,
    configured: Seq<ScriptVariable>,
    name: Seq<char>,
    first: int,
)
    requires
        ordered(list),
    ensures
        ordered(with_configured(list, configured)),
        explicit_setting(list, name) is Some ==> explicit_setting(
            with_configured(list, configured),
            name,
        ) == explicit_setting(list, name),
        explicit_setting(list, name) is None && 0 <= first < configured.len()
            && configured[first].name@ == name && (forall|k: int|
            0 <= k < first ==> (#[trigger] configured[k]).name@ != name) ==> explicit_setting(
            with_configured(list, configured),
            name,
        ) == Some(Some(utf8(configured[first].value@))),
        explicit_setting(list, name) is None && (forall|k: int|
            0 <= k < configured.len() ==> (#[trigger] configured[k]).name@ != name)
            ==> explicit_setting(with_configured(list, configured), name) is None,
    decreases configured.len(),
{
    if configured.len() > 0 {
        let front = configured.drop_last();
        let last = configured.last();
        assert(last == configured[configured.len() - 1]);
        assert forall|k: int| 0 <= k < front.len() implies #[trigger] front[k] == configured[k] by {}
        law_configuration_does_not_override(list, front, name, first);
        let before = with_configured(list, front);
        law_settings_take_effect(before, last.name@, Some(utf8(last.value@)), name);
        lemma_with_setting_ordered(before, last.name@, Some(utf8(last.value@)));
        if explicit_setting(list, name) is None && 0 <= first < configured.len()
            && configured[first].name@ == name && (forall|k: int|
            0 <= k < first ==> (#[trigger] configured[k]).name@ != name) {
            assert forall|k: int| 0 <= k < first implies (#[trigger] front[k]).name@ != name by {
                assert(front[k] == configured[k]);
            }
        }
        if explicit_setting(list, name) is None && (forall|k: int|
            0 <= k < configured.len() ==> (#[trigger] configured[k]).name@ != name) {
            assert forall|k: int| 0 <= k < front.len() implies (#[trigger] front[k]).name@
                != name by {
                assert(front[k] == configured[k]);
            }
        }
    }
}

} // verus!
