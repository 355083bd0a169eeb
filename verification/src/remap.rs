//! Rules that keep local paths out of outputs.

use vstd::prelude::*;
use vstd::string::*;
use vstd::utf8::*;

use crate::arguments::lemma_no_words;
use crate::arguments::no_words;
use crate::arguments::push_raw_word;
use crate::arguments::push_word;
use crate::arguments::two_texts;
use crate::arguments::word;
use crate::arguments::Words;
use crate::bytes::copy_bytes;
use crate::bytes::optional_text;
use crate::bytes::push_bytes;
use crate::bytes::push_text;
use crate::bytes::utf8;
use crate::snapshot_paths::lemma_utf8_concat;
use crate::unix_path::byte_strings;
use crate::unix_path::components;
use crate::unix_path::join_path;
use crate::unix_path::joined;
use crate::unix_path::path_has_prefix;
use crate::unix_path::path_starts_with;

verus! {

/// Where a package comes from.
#[derive(Clone, Copy, Debug, PartialEq, Eq, Structural)]
pub enum PackageSource {
    Git,
    Registry,
    Other,
}

/// What the rules depend on.
pub struct RemapFacts {
    pub source: PackageSource,
    pub package_root: Vec<u8>,
    pub package_name: String,
    pub package_version: String,
    pub workspace_root: Vec<u8>,
    pub git_checkouts: Vec<u8>,
    pub registry_sources: Vec<u8>,
    pub build_dir: Vec<u8>,
    pub sysroot: Vec<u8>,
    pub commit_hash: Option<String>,
    pub rustc_version: String,
}

/// The start of a rule.
pub open spec fn remap_flag() -> Seq<u8> {
    utf8("--remap-path-prefix="@)
}

/// The sources of the standard library below a sysroot.
pub open spec fn sysroot_sources(sysroot: Seq<u8>) -> Seq<u8> {
    joined(
        joined(joined(joined(sysroot, utf8("lib"@)), utf8("rustlib"@)), utf8("src"@)),
        utf8("rust"@),
    )
}

/// The rule for the standard library: its sources are named by the commit of
/// the compiler, or by its version where the commit is not known.
pub open spec fn sysroot_rule(facts: RemapFacts) -> Seq<u8> {
    remap_flag() + sysroot_sources(facts.sysroot@) + utf8("="@) + utf8("/rustc/"@) + match optional_text(
        facts.commit_hash,
    ) {
        Some(hash) => utf8(hash),
        None => utf8(facts.rustc_version@),
    }
}

/// The rule for the standard library.
pub fn sysroot_remap(facts: &RemapFacts) -> (rule: Vec<u8>)
    ensures
        rule@ == sysroot_rule(*facts),
{
    let mut rule = copy_bytes("--remap-path-prefix=".as_bytes());
    let lib = join_path(facts.sysroot.as_slice(), "lib".as_bytes());
    let rustlib = join_path(lib.as_slice(), "rustlib".as_bytes());
    let src = join_path(rustlib.as_slice(), "src".as_bytes());
    let rust = join_path(src.as_slice(), "rust".as_bytes());
    push_bytes(&mut rule, rust.as_slice());
    push_text(&mut rule, "=");
    push_text(&mut rule, "/rustc/");
    match &facts.commit_hash {
        Some(hash) => push_bytes(&mut rule, hash.as_str().as_bytes()),
        None => push_bytes(&mut rule, facts.rustc_version.as_str().as_bytes()),
    }
    rule
}

/// The rule for the sources of a package: nothing is left of where checkouts and
/// registry sources are, what is in the workspace is relative to it, and another
/// package is named by its name and version.
pub open spec fn package_rule(facts: RemapFacts) -> Seq<u8> {
    if facts.source == PackageSource::Git {
        remap_flag() + facts.git_checkouts@ + utf8("="@)
    } else if facts.source == PackageSource::Registry {
        remap_flag() + facts.registry_sources@ + utf8("="@)
    } else if path_starts_with(facts.package_root@, facts.workspace_root@) {
        remap_flag() + facts.workspace_root@ + utf8("=."@)
    } else {
        remap_flag() + facts.package_root@ + utf8("="@) + utf8(facts.package_name@) + utf8("-"@)
            + utf8(facts.package_version@)
    }
}

/// The rule for the sources of a package.
pub fn package_remap(facts: &RemapFacts) -> (rule: Vec<u8>)
    ensures
        rule@ == package_rule(*facts),
{
    let mut rule = copy_bytes("--remap-path-prefix=".as_bytes());
    match facts.source {
        PackageSource::Git => {
            push_bytes(&mut rule, facts.git_checkouts.as_slice());
            push_text(&mut rule, "=");
        },
        PackageSource::Registry => {
            push_bytes(&mut rule, facts.registry_sources.as_slice());
            push_text(&mut rule, "=");
        },
        PackageSource::Other => {
            if path_has_prefix(facts.package_root.as_slice(), facts.workspace_root.as_slice()) {
                push_bytes(&mut rule, facts.workspace_root.as_slice());
                push_text(&mut rule, "=.");
            } else {
                push_bytes(&mut rule, facts.package_root.as_slice());
                push_text(&mut rule, "=");
                push_bytes(&mut rule, facts.package_name.as_str().as_bytes());
                push_text(&mut rule, "-");
                push_bytes(&mut rule, facts.package_version.as_str().as_bytes());
            }
        },
    }
    rule
}

/// The rule for the build directory.
pub open spec fn build_dir_rule(facts: RemapFacts) -> Seq<u8> {
    remap_flag() + facts.build_dir@ + utf8("=/cargo/build-dir"@)
}

/// The rule for the build directory.
pub fn build_dir_remap(facts: &RemapFacts) -> (rule: Vec<u8>)
    ensures
        rule@ == build_dir_rule(*facts),
{
    let mut rule = copy_bytes("--remap-path-prefix=".as_bytes());
    push_bytes(&mut rule, facts.build_dir.as_slice());
    push_text(&mut rule, "=/cargo/build-dir");
    rule
}

/// Where paths are trimmed.
#[derive(Clone, Copy, Debug, PartialEq, Eq, Structural)]
pub enum TrimPathsValue {
    Diagnostics,
    Macro,
    Object,
}

/// Where paths are trimmed.
pub enum TrimPaths {
    Values(Vec<TrimPathsValue>),
    All,
}

impl TrimPathsValue {
    /// The name of the place.
    pub open spec fn name(self) -> Seq<char> {
        match self {
            TrimPathsValue::Diagnostics => "diagnostics"@,
            TrimPathsValue::Macro => "macro"@,
            TrimPathsValue::Object => "object"@,
        }
    }

    /// The name of the place.
    pub fn as_str(self) -> (name: &'static str)
        ensures
            name@ == self.name(),
    {
        match self {
            TrimPathsValue::Diagnostics => "diagnostics",
            TrimPathsValue::Macro => "macro",
            TrimPathsValue::Object => "object",
        }
    }
}

/// The names of places, with commas between them.
pub open spec fn scope_names(values: Seq<TrimPathsValue>) -> Seq<char>
    decreases values.len(),
{
    if values.len() == 0 {
        Seq::empty()
    } else if values.len() == 1 {
        values[0].name()
    } else {
        scope_names(values.drop_last()) + ","@ + values.last().name()
    }
}

/// The scope of the rules as an argument names it.
pub open spec fn scope_text(trim_paths: TrimPaths) -> Seq<char> {
    match trim_paths {
        TrimPaths::All => "all"@,
        TrimPaths::Values(values) => scope_names(values@),
    }
}

/// The scope of the rules as an argument names it, where there is one.
fn render_scope(trim_paths: &TrimPaths) -> (text: String)
    ensures
        text@ == scope_text(*trim_paths),
{
    match trim_paths {
        TrimPaths::All => "all".to_owned(),
        TrimPaths::Values(values) => {
            let mut text = String::new();
            let mut index: usize = 0;
            proof {
                assert(values@.take(0) =~= Seq::empty());
                assert(text@ =~= scope_names(values@.take(0)));
            }
            while index < values.len()
                invariant
                    index <= values@.len(),
                    text@ == scope_names(values@.take(index as int)),
                decreases values@.len() - index,
            {
                let ghost before = text@;
                proof {
                    assert(values@.take(index + 1).drop_last() =~= values@.take(index as int));
                    assert(values@.take(index + 1).last() == values@[index as int]);
                    assert(values@.take(index + 1)[0] == values@[0]);
                }
                if index > 0 {
                    text.append(",");
                }
                text.append(values[index].as_str());
                proof {
                    if index == 0 {
                        assert(before =~= Seq::<char>::empty());
                    }
                    assert(text@ =~= scope_names(values@.take(index + 1)));
                }
                index = index + 1;
            }
            proof {
                assert(values@.take(index as int) =~= values@);
            }
            text
        },
    }
}

/// Whether nothing is trimmed.
pub open spec fn trims_nothing(trim_paths: TrimPaths) -> bool {
    trim_paths is Values && trim_paths->Values_0@.len() == 0
}

/// The rules, those that are more general last.
pub open spec fn remap_rules(facts: RemapFacts) -> Words {
    seq![package_rule(facts), build_dir_rule(facts), sysroot_rule(facts)]
}

/// Adds the rules.
fn push_rules(out: &mut Vec<Vec<u8>>, facts: &RemapFacts)
    ensures
        byte_strings(final(out)@) == byte_strings(old(out)@) + remap_rules(*facts),
{
    let ghost before = byte_strings(out@);
    let package = package_remap(facts);
    let build_dir = build_dir_remap(facts);
    let sysroot = sysroot_remap(facts);
    push_raw_word(out, package.as_slice());
    push_raw_word(out, build_dir.as_slice());
    push_raw_word(out, sysroot.as_slice());
    proof {
        assert(byte_strings(out@) =~= before + remap_rules(*facts));
    }
}

/// The arguments that trim paths in a compiler's outputs.
pub open spec fn trim_paths_words(facts: RemapFacts, trim_paths: TrimPaths) -> Words {
    if trims_nothing(trim_paths) {
        no_words()
    } else {
        word("--remap-path-scope="@ + scope_text(trim_paths)) + remap_rules(facts)
    }
}

/// Adds the arguments that trim paths in a compiler's outputs.
pub fn trim_paths_args(out: &mut Vec<Vec<u8>>, facts: &RemapFacts, trim_paths: &TrimPaths)
    ensures
        byte_strings(final(out)@) == byte_strings(old(out)@) + trim_paths_words(
            *facts,
            *trim_paths,
        ),
{
    let ghost before = byte_strings(out@);
    let nothing = match trim_paths {
        TrimPaths::All => false,
        TrimPaths::Values(values) => values.len() == 0,
    };
    if nothing {
        proof {
            lemma_no_words(before);
        }
        return;
    }
    let scope = render_scope(trim_paths);
    let argument = two_texts("--remap-path-scope=", scope.as_str());
    push_word(out, argument.as_str());
    push_rules(out, facts);
    proof {
        assert(byte_strings(out@) =~= before + trim_paths_words(*facts, *trim_paths));
    }
}

/// Whether diagnostics are trimmed.
pub open spec fn trims_diagnostics(trim_paths: TrimPaths) -> bool {
    match trim_paths {
        TrimPaths::All => true,
        TrimPaths::Values(values) => values@.contains(TrimPathsValue::Diagnostics),
    }
}

/// The arguments that trim paths in documentation, where only diagnostics can
/// be trimmed.
pub open spec fn trim_paths_rustdoc_words(facts: RemapFacts, trim_paths: TrimPaths) -> Words {
    if trims_diagnostics(trim_paths) {
        word("-Zunstable-options"@) + remap_rules(facts)
    } else {
        no_words()
    }
}

/// Adds the arguments that trim paths in documentation.
pub fn trim_paths_args_rustdoc(out: &mut Vec<Vec<u8>>, facts: &RemapFacts, trim_paths: &TrimPaths)
    ensures
        byte_strings(final(out)@) == byte_strings(old(out)@) + trim_paths_rustdoc_words(
            *facts,
            *trim_paths,
        ),
{
    let ghost before = byte_strings(out@);
    let wanted = match trim_paths {
        TrimPaths::All => true,
        TrimPaths::Values(values) => {
            let mut found = false;
            let mut index: usize = 0;
            while index < values.len()
                invariant
                    index <= values@.len(),
                    found == values@.take(index as int).contains(TrimPathsValue::Diagnostics),
                decreases values@.len() - index,
            {
                proof {
                    crate::recorder::lemma_contains_push(
                        values@.take(index as int),
                        values@[index as int],
                        TrimPathsValue::Diagnostics,
                    );
                    assert(values@.take(index + 1) =~= values@.take(index as int).push(
                        values@[index as int],
                    ));
                }
                if values[index] == TrimPathsValue::Diagnostics {
                    found = true;
                }
                index = index + 1;
            }
            proof {
                assert(values@.take(index as int) =~= values@);
            }
            found
        },
    };
    if !wanted {
        proof {
            lemma_no_words(before);
        }
        return;
    }
    push_word(out, "-Zunstable-options");
    push_rules(out, facts);
    proof {
        assert(byte_strings(out@) =~= before + trim_paths_rustdoc_words(*facts, *trim_paths));
    }
}

/// Whether a rule has paths below `from` written as paths below `to`.
pub open spec fn is_rule(rule: Seq<u8>, from: Seq<u8>, to: Seq<u8>) -> bool {
    rule == utf8("--remap-path-prefix="@) + from + utf8("="@) + to
}

/// Where paths are trimmed, the compiler gets the scope and three rules: one that
/// covers the package, one for the build directory, and one for the sources of the
/// standard library. The first takes the checkouts of all packages from Git, or the
/// sources of all from a registry; for other packages it takes the workspace, or the
/// package where that stands outside of it.
pub proof fn law_trimmed_paths_are_covered(facts: RemapFacts, trim_paths: TrimPaths)
    ensures
        ({
            let words = trim_paths_words(facts, trim_paths);
            let empty = trim_paths matches TrimPaths::Values(values) && values@.len() == 0;
            &&& empty ==> words.len() == 0
            &&& !empty ==> {
                &&& words.len() == 4
                &&& trim_paths is All ==> words[0] == utf8("--remap-path-scope=all"@)
                &&& facts.source == PackageSource::Git ==> is_rule(
                    words[1],
                    facts.git_checkouts@,
                    Seq::empty(),
                )
                &&& facts.source == PackageSource::Registry ==> is_rule(
                    words[1],
                    facts.registry_sources@,
                    Seq::empty(),
                )
                &&& facts.source == PackageSource::Other && components(
                    facts.workspace_root@,
                ).is_prefix_of(components(facts.package_root@)) ==> is_rule(
                    words[1],
                    facts.workspace_root@,
                    utf8("."@),
                )
                &&& facts.source == PackageSource::Other && !components(
                    facts.workspace_root@,
                ).is_prefix_of(components(facts.package_root@)) ==> is_rule(
                    words[1],
                    facts.package_root@,
                    utf8(facts.package_name@) + utf8("-"@) + utf8(facts.package_version@),
                )
                &&& is_rule(words[2], facts.build_dir@, utf8("/cargo/build-dir"@))
                &&& facts.commit_hash matches Some(hash) ==> is_rule(
                    words[3],
                    sysroot_sources(facts.sysroot@),
                    utf8("/rustc/"@) + utf8(hash@),
                )
                &&& facts.commit_hash is None ==> is_rule(
                    words[3],
                    sysroot_sources(facts.sysroot@),
                    utf8("/rustc/"@) + utf8(facts.rustc_version@),
                )
            }
        }),
{
    reveal_strlit("=");
    reveal_strlit(".");
    reveal_strlit("=.");
    reveal_strlit("/cargo/build-dir");
    reveal_strlit("=/cargo/build-dir");
    reveal_strlit("all");
    reveal_strlit("--remap-path-scope=");
    reveal_strlit("--remap-path-scope=all");
    assert("=."@ =~= "="@ + "."@);
    assert("=/cargo/build-dir"@ =~= "="@ + "/cargo/build-dir"@);
    assert("--remap-path-scope=all"@ =~= "--remap-path-scope="@ + "all"@);
    lemma_utf8_concat("="@, "."@);
    lemma_utf8_concat("="@, "/cargo/build-dir"@);
    let head = utf8("--remap-path-prefix="@);
    let equals = utf8("="@);
    let nothing = Seq::<u8>::empty();
    assert(head + facts.git_checkouts@ + equals + nothing =~= head + facts.git_checkouts@ + equals);
    assert(head + facts.registry_sources@ + equals + nothing =~= head + facts.registry_sources@
        + equals);
    assert(head + facts.workspace_root@ + equals + utf8("."@) =~= head + facts.workspace_root@
        + utf8("=."@));
    assert(head + facts.package_root@ + equals + (utf8(facts.package_name@) + utf8("-"@) + utf8(
        facts.package_version@,
    )) =~= head + facts.package_root@ + equals + utf8(facts.package_name@) + utf8("-"@) + utf8(
        facts.package_version@,
    ));
    assert(head + facts.build_dir@ + equals + utf8("/cargo/build-dir"@) =~= head + facts.build_dir@
        + utf8("=/cargo/build-dir"@));
    let version = match facts.commit_hash {
        Some(hash) => utf8(hash@),
        None => utf8(facts.rustc_version@),
    };
    let sources = sysroot_sources(facts.sysroot@);
    assert(head + sources + equals + (utf8("/rustc/"@) + version) =~= head + sources + equals
        + utf8("/rustc/"@) + version);
}

/// The places where paths are trimmed are named one behind the other, with a comma
/// between them.
pub proof fn law_scopes_are_listed(values: Seq<TrimPathsValue>, more: TrimPathsValue)
    ensures
        scope_names(values.push(more)) == if values.len() == 0 {
            Seq::empty()
        } else {
            scope_names(values) + ","@
        } + match more {
            TrimPathsValue::Diagnostics => "diagnostics"@,
            TrimPathsValue::Macro => "macro"@,
            TrimPathsValue::Object => "object"@,
        },
{
    let all = values.push(more);
    assert(all.drop_last() =~= values);
    assert(all.last() == more);
    if values.len() == 0 {
        assert(all[0] == more);
        assert(Seq::<char>::empty() + more.name() =~= more.name());
    }
}

} // verus!
