//! Which invocations the cache may stand in for: what holds of every one that is
//! admitted, and which differences between two do not matter.

use vstd::prelude::*;
use vstd::string::*;
use vstd::utf8::*;

use crate::admission::action_target;
use crate::admission::argument_disqualifies;
use crate::admission::compact_operands;
use crate::admission::dashed;
use crate::admission::ends_like_dynamic_library;
use crate::admission::has_dynamic_dependency;
use crate::admission::is_backend_setting;
use crate::admission::is_cacheable;
use crate::admission::is_modeled_unstable;
use crate::admission::is_unmodeled_codegen;
use crate::admission::nothing_disqualifies;
use crate::admission::operands;
use crate::admission::option_name;
use crate::admission::option_value;
use crate::admission::pair_disqualifies;
use crate::admission::requests_plain_library;
use crate::admission::search_directory;
use crate::admission::sees_backend_variable;
use crate::admission::unmodeled_variables;
use crate::bytes::utf8;
use crate::command::all_text;
use crate::command::explicit_setting;
use crate::command::lossy_list;
use crate::command::Command;
use crate::text::after_prefix;
use crate::text::first_at;
use crate::text::lemma_first_at;
use crate::text::lemma_first_at_unique;
use crate::text::stands_at;
use crate::text::stands_in;
use crate::unix_path::components;
use crate::unix_path::parent_or_self;
use crate::unix_path::path_starts_with;

verus! {

/// The arguments that give a codegen option: one, or the flag and the option.
pub open spec fn codegen_arguments(option: Seq<char>, compact: bool) -> Seq<Seq<char>> {
    if compact {
        seq!["-C"@ + option]
    } else {
        seq!["-C"@, option]
    }
}

/// Arguments with a codegen option among them.
pub open spec fn with_codegen(
    before: Seq<Seq<char>>,
    option: Seq<char>,
    compact: bool,
    after: Seq<Seq<char>>,
) -> Seq<Seq<char>> {
    before + codegen_arguments(option, compact) + after
}

/// Whether a text can be a codegen option: it starts with a letter.
pub open spec fn is_codegen_option(option: Seq<char>) -> bool {
    option.len() > 0 && 'a' <= option[0] <= 'z'
}

/// Whether a flag says something of the argument behind it.
pub open spec fn takes_operand(flag: Seq<char>) -> bool {
    ||| flag == "--crate-type"@
    ||| flag == "--out-dir"@
    ||| flag == "--target"@
    ||| flag == "--emit"@
    ||| flag == "--sysroot"@
    ||| flag == "--extern"@
    ||| flag == "-C"@
    ||| flag == "-L"@
    ||| flag == "-Z"@
}

/// Whether arguments end with one that says nothing of what comes behind.
pub open spec fn ends_complete(arguments: Seq<Seq<char>>) -> bool {
    arguments.len() == 0 || !takes_operand(arguments.last())
}

/// Whether two options are one but for dashes and underscores in its name.
pub open spec fn spelled_alike(left: Seq<char>, right: Seq<char>) -> bool {
    dashed(option_name(left)) == dashed(option_name(right)) && option_value(left) == option_value(
        right,
    )
}

/// Whether two options are the same but for dashes and underscores before the
/// first equals sign.
pub open spec fn differ_in_dashes(left: Seq<char>, right: Seq<char>) -> bool {
    left.len() == right.len() && forall|i: int|
        0 <= i < left.len() ==> (#[trigger] left[i]) == right[i] || (is_dash(left[i]) && is_dash(
            right[i],
        ) && !left.take(i).contains('='))
}

/// Whether a character is a dash or an underscore.
pub open spec fn is_dash(character: char) -> bool {
    character == '-' || character == '_'
}

/// Options that differ in dashes only are spelled alike.
proof fn lemma_differ_in_dashes(left: Seq<char>, right: Seq<char>)
    requires
        differ_in_dashes(left, right),
    ensures
        spelled_alike(left, right),
{
    lemma_first_at(left, '=');
    let at = first_at(left, '=');
    assert forall|k: int| 0 <= k < at implies right[k] != '=' by {
        assert(left[k] == right[k] || is_dash(right[k]));
    }
    if at < left.len() {
        assert(left[at] == right[at]);
    }
    lemma_first_at_unique(right, '=', at);
    assert(dashed(option_name(left)) =~= dashed(option_name(right))) by {
        assert forall|k: int| 0 <= k < at implies dashed(left.take(at))[k] == dashed(
            right.take(at),
        )[k] by {
            assert(left[k] == right[k] || is_dash(left[k]));
        }
        if at == left.len() {
            assert(left.take(at) =~= left);
            assert(right.take(at) =~= right);
        }
    }
    if at < left.len() {
        assert forall|k: int| at < k < left.len() implies left[k] == right[k] by {
            assert(left.take(k)[at] == '=');
            assert(left.take(k).contains('='));
            assert(left[k] == right[k] || !left.take(k).contains('='));
        }
        assert(left.skip(at + 1) =~= right.skip(at + 1));
    }
}

/// Whether an option hands an argument to the linker.
pub open spec fn is_link_argument(option: Seq<char>) -> bool {
    option_value(option) is Some && (dashed(option_name(option)) == "link-arg"@ || dashed(
        option_name(option),
    ) == "link-args"@)
}

/// Whether the name of an option only begins with that of `save-temps`.
pub open spec fn extends_save_temps(option: Seq<char>) -> bool {
    let name = dashed(option_name(option));
    "save-temps"@.is_prefix_of(name) && name != "save-temps"@
}

/// Whether an option is refused as a linker argument: only with dashes.
spec fn links(option: Seq<char>) -> bool {
    "link-arg="@.is_prefix_of(option) || "link-args="@.is_prefix_of(option)
}

/// The name of an option whose text begins with a name and an equals sign.
proof fn lemma_named(option: Seq<char>, name: Seq<char>, start: Seq<char>)
    requires
        start == name + "="@,
        start.is_prefix_of(option),
        !name.contains('='),
    ensures
        option_name(option) == name,
        option_value(option) is Some,
{
    reveal_strlit("=");
    let at = name.len() as int;
    assert(option.subrange(0, start.len() as int) == start);
    assert forall|k: int| 0 <= k < at implies option[k] != '=' by {
        assert(option.subrange(0, start.len() as int)[k] == name[k]);
        assert(name.contains(name[k]));
    }
    assert(option.subrange(0, start.len() as int)[at] == '=');
    assert(option[at] == '=');
    lemma_first_at_unique(option, '=', at);
    assert(option.take(at) =~= name) by {
        assert forall|k: int| 0 <= k < at implies option[k] == name[k] by {
            assert(option.subrange(0, start.len() as int)[k] == name[k]);
        }
    }
}

/// A text does not begin with one that has another character at `at`.
proof fn lemma_no_prefix(start: Seq<char>, text: Seq<char>, at: int)
    requires
        0 <= at < start.len(),
        at >= text.len() || start[at] != text[at],
    ensures
        !start.is_prefix_of(text),
{
    if start.is_prefix_of(text) {
        assert(text.subrange(0, start.len() as int)[at] == text[at]);
    }
}

/// A text begins with another one where it does so behind a common start.
proof fn lemma_prefix_behind(common: Seq<char>, start: Seq<char>, text: Seq<char>)
    ensures
        (common + start).is_prefix_of(common + text) == start.is_prefix_of(text),
{
    let n = common.len() as int;
    let m = start.len() as int;
    if m <= text.len() {
        assert((common + text).subrange(0, n + m) =~= common + text.subrange(0, m));
        if common + start == common + text.subrange(0, m) {
            assert(start =~= (common + start).skip(n));
            assert(text.subrange(0, m) =~= (common + text.subrange(0, m)).skip(n));
        }
    }
}

/// An option that begins like `save-temps` is that, or one with a longer name.
proof fn lemma_save_temps(option: Seq<char>)
    ensures
        option == "save-temps"@ ==> is_unmodeled_codegen(option),
        "save-temps="@.is_prefix_of(option) ==> is_unmodeled_codegen(option),
        "save-temps"@.is_prefix_of(option) ==> is_unmodeled_codegen(option) || extends_save_temps(
            option,
        ),
{
    reveal_strlit("save-temps");
    reveal_strlit("save-temps=");
    reveal_strlit("=");
    let name = "save-temps"@;
    assert(dashed(name) =~= name);
    assert forall|k: int| 0 <= k < name.len() implies name[k] != '=' by {}
    assert("save-temps="@ =~= name + "="@);
    if option == name {
        lemma_first_at_unique(option, '=', name.len() as int);
    }
    if "save-temps="@.is_prefix_of(option) {
        lemma_named(option, name, "save-temps="@);
    }
    if name.is_prefix_of(option) {
        assert forall|k: int| 0 <= k < name.len() implies option[k] == name[k] by {
            assert(option.subrange(0, name.len() as int)[k] == option[k]);
        }
        lemma_first_at(option, '=');
        let at = first_at(option, '=');
        if at < name.len() {
            assert(option[at] == name[at]);
        }
        let found = dashed(option_name(option));
        assert(found.len() >= name.len());
        assert(name =~= found.subrange(0, name.len() as int));
    }
}

/// An option that is refused as a linker argument is one.
proof fn lemma_links(option: Seq<char>)
    ensures
        links(option) ==> is_link_argument(option),
{
    reveal_strlit("link-arg");
    reveal_strlit("link-arg=");
    reveal_strlit("link-args");
    reveal_strlit("link-args=");
    reveal_strlit("=");
    assert("link-arg="@ =~= "link-arg"@ + "="@);
    assert("link-args="@ =~= "link-args"@ + "="@);
    assert(dashed("link-arg"@) =~= "link-arg"@);
    assert(dashed("link-args"@) =~= "link-args"@);
    if "link-arg="@.is_prefix_of(option) {
        lemma_named(option, "link-arg"@, "link-arg="@);
    }
    if "link-args="@.is_prefix_of(option) {
        lemma_named(option, "link-args"@, "link-args="@);
    }
}

/// What keeps an option out that stands with its flag in one argument.
proof fn lemma_compact_verdict(option: Seq<char>)
    requires
        is_codegen_option(option),
    ensures
        argument_disqualifies("-C"@ + option) == (is_unmodeled_codegen(option) || links(option)),
{
    reveal_strlit("--crate-type=");
    reveal_strlit("--out-dir=");
    reveal_strlit("--print=");
    reveal_strlit("--pretty=");
    reveal_strlit("--unpretty=");
    reveal_strlit("--target=");
    reveal_strlit("--sysroot=");
    reveal_strlit("-Zunpretty=");
    reveal_strlit("-o");
    reveal_strlit("@");
    reveal_strlit("-l");
    reveal_strlit("-L");
    reveal_strlit("--extern=");
    reveal_strlit("-Z");
    reveal_strlit("--print");
    reveal_strlit("--pretty");
    reveal_strlit("--unpretty");
    reveal_strlit("--test");
    reveal_strlit("-C");
    reveal_strlit("link-arg=");
    reveal_strlit("link-args=");
    reveal_strlit("-Clink-arg=");
    reveal_strlit("-Clink-args=");
    reveal_strlit("save-temps");
    reveal_strlit("save-temps=");
    reveal_strlit("-Csave-temps");
    reveal_strlit("-Csave-temps=");
    let text = "-C"@ + option;
    assert(text[0] == '-' && text[1] == 'C');
    lemma_no_prefix("--crate-type="@, text, 1);
    lemma_no_prefix("--out-dir="@, text, 1);
    lemma_no_prefix("--print="@, text, 1);
    lemma_no_prefix("--pretty="@, text, 1);
    lemma_no_prefix("--unpretty="@, text, 1);
    lemma_no_prefix("--target="@, text, 1);
    lemma_no_prefix("--sysroot="@, text, 1);
    lemma_no_prefix("-Zunpretty="@, text, 1);
    lemma_no_prefix("-o"@, text, 1);
    lemma_no_prefix("@"@, text, 0);
    lemma_no_prefix("-l"@, text, 1);
    lemma_no_prefix("-L"@, text, 1);
    lemma_no_prefix("--extern="@, text, 1);
    lemma_no_prefix("-Z"@, text, 1);
    lemma_no_prefix("link-arg="@, text, 0);
    lemma_no_prefix("link-args="@, text, 0);
    assert("-Clink-arg="@ =~= "-C"@ + "link-arg="@);
    assert("-Clink-args="@ =~= "-C"@ + "link-args="@);
    assert("-Csave-temps"@ =~= "-C"@ + "save-temps"@);
    assert("-Csave-temps="@ =~= "-C"@ + "save-temps="@);
    lemma_prefix_behind("-C"@, "link-arg="@, option);
    lemma_prefix_behind("-C"@, "link-args="@, option);
    lemma_prefix_behind("-C"@, "save-temps="@, option);
    assert(text.skip(2) =~= option);
    assert("-C"@ =~= text.subrange(0, 2));
    assert(after_prefix(text, "-C"@) == Some(option));
    if text == "-Csave-temps"@ {
        assert(option =~= "-Csave-temps"@.skip(2));
        assert("save-temps"@ =~= "-Csave-temps"@.skip(2));
    }
    lemma_save_temps(option);
}

/// What keeps an option out that stands behind its flag.
proof fn lemma_split_verdict(option: Seq<char>)
    requires
        is_codegen_option(option),
    ensures
        argument_disqualifies(option) == links(option),
{
    reveal_strlit("--crate-type=");
    reveal_strlit("--out-dir=");
    reveal_strlit("--print=");
    reveal_strlit("--pretty=");
    reveal_strlit("--unpretty=");
    reveal_strlit("--target=");
    reveal_strlit("--sysroot=");
    reveal_strlit("-Zunpretty=");
    reveal_strlit("-o");
    reveal_strlit("@");
    reveal_strlit("-l");
    reveal_strlit("-L");
    reveal_strlit("--extern=");
    reveal_strlit("-Z");
    reveal_strlit("--print");
    reveal_strlit("--pretty");
    reveal_strlit("--unpretty");
    reveal_strlit("--test");
    reveal_strlit("-C");
    reveal_strlit("-Clink-arg=");
    reveal_strlit("-Clink-args=");
    reveal_strlit("-Csave-temps");
    reveal_strlit("-Csave-temps=");
    lemma_no_prefix("--crate-type="@, option, 0);
    lemma_no_prefix("--out-dir="@, option, 0);
    lemma_no_prefix("--print="@, option, 0);
    lemma_no_prefix("--pretty="@, option, 0);
    lemma_no_prefix("--unpretty="@, option, 0);
    lemma_no_prefix("--target="@, option, 0);
    lemma_no_prefix("--sysroot="@, option, 0);
    lemma_no_prefix("-Zunpretty="@, option, 0);
    lemma_no_prefix("-o"@, option, 0);
    lemma_no_prefix("@"@, option, 0);
    lemma_no_prefix("-l"@, option, 0);
    lemma_no_prefix("-L"@, option, 0);
    lemma_no_prefix("--extern="@, option, 0);
    lemma_no_prefix("-Z"@, option, 0);
    lemma_no_prefix("-C"@, option, 0);
    lemma_no_prefix("-Clink-arg="@, option, 0);
    lemma_no_prefix("-Clink-args="@, option, 0);
    lemma_no_prefix("-Csave-temps="@, option, 0);
}

/// The flag of codegen options keeps nothing out by itself.
proof fn lemma_flag_verdict()
    ensures
        !argument_disqualifies("-C"@),
{
    reveal_strlit("--crate-type=");
    reveal_strlit("--out-dir=");
    reveal_strlit("--print=");
    reveal_strlit("--pretty=");
    reveal_strlit("--unpretty=");
    reveal_strlit("--target=");
    reveal_strlit("--sysroot=");
    reveal_strlit("-Zunpretty=");
    reveal_strlit("-o");
    reveal_strlit("@");
    reveal_strlit("-l");
    reveal_strlit("-L");
    reveal_strlit("--extern=");
    reveal_strlit("-Z");
    reveal_strlit("--print");
    reveal_strlit("--pretty");
    reveal_strlit("--unpretty");
    reveal_strlit("--test");
    reveal_strlit("-C");
    reveal_strlit("link-arg=");
    reveal_strlit("link-args=");
    reveal_strlit("-Clink-arg=");
    reveal_strlit("-Clink-args=");
    reveal_strlit("-Csave-temps");
    reveal_strlit("-Csave-temps=");
    reveal_strlit("profile-use");
    reveal_strlit("profile-sample-use");
    reveal_strlit("llvm-args");
    reveal_strlit("save-temps");
    reveal_strlit("target-cpu");
    let text = "-C"@;
    lemma_no_prefix("--crate-type="@, text, 1);
    lemma_no_prefix("--out-dir="@, text, 1);
    lemma_no_prefix("--print="@, text, 1);
    lemma_no_prefix("--pretty="@, text, 1);
    lemma_no_prefix("--unpretty="@, text, 1);
    lemma_no_prefix("--target="@, text, 1);
    lemma_no_prefix("--sysroot="@, text, 1);
    lemma_no_prefix("-Zunpretty="@, text, 1);
    lemma_no_prefix("-o"@, text, 1);
    lemma_no_prefix("@"@, text, 0);
    lemma_no_prefix("-l"@, text, 1);
    lemma_no_prefix("-L"@, text, 1);
    lemma_no_prefix("--extern="@, text, 1);
    lemma_no_prefix("-Z"@, text, 1);
    lemma_no_prefix("link-arg="@, text, 0);
    lemma_no_prefix("link-args="@, text, 0);
    lemma_no_prefix("-Clink-arg="@, text, 2);
    lemma_no_prefix("-Clink-args="@, text, 2);
    lemma_no_prefix("-Csave-temps="@, text, 2);
    let rest = text.skip(2);
    assert(rest.len() == 0);
    assert(dashed(option_name(rest)).len() == 0);
}

/// Whether nothing keeps an invocation out beside a codegen option among its
/// arguments.
spec fn others_are_modeled(
    before: Seq<Seq<char>>,
    after: Seq<Seq<char>>,
    modeled_search_paths: Seq<Seq<u8>>,
    profile_root: Seq<u8>,
) -> bool {
    nothing_disqualifies(before, modeled_search_paths, profile_root) && nothing_disqualifies(
        after,
        modeled_search_paths,
        profile_root,
    )
}

/// A flag that says nothing of the argument behind it keeps nothing out with
/// it.
proof fn lemma_no_pair(
    flag: Seq<char>,
    operand: Seq<char>,
    modeled_search_paths: Seq<Seq<u8>>,
    profile_root: Seq<u8>,
)
    requires
        !takes_operand(flag),
    ensures
        !pair_disqualifies(flag, operand, modeled_search_paths, profile_root),
{
}

/// A codegen option is no flag that says something of the argument behind it.
proof fn lemma_options_are_no_flags(option: Seq<char>)
    requires
        is_codegen_option(option),
    ensures
        !takes_operand(option),
        !takes_operand("-C"@ + option),
{
    reveal_strlit("--crate-type");
    reveal_strlit("--out-dir");
    reveal_strlit("--target");
    reveal_strlit("--emit");
    reveal_strlit("--sysroot");
    reveal_strlit("--extern");
    reveal_strlit("-C");
    reveal_strlit("-L");
    reveal_strlit("-Z");
    assert(("-C"@ + option)[1] == 'C');
    assert(("-C"@ + option).len() > 2);
}

/// What keeps the arguments of a codegen option out.
spec fn option_is_modeled(
    option: Seq<char>,
    compact: bool,
    modeled_search_paths: Seq<Seq<u8>>,
    profile_root: Seq<u8>,
) -> bool {
    if compact {
        !argument_disqualifies("-C"@ + option)
    } else {
        !argument_disqualifies(option) && !pair_disqualifies(
            "-C"@,
            option,
            modeled_search_paths,
            profile_root,
        )
    }
}

/// An invocation is kept out by a codegen option or by the other arguments.
#[verifier::rlimit(30)]
proof fn lemma_nothing_disqualifies(
    before: Seq<Seq<char>>,
    option: Seq<char>,
    compact: bool,
    after: Seq<Seq<char>>,
    modeled: Seq<Seq<u8>>,
    profile: Seq<u8>,
)
    requires
        is_codegen_option(option),
        ends_complete(before),
    ensures
        nothing_disqualifies(with_codegen(before, option, compact, after), modeled, profile) == (
        others_are_modeled(before, after, modeled, profile) && option_is_modeled(
            option,
            compact,
            modeled,
            profile,
        )),
{
    let middle = codegen_arguments(option, compact);
    let all = with_codegen(before, option, compact, after);
    let m = before.len() as int;
    let n = m + middle.len();
    lemma_options_are_no_flags(option);
    lemma_flag_verdict();
    assert forall|i: int| 0 <= i < m implies all[i] == before[i] by {}
    assert forall|i: int| m <= i < n implies all[i] == middle[i - m] by {}
    assert forall|i: int| n <= i < all.len() implies all[i] == after[i - n] by {}
    if nothing_disqualifies(all, modeled, profile) {
        assert forall|i: int| 0 <= i < m implies !argument_disqualifies(#[trigger] before[i]) by {
            assert(all[i] == before[i]);
        }
        assert forall|i: int, j: int| 0 <= i < m && j == i + 1 && j < m implies !pair_disqualifies(
            #[trigger] before[i],
            #[trigger] before[j],
            modeled,
            profile,
        ) by {
            assert(all[i] == before[i] && all[j] == before[j]);
        }
        assert forall|i: int| 0 <= i < after.len() implies !argument_disqualifies(
            #[trigger] after[i],
        ) by {
            assert(all[i + n] == after[i]);
        }
        assert forall|i: int, j: int|
            0 <= i < after.len() && j == i + 1 && j < after.len() implies !pair_disqualifies(
            #[trigger] after[i],
            #[trigger] after[j],
            modeled,
            profile,
        ) by {
            assert(all[i + n] == after[i] && all[j + n] == after[j]);
        }
        assert(all[m] == middle[0]);
        if !compact {
            assert(all[m + 1] == middle[1]);
        }
        assert(option_is_modeled(option, compact, modeled, profile));
    }
    if others_are_modeled(before, after, modeled, profile) && option_is_modeled(
        option,
        compact,
        modeled,
        profile,
    ) {
        assert forall|i: int| 0 <= i < all.len() implies !argument_disqualifies(
            #[trigger] all[i],
        ) by {
            if i < m {
                assert(all[i] == before[i]);
            } else if i >= n {
                assert(all[i] == after[i - n]);
            } else {
                assert(all[i] == middle[i - m]);
            }
        }
        assert forall|i: int, j: int|
            0 <= i < all.len() && j == i + 1 && j < all.len() implies !pair_disqualifies(
            #[trigger] all[i],
            #[trigger] all[j],
            modeled,
            profile,
        ) by {
            if j < m {
                assert(all[i] == before[i] && all[j] == before[j]);
            } else if i >= n {
                assert(all[i] == after[i - n] && all[j] == after[j - n]);
            } else if i < m {
                assert(all[i] == before.last());
                lemma_no_pair(all[i], all[j], modeled, profile);
            } else if j >= n {
                assert(all[i] == middle.last());
                lemma_no_pair(all[i], all[j], modeled, profile);
            } else {
                assert(all[i] == middle[0] && all[j] == middle[1]);
            }
        }
    }
}

/// A codegen option is not the operand of another flag.
proof fn lemma_operands_beside(
    before: Seq<Seq<char>>,
    option: Seq<char>,
    compact: bool,
    after: Seq<Seq<char>>,
    flag: Seq<char>,
)
    requires
        is_codegen_option(option),
        ends_complete(before),
        takes_operand(flag),
        flag != "-C"@,
    ensures
        operands(with_codegen(before, option, compact, after), flag) == operands(before, flag)
            + operands(after, flag),
    decreases after.len(),
{
    let middle = codegen_arguments(option, compact);
    let all = with_codegen(before, option, compact, after);
    lemma_options_are_no_flags(option);
    let m = all.len() as int;
    if after.len() == 0 {
        if compact {
            assert(all.drop_last() =~= before);
            if before.len() > 0 {
                assert(all[m - 2] == before.last());
            }
        } else {
            assert(all[m - 2] == "-C"@);
            let most = all.drop_last();
            assert(most =~= before.push("-C"@));
            assert(most.drop_last() =~= before);
            if before.len() > 0 {
                assert(most[most.len() - 2] == before.last());
            }
            assert(operands(all, flag) == operands(most, flag));
            assert(operands(most, flag) == operands(before, flag));
        }
        assert(operands(all, flag) == operands(before, flag));
        assert(operands(before, flag) + operands(after, flag) =~= operands(before, flag));
    } else {
        let rest = after.drop_last();
        lemma_operands_beside(before, option, compact, rest, flag);
        assert(all.drop_last() =~= with_codegen(before, option, compact, rest));
        assert(all.last() == after.last());
        if after.len() == 1 {
            assert(all[m - 2] == middle.last());
            assert(rest =~= Seq::empty());
        } else {
            assert(all[m - 2] == after[after.len() - 2]);
            assert((operands(before, flag) + operands(rest, flag)).push(after.last())
                =~= operands(before, flag) + operands(rest, flag).push(after.last()));
        }
    }
}

/// A codegen option is no long option.
proof fn lemma_compact_operands_beside(
    before: Seq<Seq<char>>,
    option: Seq<char>,
    compact: bool,
    after: Seq<Seq<char>>,
    prefix: Seq<char>,
)
    requires
        is_codegen_option(option),
        prefix.len() > 1,
        prefix[0] == '-',
        prefix[1] == '-',
    ensures
        compact_operands(with_codegen(before, option, compact, after), prefix) == compact_operands(
            before,
            prefix,
        ) + compact_operands(after, prefix),
    decreases after.len(),
{
    let all = with_codegen(before, option, compact, after);
    if after.len() == 0 {
        reveal_strlit("-C");
        assert(("-C"@ + option)[1] == 'C');
        lemma_no_prefix(prefix, "-C"@ + option, 1);
        lemma_no_prefix(prefix, "-C"@, 1);
        lemma_no_prefix(prefix, option, 0);
        if compact {
            assert(all.drop_last() =~= before);
            assert(all.last() == "-C"@ + option);
        } else {
            assert(all.last() == option);
            let most = before.push("-C"@);
            assert(all.drop_last() =~= most);
            assert(most.drop_last() =~= before);
            assert(most.last() == "-C"@);
            assert(compact_operands(all, prefix) == compact_operands(most, prefix));
            assert(compact_operands(most, prefix) == compact_operands(before, prefix));
        }
        assert(compact_operands(before, prefix) + compact_operands(after, prefix)
            =~= compact_operands(before, prefix));
    } else {
        let rest = after.drop_last();
        lemma_compact_operands_beside(before, option, compact, rest, prefix);
        assert(all.drop_last() =~= with_codegen(before, option, compact, rest));
        assert(all.last() == after.last());
        if let Some(operand) = after_prefix(after.last(), prefix) {
            assert((compact_operands(before, prefix) + compact_operands(rest, prefix)).push(operand)
                =~= compact_operands(before, prefix) + compact_operands(rest, prefix).push(operand));
        }
    }
}

/// A codegen option takes no part in what kind of library is asked for, nor in
/// the target.
proof fn lemma_requests_beside(
    before: Seq<Seq<char>>,
    option: Seq<char>,
    compact: bool,
    other: Seq<char>,
    other_compact: bool,
    after: Seq<Seq<char>>,
    host: Seq<char>,
)
    requires
        is_codegen_option(option),
        is_codegen_option(other),
        ends_complete(before),
    ensures
        requests_plain_library(with_codegen(before, option, compact, after))
            == requests_plain_library(with_codegen(before, other, other_compact, after)),
        action_target(with_codegen(before, option, compact, after), host) == action_target(
            with_codegen(before, other, other_compact, after),
            host,
        ),
{
    reveal_strlit("-C");
    reveal_strlit("--crate-type");
    reveal_strlit("--out-dir");
    reveal_strlit("--target");
    reveal_strlit("--target=");
    reveal_strlit("--emit=");
    assert("-C"@.len() == 2);
    assert("--crate-type"@.len() > 2);
    assert("--out-dir"@.len() > 2);
    assert("--target"@.len() > 2);
    lemma_operands_beside(before, option, compact, after, "--crate-type"@);
    lemma_operands_beside(before, other, other_compact, after, "--crate-type"@);
    lemma_operands_beside(before, option, compact, after, "--out-dir"@);
    lemma_operands_beside(before, other, other_compact, after, "--out-dir"@);
    lemma_operands_beside(before, option, compact, after, "--target"@);
    lemma_operands_beside(before, other, other_compact, after, "--target"@);
    lemma_compact_operands_beside(before, option, compact, after, "--emit="@);
    lemma_compact_operands_beside(before, other, other_compact, after, "--emit="@);
    lemma_compact_operands_beside(before, option, compact, after, "--target="@);
    lemma_compact_operands_beside(before, other, other_compact, after, "--target="@);
}

/// Whether two invocations differ in their arguments only.
pub open spec fn same_but_arguments(left: &Command, right: &Command) -> bool {
    *right == (Command { arguments: right.arguments, ..*left })
}

/// A codegen option is admitted alike however it is spelled: with its flag in
/// one argument or behind it, with dashes or with underscores in its name. Two
/// kinds of option are refused in some spellings only: arguments for the linker
/// with dashes, and longer names that begin like `save-temps` behind their flag.
#[verifier::rlimit(40)]
pub proof fn law_codegen_spellings_are_admitted_alike(
    left: &Command,
    right: &Command,
    before: Seq<Seq<char>>,
    after: Seq<Seq<char>>,
    option: Seq<char>,
    compact: bool,
    other: Seq<char>,
    other_compact: bool,
    output_root: Seq<u8>,
    action_program: Seq<u8>,
    compiler_program: Seq<u8>,
    host_triple: Seq<char>,
    modeled_search_paths: Seq<Seq<u8>>,
)
    requires
        same_but_arguments(left, right),
        all_text(left.argument_list()) == all_text(right.argument_list()),
        lossy_list(left.argument_list()) == with_codegen(before, option, compact, after),
        lossy_list(right.argument_list()) == with_codegen(before, other, other_compact, after),
        ends_complete(before),
        is_codegen_option(option),
        is_codegen_option(other),
        spelled_alike(option, other) || differ_in_dashes(option, other),
        is_link_argument(option) ==> option == other,
        extends_save_temps(option) ==> (compact && other_compact) || (option == other && compact
            == other_compact),
    ensures
        is_cacheable(
            left,
            output_root,
            action_program,
            compiler_program,
            host_triple,
            modeled_search_paths,
        ) == is_cacheable(
            right,
            output_root,
            action_program,
            compiler_program,
            host_triple,
            modeled_search_paths,
        ),
{
    let profile = parent_or_self(output_root);
    if differ_in_dashes(option, other) {
        lemma_differ_in_dashes(option, other);
    }
    lemma_compact_verdict(option);
    lemma_compact_verdict(other);
    lemma_split_verdict(option);
    lemma_split_verdict(other);
    lemma_save_temps(option);
    lemma_save_temps(other);
    lemma_links(option);
    lemma_links(other);
    lemma_flag_pairs(option, modeled_search_paths, profile);
    lemma_flag_pairs(other, modeled_search_paths, profile);
    lemma_nothing_disqualifies(before, option, compact, after, modeled_search_paths, profile);
    lemma_nothing_disqualifies(before, other, other_compact, after, modeled_search_paths, profile);
    lemma_requests_beside(before, option, compact, other, other_compact, after, host_triple);
    assert(is_unmodeled_codegen(option) == is_unmodeled_codegen(other));
    assert(is_link_argument(option) == is_link_argument(other));
    assert(extends_save_temps(option) == extends_save_temps(other));
    assert(left.is_text() == right.is_text());
}

/// What keeps an option out together with its flag.
proof fn lemma_flag_pairs(
    option: Seq<char>,
    modeled_search_paths: Seq<Seq<u8>>,
    profile_root: Seq<u8>,
)
    ensures
        pair_disqualifies("-C"@, option, modeled_search_paths, profile_root) == (
        "save-temps"@.is_prefix_of(option) || is_unmodeled_codegen(option)),
{
    reveal_strlit("-C");
    reveal_strlit("--emit");
    reveal_strlit("--target");
    reveal_strlit("--sysroot");
    reveal_strlit("-L");
    reveal_strlit("--extern");
    reveal_strlit("-Z");
    assert("-C"@.len() == 2 && "-C"@[1] == 'C');
    assert("-L"@[1] == 'L' && "-Z"@[1] == 'Z');
    assert("--emit"@.len() > 2 && "--target"@.len() > 2);
    assert("--sysroot"@.len() > 2 && "--extern"@.len() > 2);
}

/// An invocation with a codegen option that reads or writes what the cache key
/// does not cover is not admitted, however the option is spelled.
pub proof fn law_unmodeled_codegen_is_not_admitted(
    rustc: &Command,
    before: Seq<Seq<char>>,
    after: Seq<Seq<char>>,
    option: Seq<char>,
    compact: bool,
    output_root: Seq<u8>,
    action_program: Seq<u8>,
    compiler_program: Seq<u8>,
    host_triple: Seq<char>,
    modeled_search_paths: Seq<Seq<u8>>,
)
    requires
        lossy_list(rustc.argument_list()) == with_codegen(before, option, compact, after),
        ends_complete(before),
        is_codegen_option(option),
        is_unmodeled_codegen(option) || is_uncovered_codegen(option),
    ensures
        !is_cacheable(
            rustc,
            output_root,
            action_program,
            compiler_program,
            host_triple,
            modeled_search_paths,
        ),
{
    let profile = parent_or_self(output_root);
    lemma_uncovered(option);
    lemma_compact_verdict(option);
    lemma_flag_pairs(option, modeled_search_paths, profile);
    lemma_nothing_disqualifies(before, option, compact, after, modeled_search_paths, profile);
}

/// Whether an argument asks for something else than the files of one library in
/// the given directory.
pub open spec fn asks_for_other_outputs(argument: Seq<char>) -> bool {
    ||| "--crate-type="@.is_prefix_of(argument)
    ||| "--out-dir="@.is_prefix_of(argument)
    ||| "-o"@.is_prefix_of(argument)
    ||| "--print="@.is_prefix_of(argument)
    ||| "--pretty="@.is_prefix_of(argument)
    ||| "--unpretty="@.is_prefix_of(argument)
    ||| "-Zunpretty="@.is_prefix_of(argument)
    ||| argument == "--print"@
    ||| argument == "--pretty"@
    ||| argument == "--unpretty"@
    ||| argument == "--test"@
    ||| argument == "-Csave-temps"@
    ||| "-Csave-temps="@.is_prefix_of(argument)
}

/// Whether an argument brings in files that the key does not cover: arguments
/// from a file, libraries, search paths and crates in one argument with their
/// flag, another sysroot, linker arguments.
pub open spec fn brings_other_inputs(argument: Seq<char>) -> bool {
    ||| "@"@.is_prefix_of(argument)
    ||| "-l"@.is_prefix_of(argument)
    ||| argument != "-L"@ && "-L"@.is_prefix_of(argument)
    ||| "--extern="@.is_prefix_of(argument)
    ||| "--sysroot="@.is_prefix_of(argument)
    ||| "link-arg="@.is_prefix_of(argument)
    ||| "link-args="@.is_prefix_of(argument)
    ||| "-Clink-arg="@.is_prefix_of(argument)
    ||| "-Clink-args="@.is_prefix_of(argument)
}

/// Whether a text ends like the name of a dynamic library.
pub open spec fn names_dynamic_library(text: Seq<char>) -> bool {
    ".so"@.is_suffix_of(text) || ".dylib"@.is_suffix_of(text) || ".dll"@.is_suffix_of(text)
}

/// The unstable options that the key covers: a codegen backend of the sysroot by
/// its name, how checksums are made, and whether equal constants are kept apart.
pub open spec fn is_covered_unstable(option: Seq<char>) -> bool {
    ||| exists|name: Seq<char>|
        !name.contains('.') && (option == #[trigger] ("codegen-backend="@ + name) || option
            == "codegen_backend="@ + name)
    ||| option == "checksum-hash-algorithm=blake3"@
    ||| option == "preserve-duplicate-constants=yes"@
    ||| option == "preserve-duplicate-constants=no"@
}

/// An invocation is admitted only where it compiles one library, into one
/// directory: it has one crate type, which is `lib`, one list of what is emitted,
/// which holds what it has read and the library, its metadata or both, and one
/// output directory, each given in one way, and nothing asks for another output.
pub proof fn law_admitted_invocations_make_one_library(
    rustc: &Command,
    output_root: Seq<u8>,
    action_program: Seq<u8>,
    compiler_program: Seq<u8>,
    host_triple: Seq<char>,
    modeled_search_paths: Seq<Seq<u8>>,
)
    requires
        is_cacheable(
            rustc,
            output_root,
            action_program,
            compiler_program,
            host_triple,
            modeled_search_paths,
        ),
    ensures
        ({
            let list = lossy_list(rustc.argument_list());
            &&& forall|i: int|
                0 <= i < list.len() ==> !asks_for_other_outputs(#[trigger] list[i])
            &&& forall|i: int|
                0 <= i < list.len() - 1 && (#[trigger] list[i]) == "--crate-type"@ ==> list[i + 1]
                    == "lib"@
            &&& forall|i: int, j: int|
                0 <= i < j < list.len() - 1 && (#[trigger] list[i]) == "--crate-type"@ ==> (
                #[trigger] list[j]) != "--crate-type"@
            &&& forall|i: int, j: int|
                0 <= i < j < list.len() - 1 && (#[trigger] list[i]) == "--out-dir"@ ==> (
                #[trigger] list[j]) != "--out-dir"@
            &&& exists|i: int| 0 <= i < list.len() - 1 && (#[trigger] list[i]) == "--crate-type"@
            &&& exists|i: int| 0 <= i < list.len() - 1 && (#[trigger] list[i]) == "--out-dir"@
            &&& forall|i: int| 0 <= i < list.len() - 1 ==> (#[trigger] list[i]) != "--emit"@
            &&& forall|i: int|
                0 <= i < list.len() && "--emit="@.is_prefix_of(#[trigger] list[i]) ==> (list[i]
                    == "--emit=dep-info,metadata"@ || list[i] == "--emit=dep-info,link"@
                    || list[i] == "--emit=dep-info,metadata,link"@)
            &&& exists|i: int| 0 <= i < list.len() && "--emit="@.is_prefix_of(#[trigger] list[i])
            &&& forall|i: int, j: int|
                0 <= i < j < list.len() && "--emit="@.is_prefix_of(#[trigger] list[i])
                    ==> !"--emit="@.is_prefix_of(#[trigger] list[j])
        }),
{
    let list = lossy_list(rustc.argument_list());
    let profile = parent_or_self(output_root);
    assert forall|i: int| 0 <= i < list.len() implies !asks_for_other_outputs(
        #[trigger] list[i],
    ) by {
        assert(!argument_disqualifies(list[i]));
    }
    assert forall|i: int| 0 <= i < list.len() - 1 implies (#[trigger] list[i]) != "--emit"@ by {
        assert(!pair_disqualifies(list[i], list[i + 1], modeled_search_paths, profile));
    }
    lemma_operand_positions(list, "--crate-type"@);
    lemma_operand_positions(list, "--out-dir"@);
    lemma_compact_positions(list, "--emit="@);
    let kinds = operands(list, "--crate-type"@);
    assert(kinds[0] == "lib"@);
    let emits = compact_operands(list, "--emit="@);
    assert forall|i: int| 0 <= i < list.len() && "--emit="@.is_prefix_of(#[trigger] list[i]) implies (
    list[i] == "--emit=dep-info,metadata"@ || list[i] == "--emit=dep-info,link"@ || list[i]
        == "--emit=dep-info,metadata,link"@) by {
        reveal_strlit("--emit=");
        reveal_strlit("dep-info,metadata");
        reveal_strlit("dep-info,link");
        reveal_strlit("dep-info,metadata,link");
        reveal_strlit("--emit=dep-info,metadata");
        reveal_strlit("--emit=dep-info,link");
        reveal_strlit("--emit=dep-info,metadata,link");
        let emit = list[i].skip("--emit="@.len() as int);
        assert(emits[0] == emit);
        let text = list[i];
        assert(text =~= "--emit="@ + emit) by {
            assert(text.subrange(0, "--emit="@.len() as int) == "--emit="@);
            assert(text =~= text.subrange(0, "--emit="@.len() as int) + emit);
        }
        assert("--emit="@ + "dep-info,metadata"@ =~= "--emit=dep-info,metadata"@);
        assert("--emit="@ + "dep-info,link"@ =~= "--emit=dep-info,link"@);
        assert("--emit="@ + "dep-info,metadata,link"@ =~= "--emit=dep-info,metadata,link"@);
    }
}

/// Operands stand behind their flags, in order: there is one for each flag that
/// something stands behind.
proof fn lemma_operand_positions(list: Seq<Seq<char>>, flag: Seq<char>)
    ensures
        operands(list, flag).len() > 0 ==> exists|i: int|
            0 <= i < list.len() - 1 && (#[trigger] list[i]) == flag,
        operands(list, flag).len() <= 1 ==> forall|i: int|
            0 <= i < list.len() - 1 && (#[trigger] list[i]) == flag ==> operands(list, flag).len()
                == 1 && operands(list, flag)[0] == list[i + 1],
        operands(list, flag).len() <= 1 ==> forall|i: int, j: int|
            0 <= i < j < list.len() - 1 && (#[trigger] list[i]) == flag ==> (#[trigger] list[j])
                != flag,
    decreases list.len(),
{
    if list.len() >= 2 {
        let rest = list.drop_last();
        lemma_operand_positions(rest, flag);
        let n = list.len() as int;
        if operands(rest, flag).len() > 0 {
            let i = choose|i: int| 0 <= i < rest.len() - 1 && (#[trigger] rest[i]) == flag;
            assert(list[i] == flag);
        } else if operands(list, flag).len() > 0 {
            assert(list[n - 2] == flag);
        }
        if operands(list, flag).len() <= 1 {
            assert forall|i: int| 0 <= i < list.len() - 1 && (#[trigger] list[i])
                == flag implies operands(list, flag).len() == 1 && operands(list, flag)[0] == list[i
                + 1] by {
                if i < n - 2 {
                    assert(rest[i] == flag);
                    assert(rest[i + 1] == list[i + 1]);
                    assert(operands(rest, flag).len() == 1);
                }
            }
            assert forall|i: int, j: int|
                0 <= i < j < list.len() - 1 && (#[trigger] list[i]) == flag implies (
            #[trigger] list[j]) != flag by {
                assert(rest[i] == flag);
                assert(operands(rest, flag).len() == 1);
                if j < n - 2 {
                    assert(rest[j] == list[j]);
                }
            }
        }
    }
}

/// Compact operands stand behind their prefixes, in order.
proof fn lemma_compact_positions(list: Seq<Seq<char>>, prefix: Seq<char>)
    ensures
        compact_operands(list, prefix).len() > 0 ==> exists|i: int|
            0 <= i < list.len() && prefix.is_prefix_of(#[trigger] list[i]),
        compact_operands(list, prefix).len() <= 1 ==> forall|i: int|
            0 <= i < list.len() && prefix.is_prefix_of(#[trigger] list[i]) ==> compact_operands(
                list,
                prefix,
            ).len() == 1 && compact_operands(list, prefix)[0] == list[i].skip(prefix.len() as int),
        compact_operands(list, prefix).len() <= 1 ==> forall|i: int, j: int|
            0 <= i < j < list.len() && prefix.is_prefix_of(#[trigger] list[i])
                ==> !prefix.is_prefix_of(#[trigger] list[j]),
    decreases list.len(),
{
    if list.len() > 0 {
        let rest = list.drop_last();
        lemma_compact_positions(rest, prefix);
        let n = list.len() as int;
        assert(list.last() == list[n - 1]);
        if compact_operands(rest, prefix).len() > 0 {
            let i = choose|i: int| 0 <= i < rest.len() && prefix.is_prefix_of(#[trigger] rest[i]);
            assert(prefix.is_prefix_of(list[i]));
        } else if compact_operands(list, prefix).len() > 0 {
            assert(prefix.is_prefix_of(list[n - 1]));
        }
        if compact_operands(list, prefix).len() <= 1 {
            assert forall|i: int| 0 <= i < list.len() && prefix.is_prefix_of(
                #[trigger] list[i],
            ) implies compact_operands(list, prefix).len() == 1 && compact_operands(list, prefix)[0]
                == list[i].skip(prefix.len() as int) by {
                if i < n - 1 {
                    assert(rest[i] == list[i]);
                    assert(compact_operands(rest, prefix).len() == 1);
                }
            }
            assert forall|i: int, j: int|
                0 <= i < j < list.len() && prefix.is_prefix_of(
                    #[trigger] list[i],
                ) implies !prefix.is_prefix_of(#[trigger] list[j]) by {
                assert(rest[i] == list[i]);
                assert(compact_operands(rest, prefix).len() == 1);
                if j < n - 1 {
                    assert(rest[j] == list[j]);
                }
            }
        }
    }
}

/// An invocation is admitted only where nothing brings in files that the key
/// does not cover. Crates are named with their files, and these are no dynamic
/// libraries; crates are searched for only where the build says so, and other
/// things only below the target directory; there is no other sysroot, no target
/// from a file, and no unstable option that the key does not cover.
#[verifier::rlimit(40)]
pub proof fn law_admitted_invocations_bring_nothing_else(
    rustc: &Command,
    output_root: Seq<u8>,
    action_program: Seq<u8>,
    compiler_program: Seq<u8>,
    host_triple: Seq<char>,
    modeled_search_paths: Seq<Seq<u8>>,
)
    requires
        is_cacheable(
            rustc,
            output_root,
            action_program,
            compiler_program,
            host_triple,
            modeled_search_paths,
        ),
    ensures
        ({
            let list = lossy_list(rustc.argument_list());
            &&& forall|i: int| 0 <= i < list.len() ==> !brings_other_inputs(#[trigger] list[i])
            &&& forall|i: int|
                0 <= i < list.len() - 1 && (#[trigger] list[i]) == "--extern"@
                    ==> !names_dynamic_library(list[i + 1]) && list[i + 1].contains('=')
            &&& forall|i: int|
                0 <= i < list.len() - 1 && (#[trigger] list[i]) == "-L"@ && (
                "dependency="@.is_prefix_of(list[i + 1]) || "crate="@.is_prefix_of(list[i + 1]))
                    ==> modeled_search_paths.contains(utf8(list[i + 1]))
            &&& forall|i: int|
                0 <= i < list.len() - 1 && (#[trigger] list[i]) == "-L"@
                    && !"dependency="@.is_prefix_of(list[i + 1]) && !"crate="@.is_prefix_of(
                    list[i + 1],
                ) ==> searches_below(list[i + 1], parent_or_self(output_root))
            &&& forall|i: int|
                0 <= i < list.len() - 1 ==> (#[trigger] list[i]) != "--sysroot"@
            &&& forall|i: int|
                0 <= i < list.len() - 1 && (#[trigger] list[i]) == "--target"@
                    ==> !".json"@.is_suffix_of(list[i + 1])
            &&& forall|i: int|
                0 <= i < list.len() && "--target="@.is_prefix_of(#[trigger] list[i])
                    ==> !".json"@.is_suffix_of(list[i].skip("--target="@.len() as int))
            &&& forall|i: int|
                0 <= i < list.len() - 1 && (#[trigger] list[i]) == "-Z"@ ==> is_covered_unstable(
                    list[i + 1],
                )
            &&& forall|i: int|
                0 <= i < list.len() && "-Z"@.is_prefix_of(#[trigger] list[i]) && list[i] != "-Z"@
                    ==> is_covered_unstable(list[i].skip(2))
        }),
{
    let list = lossy_list(rustc.argument_list());
    let profile = parent_or_self(output_root);
    reveal_strlit("-Z");
    assert forall|i: int| 0 <= i < list.len() implies !brings_other_inputs(#[trigger] list[i]) by {
        assert(!argument_disqualifies(list[i]));
    }
    assert forall|i: int| 0 <= i < list.len() - 1 && (#[trigger] list[i]) == "--extern"@ implies
        !names_dynamic_library(list[i + 1]) && list[i + 1].contains('=') by {
        assert(!pair_disqualifies(list[i], list[i + 1], modeled_search_paths, profile));
    }
    assert forall|i: int|
        0 <= i < list.len() - 1 && (#[trigger] list[i]) == "-L"@ && ("dependency="@.is_prefix_of(
            list[i + 1],
        ) || "crate="@.is_prefix_of(list[i + 1])) implies modeled_search_paths.contains(
        utf8(list[i + 1]),
    ) by {
        assert(!pair_disqualifies(list[i], list[i + 1], modeled_search_paths, profile));
    }
    assert forall|i: int|
        0 <= i < list.len() - 1 && (#[trigger] list[i]) == "-L"@ && !"dependency="@.is_prefix_of(
            list[i + 1],
        ) && !"crate="@.is_prefix_of(list[i + 1]) implies searches_below(list[i + 1], profile) by {
        assert(!pair_disqualifies(list[i], list[i + 1], modeled_search_paths, profile));
        lemma_searches_below(list[i + 1], profile);
    }
    assert forall|i: int| 0 <= i < list.len() - 1 implies (#[trigger] list[i]) != "--sysroot"@ by {
        assert(!pair_disqualifies(list[i], list[i + 1], modeled_search_paths, profile));
    }
    assert forall|i: int| 0 <= i < list.len() - 1 && (#[trigger] list[i]) == "--target"@ implies
        !".json"@.is_suffix_of(list[i + 1]) by {
        assert(!pair_disqualifies(list[i], list[i + 1], modeled_search_paths, profile));
    }
    assert forall|i: int| 0 <= i < list.len() && "--target="@.is_prefix_of(#[trigger] list[i]) implies
        !".json"@.is_suffix_of(list[i].skip("--target="@.len() as int)) by {
        assert(!argument_disqualifies(list[i]));
    }
    assert forall|i: int| 0 <= i < list.len() - 1 && (#[trigger] list[i]) == "-Z"@ implies
        is_covered_unstable(list[i + 1]) by {
        assert(!pair_disqualifies(list[i], list[i + 1], modeled_search_paths, profile));
        lemma_covered_unstable(list[i + 1]);
    }
    assert forall|i: int|
        0 <= i < list.len() && "-Z"@.is_prefix_of(#[trigger] list[i]) && list[i] != "-Z"@ implies
        is_covered_unstable(list[i].skip(2)) by {
        assert(!argument_disqualifies(list[i]));
        lemma_covered_unstable(list[i].skip(2));
    }
}

/// Whether a search path, without the kind before its first equals sign, stands
/// below a directory.
pub open spec fn searches_below(operand: Seq<char>, directory: Seq<u8>) -> bool {
    ||| !operand.contains('=') && path_starts_with(utf8(operand), directory)
    ||| exists|kind: Seq<char>, path: Seq<char>|
        operand == #[trigger] (kind + "="@ + path) && !kind.contains('=') && path_starts_with(
            utf8(path),
            directory,
        )
}

/// A search path whose directory stands below another.
proof fn lemma_searches_below(operand: Seq<char>, directory: Seq<u8>)
    requires
        path_starts_with(utf8(search_directory(operand)), directory),
    ensures
        searches_below(operand, directory),
{
    reveal_strlit("=");
    lemma_first_at(operand, '=');
    let at = first_at(operand, '=');
    if at < operand.len() {
        let kind = operand.take(at);
        let path = operand.skip(at + 1);
        assert(operand =~= kind + "="@ + path);
        assert forall|k: int| 0 <= k < kind.len() implies kind[k] != '=' by {
            assert(kind[k] == operand[k]);
        }
    } else {
        assert forall|k: int| 0 <= k < operand.len() implies operand[k] != '=' by {}
    }
}

/// An unstable option that is modeled is covered.
proof fn lemma_covered_unstable(option: Seq<char>)
    requires
        is_modeled_unstable(option),
    ensures
        is_covered_unstable(option),
{
    let dashed_start = "codegen-backend="@;
    let other_start = "codegen_backend="@;
    if dashed_start.is_prefix_of(option) {
        let name = option.skip(dashed_start.len() as int);
        assert(option =~= option.subrange(0, dashed_start.len() as int) + name);
        assert(option == dashed_start + name);
    } else if other_start.is_prefix_of(option) {
        let name = option.skip(other_start.len() as int);
        assert(option =~= option.subrange(0, other_start.len() as int) + name);
        let same = dashed_start + name;
        assert(option == other_start + name);
    }
}

/// A dynamic library among the crates that an invocation names, in whichever
/// way, keeps it out of the cache.
pub proof fn law_dynamic_dependencies_are_not_admitted(
    rustc: &Command,
    output_root: Seq<u8>,
    action_program: Seq<u8>,
    compiler_program: Seq<u8>,
    host_triple: Seq<char>,
    modeled_search_paths: Seq<Seq<u8>>,
)
    requires
        ({
            let list = lossy_list(rustc.argument_list());
            ||| has_dynamic_dependency(list)
            ||| exists|i: int|
                0 <= i < list.len() - 1 && (#[trigger] list[i]) == "--extern"@
                    && names_dynamic_library(list[i + 1])
            ||| exists|i: int|
                0 <= i < list.len() && "--extern="@.is_prefix_of(#[trigger] list[i])
                    && names_dynamic_library(list[i])
        }),
    ensures
        !is_cacheable(
            rustc,
            output_root,
            action_program,
            compiler_program,
            host_triple,
            modeled_search_paths,
        ),
{
    let list = lossy_list(rustc.argument_list());
    if is_cacheable(
        rustc,
        output_root,
        action_program,
        compiler_program,
        host_triple,
        modeled_search_paths,
    ) {
        law_admitted_invocations_bring_nothing_else(
            rustc,
            output_root,
            action_program,
            compiler_program,
            host_triple,
            modeled_search_paths,
        );
        if has_dynamic_dependency(list) {
            let split = operands(list, "--extern"@);
            let compact = compact_operands(list, "--extern="@);
            if exists|i: int| 0 <= i < split.len() && ends_like_dynamic_library(#[trigger] split[i]) {
                let i = choose|i: int|
                    0 <= i < split.len() && ends_like_dynamic_library(#[trigger] split[i]);
                lemma_operand_stands(list, "--extern"@, i);
            } else {
                lemma_compact_positions(list, "--extern="@);
            }
        }
    }
}

/// An operand stands behind its flag.
proof fn lemma_operand_stands(list: Seq<Seq<char>>, flag: Seq<char>, at: int)
    requires
        0 <= at < operands(list, flag).len(),
    ensures
        exists|i: int|
            0 <= i < list.len() - 1 && (#[trigger] list[i]) == flag && list[i + 1] == operands(
                list,
                flag,
            )[at],
    decreases list.len(),
{
    let rest = list.drop_last();
    let n = list.len() as int;
    if at < operands(rest, flag).len() {
        lemma_operand_stands(rest, flag, at);
        let i = choose|i: int|
            0 <= i < rest.len() - 1 && (#[trigger] rest[i]) == flag && rest[i + 1] == operands(
                rest,
                flag,
            )[at];
        assert(list[i] == rest[i] && list[i + 1] == rest[i + 1]);
    } else {
        assert(list[n - 2] == flag);
    }
}

/// The variables that the compiler reads, and the key does not cover.
pub open spec fn reads_variable(name: Seq<char>) -> bool {
    ||| name == "RUSTC_BOOTSTRAP"@
    ||| name == "RUSTC_FORCE_RUSTC_VERSION"@
    ||| name == "RUSTC_OVERRIDE_VERSION_STRING"@
    ||| name == "RUSTC_LOG"@
    ||| name == "RUSTC_LOG_COLOR"@
    ||| name == "RUSTC_LOG_ENTRY_EXIT"@
    ||| name == "RUSTC_LOG_THREAD_IDS"@
    ||| name == "RUSTC_LOG_BACKTRACE"@
    ||| name == "RUSTC_LOG_LINES"@
    ||| name == "RUSTC_LOG_FORMAT_JSON"@
    ||| name == "RUSTC_LOG_OUTPUT_TARGET"@
    ||| name == "RUST_TARGET_PATH"@
    ||| name == "CG_CLIF_FORCE_GNU_AS"@
    ||| name == "CG_CLIF_DISABLE_INCR_CACHE"@
    ||| name == "CG_CLIF_ENABLE_VERIFIER"@
    ||| name == "CG_CLIF_JIT_ARGS"@
}

/// An invocation is admitted only where it starts the compiler itself, without a
/// wrapper, with a search path for programs that it did not set, and without the
/// variables that change what the compiler does: those of the compiler, those
/// that it sets for the GCC backend, and one for incremental linking that it
/// did not set itself. It is not for Windows with the GNU tools, and it holds
/// text only.
pub proof fn law_admitted_invocations_see_nothing_else(
    rustc: &Command,
    output_root: Seq<u8>,
    action_program: Seq<u8>,
    compiler_program: Seq<u8>,
    host_triple: Seq<char>,
    modeled_search_paths: Seq<Seq<u8>>,
    name: Seq<char>,
)
    requires
        is_cacheable(
            rustc,
            output_root,
            action_program,
            compiler_program,
            host_triple,
            modeled_search_paths,
        ),
    ensures
        rustc.wrappers@.len() == 0,
        components(action_program) == components(compiler_program),
        explicit_setting(rustc.setting_list(), "PATH"@) is None,
        reads_variable(name) ==> rustc.effective(name) is None,
        forall|i: int|
            0 <= i < rustc.setting_list().len() && "CG_GCCJIT_"@.is_prefix_of(
                (#[trigger] rustc.setting_list()[i]).0,
            ) ==> rustc.effective(rustc.setting_list()[i].0) is None,
        explicit_setting(rustc.setting_list(), "SLD_RUSTC_WORK_PRODUCT_PROVENANCE"@) is None
            ==> rustc.effective("SLD_RUSTC_WORK_PRODUCT_PROVENANCE"@) is None,
        forall|i: int|
            0 <= i < rustc.argument_list().len() ==> valid_utf8(
                #[trigger] rustc.argument_list()[i],
            ),
        ({
            let list = lossy_list(rustc.argument_list());
            &&& forall|i: int|
                0 <= i < list.len() && "--target="@.is_prefix_of(#[trigger] list[i]) && (forall|
                    j: int,
                | 0 <= j < i ==> !"--target="@.is_prefix_of(#[trigger] list[j])) ==> !stands_in(
                    list[i],
                    "-windows-gnu"@,
                )
            &&& forall|i: int|
                0 <= i < list.len() - 1 && (#[trigger] list[i]) == "--target"@ && (forall|j: int|
                    0 <= j < list.len() ==> !"--target="@.is_prefix_of(#[trigger] list[j])) && (
                forall|j: int| 0 <= j < i ==> (#[trigger] list[j]) != "--target"@) ==> !stands_in(
                    list[i + 1],
                    "-windows-gnu"@,
                )
            &&& (forall|i: int|
                0 <= i < list.len() ==> !"--target="@.is_prefix_of(#[trigger] list[i])
                    && list[i] != "--target"@) ==> !stands_in(host_triple, "-windows-gnu"@)
        }),
{
    let list = lossy_list(rustc.argument_list());
    if reads_variable(name) {
        let all = unmodeled_variables();
        assert(exists|k: int| 0 <= k < all.len() && all[k] == name) by {
            lemma_read_variables(name);
        }
        let k = choose|k: int| 0 <= k < all.len() && all[k] == name;
        assert(rustc.effective(unmodeled_variables()[k]) is None);
    }
    assert forall|i: int|
        0 <= i < rustc.setting_list().len() && "CG_GCCJIT_"@.is_prefix_of(
            (#[trigger] rustc.setting_list()[i]).0,
        ) implies rustc.effective(rustc.setting_list()[i].0) is None by {
        if rustc.effective(rustc.setting_list()[i].0) is Some {
            assert(is_backend_setting(rustc, rustc.setting_list()[i].0));
        }
    }
    assert(all_text(rustc.argument_list()));
    assert forall|i: int|
        0 <= i < list.len() && "--target="@.is_prefix_of(#[trigger] list[i]) && (forall|j: int|
            0 <= j < i ==> !"--target="@.is_prefix_of(#[trigger] list[j])) implies !stands_in(
        list[i],
        "-windows-gnu"@,
    ) by {
        lemma_first_compact(list, "--target="@, i);
        lemma_stands_behind(list[i], "--target="@, "-windows-gnu"@);
    }
    assert forall|i: int|
        0 <= i < list.len() - 1 && (#[trigger] list[i]) == "--target"@ && (forall|j: int|
            0 <= j < list.len() ==> !"--target="@.is_prefix_of(#[trigger] list[j])) && (forall|
            j: int,
        | 0 <= j < i ==> (#[trigger] list[j]) != "--target"@) implies !stands_in(
        list[i + 1],
        "-windows-gnu"@,
    ) by {
        lemma_compact_positions(list, "--target="@);
        lemma_first_operand(list, "--target"@, i);
    }
    if forall|i: int|
        0 <= i < list.len() ==> !"--target="@.is_prefix_of(#[trigger] list[i]) && list[i]
            != "--target"@ {
        lemma_compact_positions(list, "--target="@);
        lemma_operand_positions(list, "--target"@);
    }
}

/// The first operand is that of the first flag.
proof fn lemma_first_operand(list: Seq<Seq<char>>, flag: Seq<char>, at: int)
    requires
        0 <= at < list.len() - 1,
        list[at] == flag,
        forall|j: int| 0 <= j < at ==> (#[trigger] list[j]) != flag,
    ensures
        operands(list, flag).len() > 0,
        operands(list, flag)[0] == list[at + 1],
    decreases list.len(),
{
    let rest = list.drop_last();
    let n = list.len() as int;
    if at < n - 2 {
        assert(rest[at] == list[at] && rest[at + 1] == list[at + 1]);
        assert forall|j: int| 0 <= j < at implies (#[trigger] rest[j]) != flag by {
            assert(rest[j] == list[j]);
        }
        lemma_first_operand(rest, flag, at);
    } else {
        if operands(rest, flag).len() > 0 {
            lemma_operand_positions(rest, flag);
            let i = choose|i: int| 0 <= i < rest.len() - 1 && (#[trigger] rest[i]) == flag;
            assert(list[i] == rest[i]);
        }
        assert(list.last() == list[at + 1]);
    }
}

/// Variables that are read are in the list of those that are not modeled.
proof fn lemma_read_variables(name: Seq<char>)
    requires
        reads_variable(name),
    ensures
        unmodeled_variables().contains(name),
{
    let all = unmodeled_variables();
    assert(all[0] == "RUSTC_BOOTSTRAP"@);
    assert(all[1] == "RUSTC_FORCE_RUSTC_VERSION"@);
    assert(all[2] == "RUSTC_OVERRIDE_VERSION_STRING"@);
    assert(all[3] == "RUSTC_LOG"@);
    assert(all[4] == "RUSTC_LOG_COLOR"@);
    assert(all[5] == "RUSTC_LOG_ENTRY_EXIT"@);
    assert(all[6] == "RUSTC_LOG_THREAD_IDS"@);
    assert(all[7] == "RUSTC_LOG_BACKTRACE"@);
    assert(all[8] == "RUSTC_LOG_LINES"@);
    assert(all[9] == "RUSTC_LOG_FORMAT_JSON"@);
    assert(all[10] == "RUSTC_LOG_OUTPUT_TARGET"@);
    assert(all[11] == "RUST_TARGET_PATH"@);
    assert(all[12] == "CG_CLIF_FORCE_GNU_AS"@);
    assert(all[13] == "CG_CLIF_DISABLE_INCR_CACHE"@);
    assert(all[14] == "CG_CLIF_ENABLE_VERIFIER"@);
    assert(all[15] == "CG_CLIF_JIT_ARGS"@);
}

/// The first compact operand is that of the first argument with its prefix.
proof fn lemma_first_compact(list: Seq<Seq<char>>, prefix: Seq<char>, at: int)
    requires
        0 <= at < list.len(),
        prefix.is_prefix_of(list[at]),
        forall|j: int| 0 <= j < at ==> !prefix.is_prefix_of(#[trigger] list[j]),
    ensures
        compact_operands(list, prefix).len() > 0,
        compact_operands(list, prefix)[0] == list[at].skip(prefix.len() as int),
    decreases list.len(),
{
    let rest = list.drop_last();
    if at < list.len() - 1 {
        assert(rest[at] == list[at]);
        assert forall|j: int| 0 <= j < at implies !prefix.is_prefix_of(#[trigger] rest[j]) by {
            assert(rest[j] == list[j]);
        }
        lemma_first_compact(rest, prefix, at);
    } else {
        assert forall|i: int| 0 <= i < rest.len() implies !prefix.is_prefix_of(
            #[trigger] rest[i],
        ) by {
            assert(rest[i] == list[i]);
        }
        lemma_compact_positions(rest, prefix);
        assert(compact_operands(rest, prefix).len() == 0);
        assert(list.last() == list[at]);
    }
}

/// What does not stand behind a start that does not hold its first character
/// twice does not stand in the whole.
proof fn lemma_stands_behind(text: Seq<char>, start: Seq<char>, pattern: Seq<char>)
    requires
        start == "--target="@,
        pattern == "-windows-gnu"@,
        start.is_prefix_of(text),
        !stands_in(text.skip(start.len() as int), pattern),
    ensures
        !stands_in(text, pattern),
{
    reveal_strlit("--target=");
    reveal_strlit("-windows-gnu");
    if stands_in(text, pattern) {
        let at = choose|at: int| stands_at(text, pattern, at);
        let tail = text.skip(at);
        assert(tail.subrange(0, pattern.len() as int) == pattern);
        assert(text.subrange(0, 9) == start);
        if at >= 9 {
            assert(text.skip(9).skip(at - 9) =~= tail);
            assert(stands_at(text.skip(9), pattern, at - 9));
        } else {
            assert(tail[0] == '-') by {
                assert(tail.subrange(0, pattern.len() as int)[0] == '-');
            }
            assert(tail[1] == 'w') by {
                assert(tail.subrange(0, pattern.len() as int)[1] == 'w');
            }
            assert(text[at] == '-');
            assert(text[at + 1] == 'w');
            assert(text.subrange(0, 9)[at] == text[at]);
            assert(at == 0 || at == 1);
            assert(text.subrange(0, 9)[at + 1] == text[at + 1]);
        }
    }
}

/// Whether a text is another one but for underscores in place of dashes.
pub open spec fn spells(text: Seq<char>, name: Seq<char>) -> bool {
    text.len() == name.len() && forall|i: int|
        0 <= i < text.len() ==> (#[trigger] text[i]) == name[i] || (name[i] == '-' && text[i]
            == '_')
}

/// Whether an option is that of a name, with or without a value.
pub open spec fn is_option(option: Seq<char>, name: Seq<char>) -> bool {
    spells(option, name) || (option.len() > name.len() && spells(
        option.take(name.len() as int),
        name,
    ) && option[name.len() as int] == '=')
}

/// Whether a codegen option reads or writes files of its own, hands arguments to
/// LLVM, or depends on the machine.
pub open spec fn is_uncovered_codegen(option: Seq<char>) -> bool {
    ||| is_option(option, "profile-use"@)
    ||| is_option(option, "profile-sample-use"@)
    ||| is_option(option, "llvm-args"@)
    ||| is_option(option, "save-temps"@)
    ||| is_option(option, "target-cpu"@) && option.len() > 10 && option.skip(11) == "native"@
}

/// An option has a name, however it is spelled.
proof fn lemma_option_named(option: Seq<char>, name: Seq<char>)
    requires
        forall|k: int| 0 <= k < name.len() ==> (#[trigger] name[k]) != '=' && name[k] != '_',
    ensures
        (dashed(option_name(option)) == name) == is_option(option, name),
        is_option(option, name) ==> option_value(option) == if option.len() > name.len() {
            Some(option.skip(name.len() as int + 1))
        } else {
            None
        },
{
    lemma_first_at(option, '=');
    let at = first_at(option, '=');
    let found = option_name(option);
    let n = name.len() as int;
    if is_option(option, name) {
        assert forall|k: int| 0 <= k < n implies option[k] != '=' by {
            if !spells(option, name) {
                assert(option.take(n)[k] == option[k]);
            }
            assert(name[k] != '=');
        }
        lemma_first_at_unique(option, '=', n);
        assert(found =~= option.take(n));
        assert forall|k: int| 0 <= k < n implies dashed(found)[k] == name[k] by {
            assert(name[k] != '_');
            assert(option.take(n)[k] == option[k]);
        }
        assert(dashed(found) =~= name);
    }
    if dashed(found) == name {
        assert(found.len() == n);
        assert(found =~= option.take(n));
        assert forall|k: int| 0 <= k < n implies (#[trigger] found[k]) == name[k] || (name[k] == '-'
            && found[k] == '_') by {
            assert(dashed(found)[k] == name[k]);
        }
        assert(spells(found, name));
        if option.len() == n {
            assert(option =~= found);
        }
    }
}

/// The options that are not modeled are those that are not covered.
proof fn lemma_uncovered(option: Seq<char>)
    ensures
        is_unmodeled_codegen(option) == is_uncovered_codegen(option),
{
    reveal_strlit("profile-use");
    reveal_strlit("profile-sample-use");
    reveal_strlit("llvm-args");
    reveal_strlit("save-temps");
    reveal_strlit("target-cpu");
    reveal_strlit("native");
    lemma_option_named(option, "profile-use"@);
    lemma_option_named(option, "profile-sample-use"@);
    lemma_option_named(option, "llvm-args"@);
    lemma_option_named(option, "save-temps"@);
    lemma_option_named(option, "target-cpu"@);
}

/// A text that is no flag: it does not begin with a dash or an `@`, and hands
/// nothing to the linker.
pub open spec fn is_plain_word(word: Seq<char>) -> bool {
    &&& word.len() == 0 || (word[0] != '-' && word[0] != '@')
    &&& !"link-arg="@.is_prefix_of(word)
    &&& !"link-args="@.is_prefix_of(word)
}

/// Arguments that the cache does not mind: a word, an edition or a condition, a
/// crate with its file, which is no dynamic library, a search path that the build
/// says, or one below the target directory, or a codegen option that the key
/// covers.
pub open spec fn are_harmless(
    list: Seq<Seq<char>>,
    modeled_search_paths: Seq<Seq<u8>>,
    profile_root: Seq<u8>,
) -> bool {
    ||| list.len() == 1 && is_plain_word(list[0])
    ||| list.len() == 1 && "--edition="@.is_prefix_of(list[0])
    ||| list.len() == 1 && "--cfg"@.is_prefix_of(list[0])
    ||| {
        &&& list.len() == 2
        &&& is_plain_word(list[1])
        &&& list[0] == "--extern"@
        &&& list[1].contains('=')
        &&& !names_dynamic_library(list[1])
    }
    ||| {
        &&& list.len() == 2
        &&& is_plain_word(list[1])
        &&& list[0] == "-L"@
        &&& if "dependency="@.is_prefix_of(list[1]) || "crate="@.is_prefix_of(list[1]) {
            modeled_search_paths.contains(utf8(list[1]))
        } else {
            !list[1].contains('=') && path_starts_with(utf8(list[1]), profile_root)
        }
    }
    ||| {
        &&& list.len() == 2
        &&& is_plain_word(list[1])
        &&& list[0] == "-C"@
        &&& !is_uncovered_codegen(list[1])
        &&& !"save-temps"@.is_prefix_of(list[1])
    }
}

/// A word keeps nothing out.
proof fn lemma_plain_word(word: Seq<char>)
    requires
        is_plain_word(word),
    ensures
        !argument_disqualifies(word),
        !takes_operand(word),
        !"--emit="@.is_prefix_of(word),
        !"--target="@.is_prefix_of(word),
{
    reveal_strlit("--crate-type=");
    reveal_strlit("--out-dir=");
    reveal_strlit("--print=");
    reveal_strlit("--pretty=");
    reveal_strlit("--unpretty=");
    reveal_strlit("--target=");
    reveal_strlit("--sysroot=");
    reveal_strlit("-Zunpretty=");
    reveal_strlit("-o");
    reveal_strlit("@");
    reveal_strlit("-l");
    reveal_strlit("-L");
    reveal_strlit("--extern=");
    reveal_strlit("-Z");
    reveal_strlit("--print");
    reveal_strlit("--pretty");
    reveal_strlit("--unpretty");
    reveal_strlit("--test");
    reveal_strlit("-C");
    reveal_strlit("-Clink-arg=");
    reveal_strlit("-Clink-args=");
    reveal_strlit("-Csave-temps");
    reveal_strlit("-Csave-temps=");
    reveal_strlit("--emit=");
    reveal_strlit("--crate-type");
    reveal_strlit("--out-dir");
    reveal_strlit("--target");
    reveal_strlit("--emit");
    reveal_strlit("--sysroot");
    reveal_strlit("--extern");
    lemma_no_prefix("--crate-type="@, word, 0);
    lemma_no_prefix("--out-dir="@, word, 0);
    lemma_no_prefix("--print="@, word, 0);
    lemma_no_prefix("--pretty="@, word, 0);
    lemma_no_prefix("--unpretty="@, word, 0);
    lemma_no_prefix("--target="@, word, 0);
    lemma_no_prefix("--sysroot="@, word, 0);
    lemma_no_prefix("-Zunpretty="@, word, 0);
    lemma_no_prefix("-o"@, word, 0);
    lemma_no_prefix("@"@, word, 0);
    lemma_no_prefix("-l"@, word, 0);
    lemma_no_prefix("-L"@, word, 0);
    lemma_no_prefix("--extern="@, word, 0);
    lemma_no_prefix("-Z"@, word, 0);
    lemma_no_prefix("-C"@, word, 0);
    lemma_no_prefix("-Clink-arg="@, word, 0);
    lemma_no_prefix("-Clink-args="@, word, 0);
    lemma_no_prefix("-Csave-temps="@, word, 0);
    lemma_no_prefix("--emit="@, word, 0);
}

/// The flags of pairs that the cache does not mind keep nothing out by
/// themselves.
proof fn lemma_pair_flags()
    ensures
        !argument_disqualifies("--extern"@),
        !argument_disqualifies("-L"@),
        !"--emit="@.is_prefix_of("--extern"@),
        !"--emit="@.is_prefix_of("-L"@),
        !"--emit="@.is_prefix_of("-C"@),
        !"--target="@.is_prefix_of("--extern"@),
        !"--target="@.is_prefix_of("-L"@),
        !"--target="@.is_prefix_of("-C"@),
{
    reveal_strlit("--crate-type=");
    reveal_strlit("--out-dir=");
    reveal_strlit("--print=");
    reveal_strlit("--pretty=");
    reveal_strlit("--unpretty=");
    reveal_strlit("--target=");
    reveal_strlit("--sysroot=");
    reveal_strlit("-Zunpretty=");
    reveal_strlit("-o");
    reveal_strlit("@");
    reveal_strlit("-l");
    reveal_strlit("-L");
    reveal_strlit("--extern=");
    reveal_strlit("-Z");
    reveal_strlit("--print");
    reveal_strlit("--pretty");
    reveal_strlit("--unpretty");
    reveal_strlit("--test");
    reveal_strlit("-C");
    reveal_strlit("link-arg=");
    reveal_strlit("link-args=");
    reveal_strlit("-Clink-arg=");
    reveal_strlit("-Clink-args=");
    reveal_strlit("-Csave-temps");
    reveal_strlit("-Csave-temps=");
    reveal_strlit("--extern");
    reveal_strlit("--emit=");
    lemma_no_prefix("--crate-type="@, "--extern"@, 2);
    lemma_no_prefix("--out-dir="@, "--extern"@, 2);
    lemma_no_prefix("--print="@, "--extern"@, 2);
    lemma_no_prefix("--pretty="@, "--extern"@, 2);
    lemma_no_prefix("--unpretty="@, "--extern"@, 2);
    lemma_no_prefix("--target="@, "--extern"@, 2);
    lemma_no_prefix("--sysroot="@, "--extern"@, 2);
    lemma_no_prefix("-Zunpretty="@, "--extern"@, 1);
    lemma_no_prefix("-o"@, "--extern"@, 1);
    lemma_no_prefix("@"@, "--extern"@, 0);
    lemma_no_prefix("-l"@, "--extern"@, 1);
    lemma_no_prefix("-L"@, "--extern"@, 1);
    lemma_no_prefix("--extern="@, "--extern"@, 8);
    lemma_no_prefix("-Z"@, "--extern"@, 1);
    lemma_no_prefix("-C"@, "--extern"@, 1);
    lemma_no_prefix("link-arg="@, "--extern"@, 0);
    lemma_no_prefix("link-args="@, "--extern"@, 0);
    lemma_no_prefix("-Clink-arg="@, "--extern"@, 1);
    lemma_no_prefix("-Clink-args="@, "--extern"@, 1);
    lemma_no_prefix("-Csave-temps="@, "--extern"@, 1);
    lemma_no_prefix("--emit="@, "--extern"@, 3);
    lemma_no_prefix("--crate-type="@, "-L"@, 1);
    lemma_no_prefix("--out-dir="@, "-L"@, 1);
    lemma_no_prefix("--print="@, "-L"@, 1);
    lemma_no_prefix("--pretty="@, "-L"@, 1);
    lemma_no_prefix("--unpretty="@, "-L"@, 1);
    lemma_no_prefix("--target="@, "-L"@, 1);
    lemma_no_prefix("--sysroot="@, "-L"@, 1);
    lemma_no_prefix("-Zunpretty="@, "-L"@, 1);
    lemma_no_prefix("-o"@, "-L"@, 1);
    lemma_no_prefix("@"@, "-L"@, 0);
    lemma_no_prefix("-l"@, "-L"@, 1);
    lemma_no_prefix("--extern="@, "-L"@, 1);
    lemma_no_prefix("-Z"@, "-L"@, 1);
    lemma_no_prefix("-C"@, "-L"@, 1);
    lemma_no_prefix("link-arg="@, "-L"@, 0);
    lemma_no_prefix("link-args="@, "-L"@, 0);
    lemma_no_prefix("-Clink-arg="@, "-L"@, 1);
    lemma_no_prefix("-Clink-args="@, "-L"@, 1);
    lemma_no_prefix("-Csave-temps="@, "-L"@, 1);
    lemma_no_prefix("--emit="@, "-L"@, 1);
    lemma_no_prefix("--emit="@, "-C"@, 1);
    lemma_no_prefix("--target="@, "-C"@, 1);
}

/// An argument that begins with `--edition=` keeps nothing out.
proof fn lemma_edition(text: Seq<char>)
    requires
        "--edition="@.is_prefix_of(text),
    ensures
        !argument_disqualifies(text),
        !takes_operand(text),
        !"--emit="@.is_prefix_of(text),
        !"--target="@.is_prefix_of(text),
{
    reveal_strlit("--edition=");
    reveal_strlit("--crate-type=");
    reveal_strlit("--out-dir=");
    reveal_strlit("--print=");
    reveal_strlit("--pretty=");
    reveal_strlit("--unpretty=");
    reveal_strlit("--target=");
    reveal_strlit("--sysroot=");
    reveal_strlit("-Zunpretty=");
    reveal_strlit("-o");
    reveal_strlit("@");
    reveal_strlit("-l");
    reveal_strlit("-L");
    reveal_strlit("--extern=");
    reveal_strlit("-Z");
    reveal_strlit("--print");
    reveal_strlit("--pretty");
    reveal_strlit("--unpretty");
    reveal_strlit("--test");
    reveal_strlit("-C");
    reveal_strlit("link-arg=");
    reveal_strlit("link-args=");
    reveal_strlit("-Clink-arg=");
    reveal_strlit("-Clink-args=");
    reveal_strlit("-Csave-temps");
    reveal_strlit("-Csave-temps=");
    reveal_strlit("--emit=");
    reveal_strlit("--crate-type");
    reveal_strlit("--out-dir");
    reveal_strlit("--target");
    reveal_strlit("--emit");
    reveal_strlit("--sysroot");
    reveal_strlit("--extern");
    let start = "--edition="@;
    assert forall|k: int| 0 <= k < start.len() implies text[k] == start[k] by {
        assert(text.subrange(0, start.len() as int)[k] == text[k]);
    }
    lemma_no_prefix("--crate-type="@, text, 2);
    lemma_no_prefix("--out-dir="@, text, 2);
    lemma_no_prefix("--print="@, text, 2);
    lemma_no_prefix("--pretty="@, text, 2);
    lemma_no_prefix("--unpretty="@, text, 2);
    lemma_no_prefix("--target="@, text, 2);
    lemma_no_prefix("--sysroot="@, text, 2);
    lemma_no_prefix("-Zunpretty="@, text, 1);
    lemma_no_prefix("-o"@, text, 1);
    lemma_no_prefix("@"@, text, 0);
    lemma_no_prefix("-l"@, text, 1);
    lemma_no_prefix("-L"@, text, 1);
    lemma_no_prefix("--extern="@, text, 3);
    lemma_no_prefix("-Z"@, text, 1);
    lemma_no_prefix("-C"@, text, 1);
    lemma_no_prefix("link-arg="@, text, 0);
    lemma_no_prefix("link-args="@, text, 0);
    lemma_no_prefix("-Clink-arg="@, text, 1);
    lemma_no_prefix("-Clink-args="@, text, 1);
    lemma_no_prefix("-Csave-temps="@, text, 1);
    lemma_no_prefix("--emit="@, text, 3);
    assert(text[2] == 'e' && text[3] == 'd');
}

/// An argument that begins with `--cfg` keeps nothing out.
proof fn lemma_condition(text: Seq<char>)
    requires
        "--cfg"@.is_prefix_of(text),
    ensures
        !argument_disqualifies(text),
        !takes_operand(text),
        !"--emit="@.is_prefix_of(text),
        !"--target="@.is_prefix_of(text),
{
    reveal_strlit("--cfg");
    reveal_strlit("--crate-type=");
    reveal_strlit("--out-dir=");
    reveal_strlit("--print=");
    reveal_strlit("--pretty=");
    reveal_strlit("--unpretty=");
    reveal_strlit("--target=");
    reveal_strlit("--sysroot=");
    reveal_strlit("-Zunpretty=");
    reveal_strlit("-o");
    reveal_strlit("@");
    reveal_strlit("-l");
    reveal_strlit("-L");
    reveal_strlit("--extern=");
    reveal_strlit("-Z");
    reveal_strlit("--print");
    reveal_strlit("--pretty");
    reveal_strlit("--unpretty");
    reveal_strlit("--test");
    reveal_strlit("-C");
    reveal_strlit("link-arg=");
    reveal_strlit("link-args=");
    reveal_strlit("-Clink-arg=");
    reveal_strlit("-Clink-args=");
    reveal_strlit("-Csave-temps");
    reveal_strlit("-Csave-temps=");
    reveal_strlit("--emit=");
    reveal_strlit("--crate-type");
    reveal_strlit("--out-dir");
    reveal_strlit("--target");
    reveal_strlit("--emit");
    reveal_strlit("--sysroot");
    reveal_strlit("--extern");
    let start = "--cfg"@;
    assert forall|k: int| 0 <= k < start.len() implies text[k] == start[k] by {
        assert(text.subrange(0, start.len() as int)[k] == text[k]);
    }
    lemma_no_prefix("--crate-type="@, text, 3);
    lemma_no_prefix("--out-dir="@, text, 2);
    lemma_no_prefix("--print="@, text, 2);
    lemma_no_prefix("--pretty="@, text, 2);
    lemma_no_prefix("--unpretty="@, text, 2);
    lemma_no_prefix("--target="@, text, 2);
    lemma_no_prefix("--sysroot="@, text, 2);
    lemma_no_prefix("-Zunpretty="@, text, 1);
    lemma_no_prefix("-o"@, text, 1);
    lemma_no_prefix("@"@, text, 0);
    lemma_no_prefix("-l"@, text, 1);
    lemma_no_prefix("-L"@, text, 1);
    lemma_no_prefix("--extern="@, text, 2);
    lemma_no_prefix("-Z"@, text, 1);
    lemma_no_prefix("-C"@, text, 1);
    lemma_no_prefix("link-arg="@, text, 0);
    lemma_no_prefix("link-args="@, text, 0);
    lemma_no_prefix("-Clink-arg="@, text, 1);
    lemma_no_prefix("-Clink-args="@, text, 1);
    lemma_no_prefix("-Csave-temps="@, text, 1);
    lemma_no_prefix("--emit="@, text, 2);
    assert(text[2] == 'c' && text[3] == 'f');
}

/// Arguments one behind the other, the first of which say nothing of the second.
proof fn lemma_operands_concat(left: Seq<Seq<char>>, right: Seq<Seq<char>>, flag: Seq<char>)
    requires
        left.len() == 0 || left.last() != flag,
    ensures
        operands(left + right, flag) == operands(left, flag) + operands(right, flag),
    decreases right.len(),
{
    let all = left + right;
    if right.len() == 0 {
        assert(all =~= left);
        assert(operands(left, flag) + operands(right, flag) =~= operands(left, flag));
    } else {
        let rest = right.drop_last();
        lemma_operands_concat(left, rest, flag);
        assert(all.drop_last() =~= left + rest);
        assert(all.last() == right.last());
        let n = all.len() as int;
        if right.len() == 1 {
            if left.len() > 0 {
                assert(all[n - 2] == left.last());
            }
            assert(operands(right, flag) =~= Seq::empty());
            assert(operands(rest, flag) =~= Seq::empty());
        } else {
            assert(all[n - 2] == right[right.len() - 2]);
            assert((operands(left, flag) + operands(rest, flag)).push(right.last()) =~= operands(
                left,
                flag,
            ) + operands(rest, flag).push(right.last()));
        }
    }
}

/// Arguments one behind the other.
proof fn lemma_compact_concat(left: Seq<Seq<char>>, right: Seq<Seq<char>>, prefix: Seq<char>)
    ensures
        compact_operands(left + right, prefix) == compact_operands(left, prefix)
            + compact_operands(right, prefix),
    decreases right.len(),
{
    let all = left + right;
    if right.len() == 0 {
        assert(all =~= left);
        assert(compact_operands(left, prefix) + compact_operands(right, prefix)
            =~= compact_operands(left, prefix));
    } else {
        let rest = right.drop_last();
        lemma_compact_concat(left, rest, prefix);
        assert(all.drop_last() =~= left + rest);
        assert(all.last() == right.last());
        if let Some(operand) = after_prefix(right.last(), prefix) {
            assert((compact_operands(left, prefix) + compact_operands(rest, prefix)).push(operand)
                =~= compact_operands(left, prefix) + compact_operands(rest, prefix).push(operand));
        }
    }
}

/// Arguments one behind the other, the first of which say nothing of the second,
/// keep nothing out where neither do.
proof fn lemma_nothing_concat(
    left: Seq<Seq<char>>,
    right: Seq<Seq<char>>,
    modeled: Seq<Seq<u8>>,
    profile: Seq<u8>,
)
    requires
        ends_complete(left),
    ensures
        nothing_disqualifies(left + right, modeled, profile) == (nothing_disqualifies(
            left,
            modeled,
            profile,
        ) && nothing_disqualifies(right, modeled, profile)),
{
    let all = left + right;
    let m = left.len() as int;
    if nothing_disqualifies(all, modeled, profile) {
        assert forall|i: int| 0 <= i < left.len() implies !argument_disqualifies(
            #[trigger] left[i],
        ) by {
            assert(all[i] == left[i]);
        }
        assert forall|i: int, j: int|
            0 <= i < left.len() && j == i + 1 && j < left.len() implies !pair_disqualifies(
            #[trigger] left[i],
            #[trigger] left[j],
            modeled,
            profile,
        ) by {
            assert(all[i] == left[i] && all[j] == left[j]);
        }
        assert forall|i: int| 0 <= i < right.len() implies !argument_disqualifies(
            #[trigger] right[i],
        ) by {
            assert(all[i + m] == right[i]);
        }
        assert forall|i: int, j: int|
            0 <= i < right.len() && j == i + 1 && j < right.len() implies !pair_disqualifies(
            #[trigger] right[i],
            #[trigger] right[j],
            modeled,
            profile,
        ) by {
            assert(all[i + m] == right[i] && all[j + m] == right[j]);
        }
    }
    if nothing_disqualifies(left, modeled, profile) && nothing_disqualifies(
        right,
        modeled,
        profile,
    ) {
        assert forall|i: int| 0 <= i < all.len() implies !argument_disqualifies(
            #[trigger] all[i],
        ) by {
            if i < m {
                assert(all[i] == left[i]);
            } else {
                assert(all[i] == right[i - m]);
            }
        }
        assert forall|i: int, j: int|
            0 <= i < all.len() && j == i + 1 && j < all.len() implies !pair_disqualifies(
            #[trigger] all[i],
            #[trigger] all[j],
            modeled,
            profile,
        ) by {
            if j < m {
                assert(all[i] == left[i] && all[j] == left[j]);
            } else if i >= m {
                assert(all[i] == right[i - m] && all[j] == right[j - m]);
            } else {
                assert(all[i] == left.last());
                lemma_no_pair(all[i], all[j], modeled, profile);
            }
        }
    }
}

/// Arguments that the cache does not mind keep nothing out, say nothing of what
/// is behind them, and take no part in what is compiled.
#[verifier::rlimit(40)]
proof fn lemma_harmless(
    list: Seq<Seq<char>>,
    modeled: Seq<Seq<u8>>,
    profile: Seq<u8>,
)
    requires
        are_harmless(list, modeled, profile),
    ensures
        nothing_disqualifies(list, modeled, profile),
        ends_complete(list),
        operands(list, "--crate-type"@).len() == 0,
        operands(list, "--out-dir"@).len() == 0,
        operands(list, "--target"@).len() == 0,
        compact_operands(list, "--emit="@).len() == 0,
        compact_operands(list, "--target="@).len() == 0,
{
    reveal_strlit("--crate-type");
    reveal_strlit("--out-dir");
    reveal_strlit("--target");
    reveal_strlit("--extern");
    reveal_strlit("--emit");
    reveal_strlit("--sysroot");
    reveal_strlit("-L");
    reveal_strlit("-C");
    reveal_strlit("-Z");
    assert("-C"@[1] == 'C' && "-L"@[1] == 'L' && "-Z"@[1] == 'Z');
    assert("-C"@.len() == 2 && "-L"@.len() == 2 && "-Z"@.len() == 2);
    assert("--extern"@.len() == 8 && "--extern"@[2] == 'e' && "--target"@[2] == 't');
    assert("--emit"@.len() == 6 && "--sysroot"@.len() == 9);
    assert("--crate-type"@.len() == 12 && "--out-dir"@.len() == 9);
    lemma_pair_flags();
    lemma_flag_verdict();
    let rest = list.drop_last();
    if list.len() == 1 {
        let text = list[0];
        if is_plain_word(text) {
            lemma_plain_word(text);
        } else if "--edition="@.is_prefix_of(text) {
            lemma_edition(text);
        } else {
            lemma_condition(text);
        }
        assert(!"--target="@.is_prefix_of(text));
        assert(list.last() == text);
        assert(rest =~= Seq::empty());
        assert(compact_operands(rest, "--emit="@).len() == 0);
        assert(compact_operands(rest, "--target="@).len() == 0);
    } else {
        let word = list[1];
        lemma_plain_word(word);
        lemma_uncovered(word);
        assert(list.last() == word);
        assert(rest =~= seq![list[0]]);
        assert(rest.drop_last() =~= Seq::empty());
        assert(rest.last() == list[0]);
        assert(compact_operands(rest.drop_last(), "--emit="@).len() == 0);
        assert(compact_operands(rest.drop_last(), "--target="@).len() == 0);
        assert(compact_operands(rest, "--emit="@).len() == 0);
        assert(compact_operands(rest, "--target="@).len() == 0);
        assert(operands(rest, "--crate-type"@).len() == 0);
        assert(operands(rest, "--out-dir"@).len() == 0);
        assert(operands(rest, "--target"@).len() == 0);
        if list[0] == "-L"@ && !word.contains('=') {
            lemma_first_at(word, '=');
            assert(search_directory(word) == word) by {
                let at = first_at(word, '=');
                if at < word.len() {
                    assert(word.contains(word[at]));
                }
            }
        }
        assert(!pair_disqualifies(list[0], list[1], modeled, profile));
        assert forall|i: int| 0 <= i < list.len() implies !argument_disqualifies(
            #[trigger] list[i],
        ) by {
            if i == 1 {
                assert(list[i] == word);
            }
        }
    }
}

/// Arguments that the cache does not mind do not matter: an invocation with them
/// is admitted where it is without them.
#[verifier::rlimit(40)]
pub proof fn law_harmless_arguments_do_not_matter(
    left: &Command,
    right: &Command,
    before: Seq<Seq<char>>,
    middle: Seq<Seq<char>>,
    after: Seq<Seq<char>>,
    output_root: Seq<u8>,
    action_program: Seq<u8>,
    compiler_program: Seq<u8>,
    host_triple: Seq<char>,
    modeled_search_paths: Seq<Seq<u8>>,
)
    requires
        same_but_arguments(left, right),
        all_text(left.argument_list()) == all_text(right.argument_list()),
        lossy_list(left.argument_list()) == before + after,
        lossy_list(right.argument_list()) == before + middle + after,
        ends_complete(before),
        are_harmless(middle, modeled_search_paths, parent_or_self(output_root)),
    ensures
        is_cacheable(
            left,
            output_root,
            action_program,
            compiler_program,
            host_triple,
            modeled_search_paths,
        ) == is_cacheable(
            right,
            output_root,
            action_program,
            compiler_program,
            host_triple,
            modeled_search_paths,
        ),
{
    let modeled = modeled_search_paths;
    let profile = parent_or_self(output_root);
    lemma_harmless(middle, modeled, profile);
    let front = before + middle;
    assert(ends_complete(front)) by {
        assert(front.last() == middle.last());
    }
    lemma_nothing_concat(before, after, modeled, profile);
    lemma_nothing_concat(before, middle, modeled, profile);
    lemma_nothing_concat(front, after, modeled, profile);
    lemma_beside(before, middle, after, "--crate-type"@);
    lemma_beside(before, middle, after, "--out-dir"@);
    lemma_beside(before, middle, after, "--target"@);
    lemma_compact_beside(before, middle, after, "--emit="@);
    lemma_compact_beside(before, middle, after, "--target="@);
    assert(left.is_text() == right.is_text());
}

/// What has no operands takes no part in them.
proof fn lemma_beside(
    before: Seq<Seq<char>>,
    middle: Seq<Seq<char>>,
    after: Seq<Seq<char>>,
    flag: Seq<char>,
)
    requires
        ends_complete(before),
        ends_complete(middle),
        middle.len() > 0,
        takes_operand(flag),
        operands(middle, flag).len() == 0,
    ensures
        operands(before + middle + after, flag) == operands(before + after, flag),
{
    lemma_operands_concat(before, after, flag);
    lemma_operands_concat(before, middle, flag);
    assert((before + middle).last() == middle.last());
    lemma_operands_concat(before + middle, after, flag);
    assert(operands(before, flag) + operands(middle, flag) =~= operands(before, flag));
}

/// What has no compact operands takes no part in them.
proof fn lemma_compact_beside(
    before: Seq<Seq<char>>,
    middle: Seq<Seq<char>>,
    after: Seq<Seq<char>>,
    prefix: Seq<char>,
)
    requires
        compact_operands(middle, prefix).len() == 0,
    ensures
        compact_operands(before + middle + after, prefix) == compact_operands(
            before + after,
            prefix,
        ),
{
    lemma_compact_concat(before, after, prefix);
    lemma_compact_concat(before, middle, prefix);
    lemma_compact_concat(before + middle, after, prefix);
    assert(compact_operands(before, prefix) + compact_operands(middle, prefix)
        =~= compact_operands(before, prefix));
}

/// Whether an invocation runs in an environment that the key covers, and only
/// holds text.
pub open spec fn runs_cleanly(
    rustc: &Command,
    action_program: Seq<u8>,
    compiler_program: Seq<u8>,
) -> bool {
    &&& rustc.is_text()
    &&& rustc.wrappers@.len() == 0
    &&& components(action_program) == components(compiler_program)
    &&& explicit_setting(rustc.setting_list(), "PATH"@) is None
    &&& forall|name: Seq<char>| #[trigger] reads_variable(name) ==> rustc.effective(name) is None
    &&& forall|name: Seq<char>|
        "CG_GCCJIT_"@.is_prefix_of(name) ==> #[trigger] rustc.effective(name) is None
    &&& rustc.effective("SLD_RUSTC_WORK_PRODUCT_PROVENANCE"@) is None
}

/// An invocation that compiles one library into a directory, and nothing else,
/// is admitted. With the arguments that do not matter, all that an ordinary
/// library is compiled with is.
#[verifier::rlimit(40)]
pub proof fn law_plain_libraries_are_admitted(
    rustc: &Command,
    emit: Seq<char>,
    directory: Seq<char>,
    output_root: Seq<u8>,
    action_program: Seq<u8>,
    compiler_program: Seq<u8>,
    host_triple: Seq<char>,
    modeled_search_paths: Seq<Seq<u8>>,
)
    requires
        runs_cleanly(rustc, action_program, compiler_program),
        !stands_in(host_triple, "-windows-gnu"@),
        emit == "dep-info,metadata"@ || emit == "dep-info,link"@ || emit
            == "dep-info,metadata,link"@,
        is_plain_word(directory),
        lossy_list(rustc.argument_list()) == seq![
            "--crate-type"@,
            "lib"@,
            "--emit="@ + emit,
            "--out-dir"@,
            directory,
        ],
    ensures
        is_cacheable(
            rustc,
            output_root,
            action_program,
            compiler_program,
            host_triple,
            modeled_search_paths,
        ),
{
    let list = lossy_list(rustc.argument_list());
    let profile = parent_or_self(output_root);
    let all = unmodeled_variables();
    assert forall|i: int| 0 <= i < all.len() implies rustc.effective(#[trigger] all[i]) is None by {
        assert(reads_variable(all[i]));
    }
    assert(!sees_backend_variable(rustc)) by {
        if exists|i: int|
            0 <= i < rustc.setting_list().len() && is_backend_setting(
                rustc,
                (#[trigger] rustc.setting_list()[i]).0,
            ) {
            let i = choose|i: int|
                0 <= i < rustc.setting_list().len() && is_backend_setting(
                    rustc,
                    (#[trigger] rustc.setting_list()[i]).0,
                );
            assert(rustc.effective(rustc.setting_list()[i].0) is None);
        }
    }
    lemma_minimal_operands(list, emit, directory);
    lemma_minimal_modeled(list, emit, directory, modeled_search_paths, profile);
}

/// The operands of an invocation that compiles one library.
proof fn lemma_minimal_operands(list: Seq<Seq<char>>, emit: Seq<char>, directory: Seq<char>)
    requires
        is_plain_word(directory),
        list == seq!["--crate-type"@, "lib"@, "--emit="@ + emit, "--out-dir"@, directory],
    ensures
        operands(list, "--crate-type"@) == seq!["lib"@],
        operands(list, "--out-dir"@) == seq![directory],
        operands(list, "--target"@).len() == 0,
        compact_operands(list, "--emit="@) == seq![emit],
        compact_operands(list, "--target="@).len() == 0,
{
    reveal_strlit("--crate-type");
    reveal_strlit("--out-dir");
    reveal_strlit("--target");
    reveal_strlit("--target=");
    reveal_strlit("--emit=");
    reveal_strlit("lib");
    lemma_plain_word(directory);
    let a = seq!["--crate-type"@, "lib"@];
    let b = seq!["--emit="@ + emit];
    let c = seq!["--out-dir"@, directory];
    assert(list =~= a + b + c);
    let text = "--emit="@ + emit;
    assert(text[2] == 'e');
    assert(text.skip(7) =~= emit);
    assert("--emit="@ =~= text.subrange(0, 7));
    assert("lib"@[0] == 'l');
    assert("--crate-type"@[2] == 'c' && "--out-dir"@[2] == 'o' && "--target"@[2] == 't');
    assert("--crate-type"@.len() == 12 && "--out-dir"@.len() == 9 && "--target"@.len() == 8);
    lemma_pair_operands("--crate-type"@, "lib"@, "--crate-type"@);
    lemma_pair_operands("--crate-type"@, "lib"@, "--out-dir"@);
    lemma_pair_operands("--crate-type"@, "lib"@, "--target"@);
    lemma_pair_operands("--out-dir"@, directory, "--crate-type"@);
    lemma_pair_operands("--out-dir"@, directory, "--out-dir"@);
    lemma_pair_operands("--out-dir"@, directory, "--target"@);
    assert(a.last() == "lib"@);
    assert((a + b).last() == text);
    lemma_operands_concat(a, b, "--crate-type"@);
    lemma_operands_concat(a, b, "--out-dir"@);
    lemma_operands_concat(a, b, "--target"@);
    lemma_operands_concat(a + b, c, "--crate-type"@);
    lemma_operands_concat(a + b, c, "--out-dir"@);
    lemma_operands_concat(a + b, c, "--target"@);
    assert(operands(b, "--crate-type"@) =~= Seq::empty());
    assert(operands(b, "--out-dir"@) =~= Seq::empty());
    assert(operands(b, "--target"@) =~= Seq::empty());
    assert(operands(list, "--crate-type"@) =~= seq!["lib"@]);
    assert(operands(list, "--out-dir"@) =~= seq![directory]);
    lemma_no_prefix("--emit="@, "--crate-type"@, 2);
    lemma_no_prefix("--emit="@, "--out-dir"@, 2);
    lemma_no_prefix("--emit="@, "lib"@, 0);
    lemma_no_prefix("--target="@, "--crate-type"@, 2);
    lemma_no_prefix("--target="@, "--out-dir"@, 2);
    lemma_no_prefix("--target="@, "lib"@, 0);
    lemma_no_prefix("--target="@, text, 2);
    lemma_pair_compact("--crate-type"@, "lib"@, "--emit="@);
    lemma_pair_compact("--out-dir"@, directory, "--emit="@);
    lemma_pair_compact("--crate-type"@, "lib"@, "--target="@);
    lemma_pair_compact("--out-dir"@, directory, "--target="@);
    lemma_compact_concat(a, b, "--emit="@);
    lemma_compact_concat(a + b, c, "--emit="@);
    lemma_compact_concat(a, b, "--target="@);
    lemma_compact_concat(a + b, c, "--target="@);
    assert(b.drop_last() =~= Seq::empty());
    assert(b.last() == text);
    assert(compact_operands(b.drop_last(), "--emit="@) =~= Seq::empty());
    assert(compact_operands(b.drop_last(), "--target="@) =~= Seq::empty());
    assert(compact_operands(b, "--emit="@) =~= seq![emit]);
    assert(compact_operands(list, "--emit="@) =~= seq![emit]);
}

/// The operands of a flag and a word.
proof fn lemma_pair_operands(first: Seq<char>, second: Seq<char>, flag: Seq<char>)
    ensures
        operands(seq![first, second], flag) == if first == flag {
            seq![second]
        } else {
            Seq::empty()
        },
{
    let list = seq![first, second];
    assert(list.drop_last() =~= seq![first]);
    assert(operands(seq![first], flag) =~= Seq::empty());
    assert(operands(list, flag) =~= if first == flag {
        seq![second]
    } else {
        Seq::empty()
    });
}

/// The compact operands of two texts without the prefix.
proof fn lemma_pair_compact(first: Seq<char>, second: Seq<char>, prefix: Seq<char>)
    requires
        !prefix.is_prefix_of(first),
        !prefix.is_prefix_of(second),
    ensures
        compact_operands(seq![first, second], prefix) == Seq::<Seq<char>>::empty(),
{
    let list = seq![first, second];
    let rest = seq![first];
    assert(list.drop_last() =~= rest);
    assert(rest.drop_last() =~= Seq::empty());
    assert(compact_operands(rest.drop_last(), prefix) =~= Seq::empty());
    assert(compact_operands(rest, prefix) =~= Seq::empty());
    assert(compact_operands(list, prefix) =~= Seq::empty());
}

/// Nothing keeps out an invocation that compiles one library.
#[verifier::rlimit(40)]
proof fn lemma_minimal_modeled(
    list: Seq<Seq<char>>,
    emit: Seq<char>,
    directory: Seq<char>,
    modeled: Seq<Seq<u8>>,
    profile: Seq<u8>,
)
    requires
        is_plain_word(directory),
        list == seq!["--crate-type"@, "lib"@, "--emit="@ + emit, "--out-dir"@, directory],
    ensures
        nothing_disqualifies(list, modeled, profile),
{
    reveal_strlit("--crate-type=");
    reveal_strlit("--out-dir=");
    reveal_strlit("--print=");
    reveal_strlit("--pretty=");
    reveal_strlit("--unpretty=");
    reveal_strlit("--target=");
    reveal_strlit("--sysroot=");
    reveal_strlit("-Zunpretty=");
    reveal_strlit("-o");
    reveal_strlit("@");
    reveal_strlit("-l");
    reveal_strlit("-L");
    reveal_strlit("--extern=");
    reveal_strlit("-Z");
    reveal_strlit("--print");
    reveal_strlit("--pretty");
    reveal_strlit("--unpretty");
    reveal_strlit("--test");
    reveal_strlit("-C");
    reveal_strlit("link-arg=");
    reveal_strlit("link-args=");
    reveal_strlit("-Clink-arg=");
    reveal_strlit("-Clink-args=");
    reveal_strlit("-Csave-temps");
    reveal_strlit("-Csave-temps=");
    reveal_strlit("--crate-type");
    reveal_strlit("lib");
    reveal_strlit("--out-dir");
    reveal_strlit("--emit=");
    reveal_strlit("--emit");
    reveal_strlit("--target");
    reveal_strlit("--sysroot");
    reveal_strlit("--extern");
    lemma_plain_word(directory);
    let text = "--emit="@ + emit;
    assert forall|k: int| 0 <= k < 7 implies text[k] == "--emit="@[k] by {}
    assert("--emit="@[2] == 'e' && "--emit="@[3] == 'm' && "--emit="@[6] == '=');
    lemma_no_prefix("--crate-type="@, text, 2);
    lemma_no_prefix("--out-dir="@, text, 2);
    lemma_no_prefix("--print="@, text, 2);
    lemma_no_prefix("--pretty="@, text, 2);
    lemma_no_prefix("--unpretty="@, text, 2);
    lemma_no_prefix("--target="@, text, 2);
    lemma_no_prefix("--sysroot="@, text, 2);
    lemma_no_prefix("-Zunpretty="@, text, 1);
    lemma_no_prefix("-o"@, text, 1);
    lemma_no_prefix("@"@, text, 0);
    lemma_no_prefix("-l"@, text, 1);
    lemma_no_prefix("-L"@, text, 1);
    lemma_no_prefix("--extern="@, text, 3);
    lemma_no_prefix("-Z"@, text, 1);
    lemma_no_prefix("-C"@, text, 1);
    lemma_no_prefix("link-arg="@, text, 0);
    lemma_no_prefix("link-args="@, text, 0);
    lemma_no_prefix("-Clink-arg="@, text, 1);
    lemma_no_prefix("-Clink-args="@, text, 1);
    lemma_no_prefix("-Csave-temps="@, text, 1);
    lemma_no_prefix("--crate-type="@, "--crate-type"@, 12);
    lemma_no_prefix("--out-dir="@, "--crate-type"@, 2);
    lemma_no_prefix("--print="@, "--crate-type"@, 2);
    lemma_no_prefix("--pretty="@, "--crate-type"@, 2);
    lemma_no_prefix("--unpretty="@, "--crate-type"@, 2);
    lemma_no_prefix("--target="@, "--crate-type"@, 2);
    lemma_no_prefix("--sysroot="@, "--crate-type"@, 2);
    lemma_no_prefix("-Zunpretty="@, "--crate-type"@, 1);
    lemma_no_prefix("-o"@, "--crate-type"@, 1);
    lemma_no_prefix("@"@, "--crate-type"@, 0);
    lemma_no_prefix("-l"@, "--crate-type"@, 1);
    lemma_no_prefix("-L"@, "--crate-type"@, 1);
    lemma_no_prefix("--extern="@, "--crate-type"@, 2);
    lemma_no_prefix("-Z"@, "--crate-type"@, 1);
    lemma_no_prefix("-C"@, "--crate-type"@, 1);
    lemma_no_prefix("link-arg="@, "--crate-type"@, 0);
    lemma_no_prefix("link-args="@, "--crate-type"@, 0);
    lemma_no_prefix("-Clink-arg="@, "--crate-type"@, 1);
    lemma_no_prefix("-Clink-args="@, "--crate-type"@, 1);
    lemma_no_prefix("-Csave-temps="@, "--crate-type"@, 1);
    lemma_no_prefix("--crate-type="@, "lib"@, 0);
    lemma_no_prefix("--out-dir="@, "lib"@, 0);
    lemma_no_prefix("--print="@, "lib"@, 0);
    lemma_no_prefix("--pretty="@, "lib"@, 0);
    lemma_no_prefix("--unpretty="@, "lib"@, 0);
    lemma_no_prefix("--target="@, "lib"@, 0);
    lemma_no_prefix("--sysroot="@, "lib"@, 0);
    lemma_no_prefix("-Zunpretty="@, "lib"@, 0);
    lemma_no_prefix("-o"@, "lib"@, 0);
    lemma_no_prefix("@"@, "lib"@, 0);
    lemma_no_prefix("-l"@, "lib"@, 0);
    lemma_no_prefix("-L"@, "lib"@, 0);
    lemma_no_prefix("--extern="@, "lib"@, 0);
    lemma_no_prefix("-Z"@, "lib"@, 0);
    lemma_no_prefix("-C"@, "lib"@, 0);
    lemma_no_prefix("link-arg="@, "lib"@, 2);
    lemma_no_prefix("link-args="@, "lib"@, 2);
    lemma_no_prefix("-Clink-arg="@, "lib"@, 0);
    lemma_no_prefix("-Clink-args="@, "lib"@, 0);
    lemma_no_prefix("-Csave-temps="@, "lib"@, 0);
    lemma_no_prefix("--crate-type="@, "--out-dir"@, 2);
    lemma_no_prefix("--out-dir="@, "--out-dir"@, 9);
    lemma_no_prefix("--print="@, "--out-dir"@, 2);
    lemma_no_prefix("--pretty="@, "--out-dir"@, 2);
    lemma_no_prefix("--unpretty="@, "--out-dir"@, 2);
    lemma_no_prefix("--target="@, "--out-dir"@, 2);
    lemma_no_prefix("--sysroot="@, "--out-dir"@, 2);
    lemma_no_prefix("-Zunpretty="@, "--out-dir"@, 1);
    lemma_no_prefix("-o"@, "--out-dir"@, 1);
    lemma_no_prefix("@"@, "--out-dir"@, 0);
    lemma_no_prefix("-l"@, "--out-dir"@, 1);
    lemma_no_prefix("-L"@, "--out-dir"@, 1);
    lemma_no_prefix("--extern="@, "--out-dir"@, 2);
    lemma_no_prefix("-Z"@, "--out-dir"@, 1);
    lemma_no_prefix("-C"@, "--out-dir"@, 1);
    lemma_no_prefix("link-arg="@, "--out-dir"@, 0);
    lemma_no_prefix("link-args="@, "--out-dir"@, 0);
    lemma_no_prefix("-Clink-arg="@, "--out-dir"@, 1);
    lemma_no_prefix("-Clink-args="@, "--out-dir"@, 1);
    lemma_no_prefix("-Csave-temps="@, "--out-dir"@, 1);
    assert(text.len() >= 7 && text[0] == '-' && text[1] == '-' && text[2] == 'e' && text[3] == 'm'
        && text[6] == '=');
    assert("--crate-type"@[2] == 'c' && "--out-dir"@[2] == 'o' && "lib"@[0] == 'l');
    assert(!argument_disqualifies("--crate-type"@));
    assert(!argument_disqualifies("lib"@));
    assert(!argument_disqualifies(text));
    assert(!argument_disqualifies("--out-dir"@));
    assert("--emit"@.len() == 6 && "--extern"@.len() == 8 && "--target"@.len() == 8
        && "--sysroot"@.len() == 9);
    assert("-C"@.len() == 2 && "-L"@.len() == 2 && "-Z"@.len() == 2);
    assert("--sysroot"@[2] == 's' && "--extern"@[3] == 'x' && "--target"@[2] == 't');
    assert forall|i: int| 0 <= i < list.len() implies !argument_disqualifies(#[trigger] list[i]) by {}
    assert forall|i: int, j: int| 0 <= i < list.len() && j == i + 1 && j < list.len() implies
        !pair_disqualifies(#[trigger] list[i], #[trigger] list[j], modeled, profile) by {}
}

} // verus!
