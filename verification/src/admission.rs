//! Which compiler invocations the cache may stand in for.

use vstd::prelude::*;
use vstd::string::*;
use vstd::utf8::*;

use crate::bytes::bytes_equal;
use crate::bytes::utf8;
use crate::command::explicit_setting;
use crate::command::lossy_list;
use crate::command::Command;
use crate::digest::text_from_utf8;
use crate::stats::IneligibleReason;
use crate::text::after_prefix;
use crate::text::characters;
use crate::text::cut_first;
use crate::text::has_char;
use crate::text::has_prefix;
use crate::text::has_suffix;
use crate::text::has_text;
use crate::text::split_once;
use crate::text::stands_in;
use crate::text::text_is;
use crate::text::text_of;
use crate::text::texts;
use crate::text::without_prefix;
use crate::unix_path::byte_strings;
use crate::unix_path::parent_or_self;
use crate::unix_path::path_has_prefix;
use crate::unix_path::path_parent_or_self;
use crate::unix_path::path_starts_with;
use crate::unix_path::paths_equal;
use crate::unix_path::same_path;

verus! {

/// `text` with every underscore turned into a dash.
pub open spec fn dashed(text: Seq<char>) -> Seq<char> {
    Seq::new(text.len(), |i: int| if text[i] == '_' { '-' } else { text[i] })
}

/// `text` with every underscore turned into a dash.
fn with_dashes(text: &str) -> (result: String)
    ensures
        result@ == dashed(text@),
{
    let chars = characters(text);
    let mut out: Vec<char> = Vec::new();
    let mut index: usize = 0;
    while index < chars.len()
        invariant
            index <= chars@.len(),
            out@.len() == index,
            forall|i: int| 0 <= i < index ==> out@[i] == dashed(chars@)[i],
        decreases chars@.len() - index,
    {
        let character = chars[index];
        out.push(if character == '_' { '-' } else { character });
        index = index + 1;
    }
    proof {
        assert(out@ =~= dashed(chars@));
    }
    text_of(out.as_slice())
}

/// The name of an option: what stands before its first `=`.
pub open spec fn option_name(argument: Seq<char>) -> Seq<char> {
    match cut_first(argument, '=') {
        Some((name, value)) => name,
        None => argument,
    }
}

/// The value of an option: what stands behind its first `=`.
pub open spec fn option_value(argument: Seq<char>) -> Option<Seq<char>> {
    match cut_first(argument, '=') {
        Some((name, value)) => Some(value),
        None => None,
    }
}

/// Whether a codegen option reads or writes what the cache key does not cover.
pub open spec fn is_unmodeled_codegen(argument: Seq<char>) -> bool {
    let name = dashed(option_name(argument));
    ||| name == "profile-use"@
    ||| name == "profile-sample-use"@
    ||| name == "llvm-args"@
    ||| name == "save-temps"@
    ||| name == "target-cpu"@ && option_value(argument) == Some("native"@)
}

/// Whether a codegen option reads or writes what the cache key does not cover.
pub fn unmodeled_codegen_behavior_flag(arg: &str) -> (unmodeled: bool)
    ensures
        unmodeled == is_unmodeled_codegen(arg@),
{
    match split_once(arg, '=') {
        Some((flag, value)) => {
            let name = with_dashes(flag.as_str());
            named_unmodeled(name.as_str()) || (text_is(name.as_str(), "target-cpu") && text_is(
                value.as_str(),
                "native",
            ))
        },
        None => {
            let name = with_dashes(arg);
            named_unmodeled(name.as_str())
        },
    }
}

/// Whether `name` is an option that is unmodeled with any value.
fn named_unmodeled(name: &str) -> (unmodeled: bool)
    ensures
        unmodeled == (name@ == "profile-use"@ || name@ == "profile-sample-use"@ || name@
            == "llvm-args"@ || name@ == "save-temps"@),
{
    text_is(name, "profile-use") || text_is(name, "profile-sample-use") || text_is(
        name,
        "llvm-args",
    ) || text_is(name, "save-temps")
}

/// Whether an unstable option selects a codegen backend of the sysroot by name.
pub open spec fn is_sysroot_backend(argument: Seq<char>) -> bool {
    match after_prefix(argument, "codegen-backend="@) {
        Some(backend) => !backend.contains('.'),
        None => match after_prefix(argument, "codegen_backend="@) {
            Some(backend) => !backend.contains('.'),
            None => false,
        },
    }
}

/// Whether an unstable option selects a codegen backend of the sysroot by name.
pub fn modeled_sysroot_codegen_backend_flag(arg: &str) -> (modeled: bool)
    ensures
        modeled == is_sysroot_backend(arg@),
{
    match without_prefix(arg, "codegen-backend=") {
        Some(backend) => !has_char(backend.as_str(), '.'),
        None => match without_prefix(arg, "codegen_backend=") {
            Some(backend) => !has_char(backend.as_str(), '.'),
            None => false,
        },
    }
}

/// Whether the cache key covers all that an unstable option does.
pub open spec fn is_modeled_unstable(argument: Seq<char>) -> bool {
    ||| is_sysroot_backend(argument)
    ||| argument == "checksum-hash-algorithm=blake3"@
    ||| argument == "preserve-duplicate-constants=yes"@
    ||| argument == "preserve-duplicate-constants=no"@
}

/// Whether the cache key covers all that an unstable option does.
pub fn modeled_unstable_flag(arg: &str) -> (modeled: bool)
    ensures
        modeled == is_modeled_unstable(arg@),
{
    modeled_sysroot_codegen_backend_flag(arg) || text_is(arg, "checksum-hash-algorithm=blake3")
        || text_is(arg, "preserve-duplicate-constants=yes") || text_is(
        arg,
        "preserve-duplicate-constants=no",
    )
}

/// Whether a target is a specification file.
pub fn custom_target_spec_flag(arg: &str) -> (custom: bool)
    ensures
        custom == ".json"@.is_suffix_of(arg@),
{
    has_suffix(arg, ".json")
}

/// Whether a target is one of the Windows GNU targets.
pub fn windows_gnu_target(target: &str) -> (found: bool)
    ensures
        found == stands_in(target@, "-windows-gnu"@),
{
    has_text(target, "-windows-gnu")
}

/// Whether a name ends like a dynamic library.
pub open spec fn ends_like_dynamic_library(name: Seq<char>) -> bool {
    ".dylib"@.is_suffix_of(name) || ".so"@.is_suffix_of(name) || ".dll"@.is_suffix_of(name)
}

/// Whether a name ends like a dynamic library.
fn has_dynamic_suffix(name: &str) -> (found: bool)
    ensures
        found == ends_like_dynamic_library(name@),
{
    has_suffix(name, ".dylib") || has_suffix(name, ".so") || has_suffix(name, ".dll")
}

/// Whether an argument, wherever it stands, keeps an invocation out of the
/// cache.
pub open spec fn argument_disqualifies(argument: Seq<char>) -> bool {
    ||| "--crate-type="@.is_prefix_of(argument)
    ||| "--out-dir="@.is_prefix_of(argument)
    ||| "--print="@.is_prefix_of(argument)
    ||| "--pretty="@.is_prefix_of(argument)
    ||| "--unpretty="@.is_prefix_of(argument)
    ||| after_prefix(argument, "--target="@) is Some && ".json"@.is_suffix_of(
        after_prefix(argument, "--target="@)->0,
    )
    ||| "--sysroot="@.is_prefix_of(argument)
    ||| "-Zunpretty="@.is_prefix_of(argument)
    ||| "-o"@.is_prefix_of(argument)
    ||| argument == "--print"@
    ||| argument == "--pretty"@
    ||| argument == "--unpretty"@
    ||| argument == "-Csave-temps"@
    ||| "-Csave-temps="@.is_prefix_of(argument)
    ||| after_prefix(argument, "-C"@) is Some && is_unmodeled_codegen(
        after_prefix(argument, "-C"@)->0,
    )
    ||| argument == "--test"@
    ||| "@"@.is_prefix_of(argument)
    ||| "-l"@.is_prefix_of(argument)
    ||| argument != "-L"@ && "-L"@.is_prefix_of(argument)
    ||| "--extern="@.is_prefix_of(argument)
    ||| "link-arg="@.is_prefix_of(argument)
    ||| "link-args="@.is_prefix_of(argument)
    ||| "-Clink-arg="@.is_prefix_of(argument)
    ||| "-Clink-args="@.is_prefix_of(argument)
    ||| argument != "-Z"@ && after_prefix(argument, "-Z"@) is Some && !is_modeled_unstable(
        after_prefix(argument, "-Z"@)->0,
    )
}

/// Whether an argument keeps an invocation out of the cache.
fn is_disqualifying_argument(argument: &str) -> (found: bool)
    ensures
        found == argument_disqualifies(argument@),
{
    if has_prefix(argument, "--crate-type=") || has_prefix(argument, "--out-dir=") || has_prefix(
        argument,
        "--print=",
    ) || has_prefix(argument, "--pretty=") || has_prefix(argument, "--unpretty=") || has_prefix(
        argument,
        "--sysroot=",
    ) || has_prefix(argument, "-Zunpretty=") || has_prefix(argument, "-o") || text_is(
        argument,
        "--print",
    ) || text_is(argument, "--pretty") || text_is(argument, "--unpretty") || text_is(
        argument,
        "-Csave-temps",
    ) || has_prefix(argument, "-Csave-temps=") {
        return true;
    }
    if let Some(target) = without_prefix(argument, "--target=") {
        if custom_target_spec_flag(target.as_str()) {
            return true;
        }
    }
    if let Some(option) = without_prefix(argument, "-C") {
        if unmodeled_codegen_behavior_flag(option.as_str()) {
            return true;
        }
    }
    if text_is(argument, "--test") || has_prefix(argument, "@") || has_prefix(argument, "-l") || (
    !text_is(argument, "-L") && has_prefix(argument, "-L")) || has_prefix(argument, "--extern=")
        || has_prefix(argument, "link-arg=") || has_prefix(argument, "link-args=") || has_prefix(
        argument,
        "-Clink-arg=",
    ) || has_prefix(argument, "-Clink-args=") {
        return true;
    }
    if !text_is(argument, "-Z") {
        if let Some(option) = without_prefix(argument, "-Z") {
            return !modeled_unstable_flag(option.as_str());
        }
    }
    false
}

/// Whether a search path is one for crates.
pub open spec fn is_crate_search(operand: Seq<char>) -> bool {
    "dependency="@.is_prefix_of(operand) || "crate="@.is_prefix_of(operand)
}

/// Whether a search path is one for crates.
pub fn searches_crates(operand: &str) -> (found: bool)
    ensures
        found == is_crate_search(operand@),
{
    has_prefix(operand, "dependency=") || has_prefix(operand, "crate=")
}

/// The directory of a search path: what stands behind its kind.
pub open spec fn search_directory(operand: Seq<char>) -> Seq<char> {
    match cut_first(operand, '=') {
        Some((kind, path)) => path,
        None => operand,
    }
}

/// The directory of a search path: what stands behind its kind.
pub fn search_path_directory(operand: &str) -> (path: String)
    ensures
        path@ == search_directory(operand@),
{
    match split_once(operand, '=') {
        Some((_, path)) => path,
        None => operand.to_owned(),
    }
}

/// Whether an argument and the one behind it keep an invocation out of the
/// cache.
pub open spec fn pair_disqualifies(
    flag: Seq<char>,
    operand: Seq<char>,
    modeled_search_paths: Seq<Seq<u8>>,
    profile_root: Seq<u8>,
) -> bool {
    ||| flag == "--emit"@
    ||| flag == "--target"@ && ".json"@.is_suffix_of(operand)
    ||| flag == "--sysroot"@
    ||| flag == "-C"@ && ("save-temps"@.is_prefix_of(operand) || is_unmodeled_codegen(operand))
    ||| flag == "-L"@ && is_crate_search(operand) && !modeled_search_paths.contains(utf8(operand))
    ||| flag == "-L"@ && !is_crate_search(operand) && !path_starts_with(
        utf8(search_directory(operand)),
        profile_root,
    )
    ||| flag == "--extern"@ && (ends_like_dynamic_library(operand) || !operand.contains('='))
    ||| flag == "-Z"@ && !is_modeled_unstable(operand)
}

/// Whether a list of byte strings holds `wanted`.
pub fn list_holds(list: &Vec<Vec<u8>>, wanted: &[u8]) -> (found: bool)
    ensures
        found == byte_strings(list@).contains(wanted@),
{
    let mut index: usize = 0;
    while index < list.len()
        invariant
            index <= list@.len(),
            forall|i: int| 0 <= i < index ==> (#[trigger] byte_strings(list@)[i]) != wanted@,
        decreases list@.len() - index,
    {
        if bytes_equal(list[index].as_slice(), wanted) {
            proof {
                assert(byte_strings(list@)[index as int] == wanted@);
            }
            return true;
        }
        index = index + 1;
    }
    false
}

/// Whether an argument and the one behind it keep an invocation out of the
/// cache.
fn is_disqualifying_pair(
    flag: &str,
    operand: &str,
    modeled_search_paths: &Vec<Vec<u8>>,
    profile_root: &[u8],
) -> (found: bool)
    ensures
        found == pair_disqualifies(
            flag@,
            operand@,
            byte_strings(modeled_search_paths@),
            profile_root@,
        ),
{
    if text_is(flag, "--emit") || text_is(flag, "--sysroot") {
        return true;
    }
    if text_is(flag, "--target") && custom_target_spec_flag(operand) {
        return true;
    }
    if text_is(flag, "-C") && (has_prefix(operand, "save-temps") || unmodeled_codegen_behavior_flag(
        operand,
    )) {
        return true;
    }
    if text_is(flag, "-L") {
        if searches_crates(operand) {
            if !list_holds(modeled_search_paths, operand.as_bytes()) {
                return true;
            }
        } else {
            let directory = search_path_directory(operand);
            if !path_has_prefix(directory.as_str().as_bytes(), profile_root) {
                return true;
            }
        }
    }
    if text_is(flag, "--extern") && (has_dynamic_suffix(operand) || !has_char(operand, '=')) {
        return true;
    }
    text_is(flag, "-Z") && !modeled_unstable_flag(operand)
}

/// The arguments that stand behind `flag`, in order.
pub open spec fn operands(arguments: Seq<Seq<char>>, flag: Seq<char>) -> Seq<Seq<char>>
    decreases arguments.len(),
{
    if arguments.len() < 2 {
        Seq::empty()
    } else if arguments[arguments.len() - 2] == flag {
        operands(arguments.drop_last(), flag).push(arguments.last())
    } else {
        operands(arguments.drop_last(), flag)
    }
}

/// What stands behind `prefix` in the arguments that begin with it, in order.
pub open spec fn compact_operands(arguments: Seq<Seq<char>>, prefix: Seq<char>) -> Seq<Seq<char>>
    decreases arguments.len(),
{
    if arguments.len() == 0 {
        Seq::empty()
    } else {
        match after_prefix(arguments.last(), prefix) {
            Some(operand) => compact_operands(arguments.drop_last(), prefix).push(operand),
            None => compact_operands(arguments.drop_last(), prefix),
        }
    }
}

/// The arguments that stand behind `flag`, in order.
pub fn flag_operands(arguments: &Vec<String>, flag: &str) -> (list: Vec<String>)
    ensures
        texts(list@) == operands(texts(arguments@), flag@),
{
    let mut list: Vec<String> = Vec::new();
    let ghost all = texts(arguments@);
    if arguments.len() < 2 {
        proof {
            assert(texts(list@) =~= Seq::empty());
        }
        return list;
    }
    let mut index: usize = 1;
    proof {
        assert(texts(list@) =~= operands(all.take(1), flag@));
    }
    while index < arguments.len()
        invariant
            1 <= index <= arguments@.len(),
            all == texts(arguments@),
            texts(list@) == operands(all.take(index as int), flag@),
        decreases arguments@.len() - index,
    {
        let ghost before = list@;
        proof {
            assert(all.take(index + 1).drop_last() =~= all.take(index as int));
            assert(all.take(index + 1).last() == all[index as int]);
            assert(all.take(index + 1)[index - 1] == all[index - 1]);
        }
        if text_is(arguments[index - 1].as_str(), flag) {
            list.push(arguments[index].clone());
            proof {
                assert(texts(list@) =~= texts(before).push(all[index as int]));
            }
        }
        index = index + 1;
    }
    proof {
        assert(all.take(index as int) =~= all);
    }
    list
}

/// What stands behind `prefix` in the arguments that begin with it, in order.
pub fn prefix_operands(arguments: &Vec<String>, prefix: &str) -> (list: Vec<String>)
    ensures
        texts(list@) == compact_operands(texts(arguments@), prefix@),
{
    let mut list: Vec<String> = Vec::new();
    let ghost all = texts(arguments@);
    let mut index: usize = 0;
    proof {
        assert(texts(list@) =~= compact_operands(all.take(0), prefix@));
    }
    while index < arguments.len()
        invariant
            index <= arguments@.len(),
            all == texts(arguments@),
            texts(list@) == compact_operands(all.take(index as int), prefix@),
        decreases arguments@.len() - index,
    {
        let ghost before = list@;
        proof {
            assert(all.take(index + 1).drop_last() =~= all.take(index as int));
            assert(all.take(index + 1).last() == all[index as int]);
        }
        if let Some(operand) = without_prefix(arguments[index].as_str(), prefix) {
            proof {
                assert(texts(before.push(operand)) =~= texts(before).push(operand@));
            }
            list.push(operand);
        }
        index = index + 1;
    }
    proof {
        assert(all.take(index as int) =~= all);
    }
    list
}

/// The target that an invocation compiles for.
pub open spec fn action_target(arguments: Seq<Seq<char>>, host: Seq<char>) -> Seq<char> {
    if compact_operands(arguments, "--target="@).len() > 0 {
        compact_operands(arguments, "--target="@)[0]
    } else if operands(arguments, "--target"@).len() > 0 {
        operands(arguments, "--target"@)[0]
    } else {
        host
    }
}

/// The target that an invocation compiles for.
fn find_action_target(arguments: &Vec<String>, host: &str) -> (target: String)
    ensures
        target@ == action_target(texts(arguments@), host@),
{
    let compact = prefix_operands(arguments, "--target=");
    proof {
        assert(texts(compact@).len() == compact@.len());
    }
    if compact.len() > 0 {
        proof {
            assert(texts(compact@)[0] == compact@[0]@);
        }
        return compact[0].clone();
    }
    let split = flag_operands(arguments, "--target");
    proof {
        assert(texts(split@).len() == split@.len());
    }
    if split.len() > 0 {
        proof {
            assert(texts(split@)[0] == split@[0]@);
        }
        return split[0].clone();
    }
    host.to_owned()
}

/// The variables that change what rustc does in ways that the cache key does
/// not cover.
pub open spec fn unmodeled_variables() -> Seq<Seq<char>> {
    seq![
        "RUSTC_BOOTSTRAP"@,
        "RUSTC_FORCE_RUSTC_VERSION"@,
        "RUSTC_OVERRIDE_VERSION_STRING"@,
        "RUSTC_LOG"@,
        "RUSTC_LOG_COLOR"@,
        "RUSTC_LOG_ENTRY_EXIT"@,
        "RUSTC_LOG_THREAD_IDS"@,
        "RUSTC_LOG_BACKTRACE"@,
        "RUSTC_LOG_LINES"@,
        "RUSTC_LOG_FORMAT_JSON"@,
        "RUSTC_LOG_OUTPUT_TARGET"@,
        "RUST_TARGET_PATH"@,
        "CG_CLIF_FORCE_GNU_AS"@,
        "CG_CLIF_DISABLE_INCR_CACHE"@,
        "CG_CLIF_ENABLE_VERIFIER"@,
        "CG_CLIF_JIT_ARGS"@,
    ]
}

/// Whether the started process sees a variable that is never modeled.
pub open spec fn sees_unmodeled_variable(rustc: &Command) -> bool {
    exists|i: int|
        0 <= i < unmodeled_variables().len() && rustc.effective(
            #[trigger] unmodeled_variables()[i],
        ) is Some
}

/// Whether the started process sees a variable that is never modeled.
fn has_unmodeled_variable(rustc: &Command) -> (found: bool)
    ensures
        found == sees_unmodeled_variable(rustc),
{
    let names: [&str; 16] = [
        "RUSTC_BOOTSTRAP",
        "RUSTC_FORCE_RUSTC_VERSION",
        "RUSTC_OVERRIDE_VERSION_STRING",
        "RUSTC_LOG",
        "RUSTC_LOG_COLOR",
        "RUSTC_LOG_ENTRY_EXIT",
        "RUSTC_LOG_THREAD_IDS",
        "RUSTC_LOG_BACKTRACE",
        "RUSTC_LOG_LINES",
        "RUSTC_LOG_FORMAT_JSON",
        "RUSTC_LOG_OUTPUT_TARGET",
        "RUST_TARGET_PATH",
        "CG_CLIF_FORCE_GNU_AS",
        "CG_CLIF_DISABLE_INCR_CACHE",
        "CG_CLIF_ENABLE_VERIFIER",
        "CG_CLIF_JIT_ARGS",
    ];
    proof {
        assert(Seq::new(16, |i: int| names@[i]@) =~= unmodeled_variables());
        assert forall|i: int| 0 <= i < 16 implies names@[i]@ == #[trigger] unmodeled_variables()[i] by {
            assert(Seq::new(16, |i: int| names@[i]@)[i] == names@[i]@);
        }
    }
    let mut index: usize = 0;
    while index < 16
        invariant
            index <= 16,
            forall|i: int| 0 <= i < 16 ==> names@[i]@ == #[trigger] unmodeled_variables()[i],
            forall|i: int|
                0 <= i < index ==> rustc.effective(#[trigger] unmodeled_variables()[i]) is None,
        decreases 16 - index,
    {
        proof {
            assert(names@[index as int]@ == unmodeled_variables()[index as int]);
        }
        if rustc.get_env(names[index]).is_some() {
            proof {
                assert(rustc.effective(unmodeled_variables()[index as int]) is Some);
                assert(0 <= (index as int) < unmodeled_variables().len());
            }
            return true;
        }
        index = index + 1;
    }
    false
}

/// Whether the started process sees a variable of the GCC backend.
pub open spec fn sees_backend_variable(rustc: &Command) -> bool {
    ||| exists|i: int|
        0 <= i < rustc.setting_list().len() && is_backend_setting(
            rustc,
            (#[trigger] rustc.setting_list()[i]).0,
        )
    ||| exists|i: int|
        0 <= i < rustc.inherited@.len() && valid_utf8((#[trigger] rustc.inherited@[i]).name@)
            && is_backend_setting(rustc, decode_utf8(rustc.inherited@[i].name@))
}

/// Whether `name` is a variable of the GCC backend that the process sees.
pub open spec fn is_backend_setting(rustc: &Command, name: Seq<char>) -> bool {
    "CG_GCCJIT_"@.is_prefix_of(name) && rustc.effective(name) is Some
}

/// Whether the started process sees a variable of the GCC backend.
pub fn unmodeled_codegen_backend_environment(rustc: &Command) -> (found: bool)
    ensures
        found == sees_backend_variable(rustc),
{
    let mut index: usize = 0;
    while index < rustc.environment.len()
        invariant
            index <= rustc.environment@.len(),
            forall|i: int|
                0 <= i < index ==> !is_backend_setting(
                    rustc,
                    (#[trigger] rustc.setting_list()[i]).0,
                ),
        decreases rustc.environment@.len() - index,
    {
        let name = rustc.environment[index].name.as_str();
        proof {
            assert(rustc.setting_list()[index as int].0 == name@);
        }
        if has_prefix(name, "CG_GCCJIT_") && rustc.get_env(name).is_some() {
            return true;
        }
        index = index + 1;
    }
    let mut at: usize = 0;
    while at < rustc.inherited.len()
        invariant
            at <= rustc.inherited@.len(),
            forall|i: int|
                0 <= i < rustc.setting_list().len() ==> !is_backend_setting(
                    rustc,
                    (#[trigger] rustc.setting_list()[i]).0,
                ),
            forall|i: int|
                0 <= i < at ==> !(valid_utf8((#[trigger] rustc.inherited@[i]).name@)
                    && is_backend_setting(rustc, decode_utf8(rustc.inherited@[i].name@))),
        decreases rustc.inherited@.len() - at,
    {
        if let Some(name) = text_from_utf8(rustc.inherited[at].name.as_slice()) {
            proof {
                encode_utf8_decode_utf8(name@);
                assert(decode_utf8(rustc.inherited@[at as int].name@) == name@);
            }
            if has_prefix(name, "CG_GCCJIT_") && rustc.get_env(name).is_some() {
                return true;
            }
        }
        at = at + 1;
    }
    false
}

/// Whether provenance recording is inherited instead of being set by the
/// invocation.
pub open spec fn inherits_provenance(rustc: &Command) -> bool {
    explicit_setting(rustc.setting_list(), "SLD_RUSTC_WORK_PRODUCT_PROVENANCE"@) is None
        && rustc.effective("SLD_RUSTC_WORK_PRODUCT_PROVENANCE"@) is Some
}

/// Whether provenance recording is inherited instead of being set by the
/// invocation.
pub fn unmodeled_sld_provenance_environment(rustc: &Command) -> (found: bool)
    ensures
        found == inherits_provenance(rustc),
{
    !rustc.sets("SLD_RUSTC_WORK_PRODUCT_PROVENANCE") && rustc.get_env(
        "SLD_RUSTC_WORK_PRODUCT_PROVENANCE",
    ).is_some()
}

/// Whether a list of emitted outputs is one that the cache stores.
pub open spec fn is_modeled_emit(emit: Seq<char>) -> bool {
    emit == "dep-info,metadata"@ || emit == "dep-info,link"@ || emit == "dep-info,metadata,link"@
}

/// Whether the arguments ask for exactly one plain library, with modeled
/// outputs in one directory.
pub open spec fn requests_plain_library(arguments: Seq<Seq<char>>) -> bool {
    &&& operands(arguments, "--crate-type"@) == seq!["lib"@]
    &&& compact_operands(arguments, "--emit="@).len() == 1
    &&& is_modeled_emit(compact_operands(arguments, "--emit="@)[0])
    &&& operands(arguments, "--out-dir"@).len() == 1
}

/// Whether the arguments ask for exactly one plain library.
fn asks_for_plain_library(arguments: &Vec<String>) -> (plain: bool)
    ensures
        plain == requests_plain_library(texts(arguments@)),
{
    let crate_types = flag_operands(arguments, "--crate-type");
    let emits = prefix_operands(arguments, "--emit=");
    let out_dirs = flag_operands(arguments, "--out-dir");
    proof {
        assert(texts(crate_types@).len() == crate_types@.len());
        assert(texts(emits@).len() == emits@.len());
        assert(texts(out_dirs@).len() == out_dirs@.len());
        assert(seq!["lib"@].len() == 1 && seq!["lib"@][0] == "lib"@);
    }
    if crate_types.len() != 1 || emits.len() != 1 || out_dirs.len() != 1 {
        return false;
    }
    proof {
        assert(texts(crate_types@)[0] == crate_types@[0]@);
        assert(texts(emits@)[0] == emits@[0]@);
        if crate_types@[0]@ == "lib"@ {
            assert(texts(crate_types@) =~= seq!["lib"@]);
        }
    }
    let emit = emits[0].as_str();
    text_is(crate_types[0].as_str(), "lib") && (text_is(emit, "dep-info,metadata") || text_is(
        emit,
        "dep-info,link",
    ) || text_is(emit, "dep-info,metadata,link"))
}

/// Whether no argument, and no pair of arguments, keeps the invocation out of
/// the cache.
pub open spec fn nothing_disqualifies(
    arguments: Seq<Seq<char>>,
    modeled_search_paths: Seq<Seq<u8>>,
    profile_root: Seq<u8>,
) -> bool {
    &&& forall|i: int| 0 <= i < arguments.len() ==> !argument_disqualifies(#[trigger] arguments[i])
    &&& forall|i: int, j: int|
        0 <= i < arguments.len() && j == i + 1 && j < arguments.len() ==> !pair_disqualifies(
            #[trigger] arguments[i],
            #[trigger] arguments[j],
            modeled_search_paths,
            profile_root,
        )
}

/// Whether no argument, and no pair of arguments, keeps the invocation out of
/// the cache.
fn arguments_are_modeled(
    arguments: &Vec<String>,
    modeled_search_paths: &Vec<Vec<u8>>,
    profile_root: &[u8],
) -> (modeled: bool)
    ensures
        modeled == nothing_disqualifies(
            texts(arguments@),
            byte_strings(modeled_search_paths@),
            profile_root@,
        ),
{
    let ghost all = texts(arguments@);
    let ghost paths = byte_strings(modeled_search_paths@);
    let mut index: usize = 0;
    while index < arguments.len()
        invariant
            index <= arguments@.len(),
            all == texts(arguments@),
            paths == byte_strings(modeled_search_paths@),
            forall|i: int| 0 <= i < index ==> !argument_disqualifies(#[trigger] all[i]),
            forall|i: int, j: int|
                0 <= i < index && j == i + 1 && j < arguments.len() ==> !pair_disqualifies(
                    #[trigger] all[i],
                    #[trigger] all[j],
                    paths,
                    profile_root@,
                ),
        decreases arguments@.len() - index,
    {
        proof {
            assert(all[index as int] == arguments@[index as int]@);
        }
        if is_disqualifying_argument(arguments[index].as_str()) {
            return false;
        }
        if index + 1 < arguments.len() {
            proof {
                assert(all[index + 1] == arguments@[index + 1]@);
            }
            if is_disqualifying_pair(
                arguments[index].as_str(),
                arguments[index + 1].as_str(),
                modeled_search_paths,
                profile_root,
            ) {
                return false;
            }
        }
        index = index + 1;
    }
    true
}

/// Whether the cache may stand in for an invocation. `action_program` and
/// `compiler_program` are the started program and the compiler, resolved to
/// executables.
pub open spec fn is_cacheable(
    rustc: &Command,
    output_root: Seq<u8>,
    action_program: Seq<u8>,
    compiler_program: Seq<u8>,
    host_triple: Seq<char>,
    modeled_search_paths: Seq<Seq<u8>>,
) -> bool {
    let arguments = lossy_list(rustc.argument_list());
    &&& rustc.is_text()
    &&& explicit_setting(rustc.setting_list(), "PATH"@) is None
    &&& rustc.wrappers@.len() == 0
    &&& same_path(action_program, compiler_program)
    &&& !sees_unmodeled_variable(rustc)
    &&& !sees_backend_variable(rustc)
    &&& !inherits_provenance(rustc)
    &&& !stands_in(action_target(arguments, host_triple), "-windows-gnu"@)
    &&& requests_plain_library(arguments)
    &&& nothing_disqualifies(arguments, modeled_search_paths, parent_or_self(output_root))
}

/// Whether the cache may stand in for an invocation.
pub fn rlib_action_is_cacheable_with_search_paths(
    rustc: &Command,
    output_root: &[u8],
    action_program: &[u8],
    compiler_program: &[u8],
    host_triple: &str,
    modeled_dependency_search_paths: &Vec<Vec<u8>>,
) -> (cacheable: bool)
    ensures
        cacheable == is_cacheable(
            rustc,
            output_root@,
            action_program@,
            compiler_program@,
            host_triple@,
            byte_strings(modeled_dependency_search_paths@),
        ),
{
    if !rustc.holds_only_text() || rustc.sets("PATH") || rustc.wrappers.len() != 0 || !paths_equal(
        action_program,
        compiler_program,
    ) {
        return false;
    }
    if has_unmodeled_variable(rustc) || unmodeled_codegen_backend_environment(rustc)
        || unmodeled_sld_provenance_environment(rustc) {
        return false;
    }
    let arguments = rustc.argument_texts();
    let target = find_action_target(&arguments, host_triple);
    if windows_gnu_target(target.as_str()) || !asks_for_plain_library(&arguments) {
        return false;
    }
    let profile_root = path_parent_or_self(output_root);
    arguments_are_modeled(&arguments, modeled_dependency_search_paths, profile_root.as_slice())
}

/// Whether the cache may stand in for an invocation that starts its program
/// as it is written and has no modeled search paths.
pub fn rlib_action_is_cacheable(
    rustc: &Command,
    output_root: &[u8],
    compiler_program: &[u8],
    host_triple: &str,
) -> (cacheable: bool)
    ensures
        cacheable == is_cacheable(
            rustc,
            output_root@,
            rustc.outer_program(),
            compiler_program@,
            host_triple@,
            Seq::empty(),
        ),
{
    let none: Vec<Vec<u8>> = Vec::new();
    proof {
        assert(byte_strings(none@) =~= Seq::empty());
    }
    rlib_action_is_cacheable_with_search_paths(
        rustc,
        output_root,
        rustc.get_program(),
        compiler_program,
        host_triple,
        &none,
    )
}

/// Whether an argument, or one behind `--extern`, names a dynamic library.
pub open spec fn has_dynamic_dependency(arguments: Seq<Seq<char>>) -> bool {
    ||| exists|i: int|
        0 <= i < operands(arguments, "--extern"@).len() && ends_like_dynamic_library(
            #[trigger] operands(arguments, "--extern"@)[i],
        )
    ||| exists|i: int|
        0 <= i < compact_operands(arguments, "--extern="@).len() && ends_like_dynamic_library(
            #[trigger] compact_operands(arguments, "--extern="@)[i],
        )
}

/// Whether any text of a list ends like a dynamic library.
fn any_dynamic(list: &Vec<String>) -> (found: bool)
    ensures
        found == exists|i: int|
            0 <= i < texts(list@).len() && ends_like_dynamic_library(#[trigger] texts(list@)[i]),
{
    let mut index: usize = 0;
    while index < list.len()
        invariant
            index <= list@.len(),
            forall|i: int|
                0 <= i < index ==> !ends_like_dynamic_library(#[trigger] texts(list@)[i]),
        decreases list@.len() - index,
    {
        proof {
            assert(texts(list@)[index as int] == list@[index as int]@);
        }
        if has_dynamic_suffix(list[index].as_str()) {
            return true;
        }
        index = index + 1;
    }
    false
}

/// Why an invocation that is not cacheable is not: it is wrapped, it links a
/// dynamic library, or it does something else that is not modeled.
pub open spec fn action_reason(rustc: &Command) -> IneligibleReason {
    if rustc.wrappers@.len() != 0 {
        IneligibleReason::CompilerWrapper
    } else if has_dynamic_dependency(lossy_list(rustc.argument_list())) {
        IneligibleReason::DynamicExtern
    } else {
        IneligibleReason::UnmodeledRustcAction
    }
}

/// Why an invocation that is not cacheable is not.
pub fn unmodeled_rustc_action_reason(rustc: &Command) -> (reason: IneligibleReason)
    ensures
        reason == action_reason(rustc),
{
    if rustc.wrappers.len() != 0 {
        return IneligibleReason::CompilerWrapper;
    }
    let arguments = rustc.argument_texts();
    let split = flag_operands(&arguments, "--extern");
    let compact = prefix_operands(&arguments, "--extern=");
    if any_dynamic(&split) || any_dynamic(&compact) {
        IneligibleReason::DynamicExtern
    } else {
        IneligibleReason::UnmodeledRustcAction
    }
}

} // verus!
