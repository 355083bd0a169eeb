//! What takes part in the keys of cached actions, and in the digests of
//! invocations.

use vstd::prelude::*;
use vstd::string::*;
use vstd::utf8::*;

use crate::action_inputs::InputMark;
use crate::action_tree::action_text;
use crate::action_tree::names_generated;
use crate::bytes::lemma_split_parts;
use crate::bytes::utf8;
use crate::cache_key::command_arguments;
use crate::cache_key::command_settings;
use crate::cache_key::command_text;
use crate::cache_key::deployment_variables;
use crate::cache_key::hashed_argument;
use crate::cache_key::hashed_arguments;
use crate::cache_key::hashed_deployment;
use crate::cache_key::hashed_loader_path;
use crate::cache_key::hashed_loader_value;
use crate::cache_key::hashed_setting;
use crate::cache_key::hashed_settings;
use crate::cache_key::hashed_value;
use crate::cache_key::is_key;
use crate::cache_key::is_path_operand;
use crate::cache_key::key_text;
use crate::cache_key::normalized;
use crate::cache_key::path_texts;
use crate::cache_key::place_written;
use crate::cache_key::remapped;
use crate::cache_key::KeyContext;
use crate::cache_key::PathTexts;
use crate::cache_key::PortableRemap;
use crate::cache_key::PreparedArtifactCacheKey;
use crate::command::Command;
use crate::digest::blake3_digest;
use crate::digest::hex_digest;
use crate::digest::hex_digit;
use crate::digest::lossy_text;
use crate::loader_inputs::loader_inputs;
use crate::loader_inputs::sysroot_of;
use crate::snapshot_paths::lemma_utf8_concat;
use crate::text::replaced;
use crate::unix_path::byte_strings;
use crate::unix_path::is_absolute;
use crate::unix_path::joined;
use crate::unix_path::parent_or_self;
use crate::unix_path::split_all;
use crate::unix_path::PATH_LIST_SEPARATOR;
use crate::unix_path::SEPARATOR;

verus! {

/// Byte strings with a zero byte behind each.
pub open spec fn terminated(list: Seq<Seq<u8>>) -> Seq<u8>
    decreases list.len(),
{
    if list.len() == 0 {
        Seq::empty()
    } else {
        terminated(list.drop_last()) + list.last() + seq![0u8]
    }
}

/// Whether no byte string holds a zero byte, as none that a process is given
/// does.
pub open spec fn without_zeros(list: Seq<Seq<u8>>) -> bool {
    forall|i: int| 0 <= i < list.len() ==> !(#[trigger] list[i]).contains(0u8)
}

/// Byte strings without zero bytes are read back from between them.
pub proof fn law_terminated_is_unambiguous(left: Seq<Seq<u8>>, right: Seq<Seq<u8>>)
    requires
        without_zeros(left),
        without_zeros(right),
        terminated(left) == terminated(right),
    ensures
        left == right,
    decreases left.len(),
{
    let text = terminated(left);
    if left.len() == 0 || right.len() == 0 {
        if left.len() > 0 {
            assert(text.last() == 0u8);
            assert(text.len() > 0);
        }
        if right.len() > 0 {
            assert(terminated(right).len() > 0);
        }
        assert(left =~= right);
    } else {
        let p = terminated(left.drop_last());
        let q = terminated(right.drop_last());
        let x = left.last();
        let y = right.last();
        assert(x == left[left.len() - 1]);
        assert(y == right[right.len() - 1]);
        lemma_terminated_end(left.drop_last());
        lemma_terminated_end(right.drop_last());
        assert(text == p + x + seq![0u8]);
        assert(text == q + y + seq![0u8]);
        if p.len() < q.len() {
            assert(text[q.len() - 1] == q[q.len() - 1]);
            assert(text[q.len() - 1] == x[q.len() - 1 - p.len()]);
            assert(x.contains(0u8));
        }
        if q.len() < p.len() {
            assert(text[p.len() - 1] == p[p.len() - 1]);
            assert(text[p.len() - 1] == y[p.len() - 1 - q.len()]);
            assert(y.contains(0u8));
        }
        assert(p =~= text.take(p.len() as int));
        assert(q =~= text.take(q.len() as int));
        assert(x =~= text.subrange(p.len() as int, text.len() - 1));
        assert(y =~= text.subrange(q.len() as int, text.len() - 1));
        let lf = left.drop_last();
        let rf = right.drop_last();
        assert forall|i: int| 0 <= i < lf.len() implies !(#[trigger] lf[i]).contains(0u8) by {
            assert(lf[i] == left[i]);
        }
        assert forall|i: int| 0 <= i < rf.len() implies !(#[trigger] rf[i]).contains(0u8) by {
            assert(rf[i] == right[i]);
        }
        law_terminated_is_unambiguous(lf, rf);
        assert(lf.push(x) =~= left);
        assert(rf.push(y) =~= right);
    }
}

/// Byte strings with zero bytes behind them end in one.
proof fn lemma_terminated_end(list: Seq<Seq<u8>>)
    ensures
        list.len() > 0 ==> terminated(list).len() > 0 && terminated(list).last() == 0u8,
        list.len() == 0 ==> terminated(list).len() == 0,
{
}

/// Two lists of byte strings one behind the other.
proof fn lemma_terminated_concat(left: Seq<Seq<u8>>, right: Seq<Seq<u8>>)
    ensures
        terminated(left + right) == terminated(left) + terminated(right),
    decreases right.len(),
{
    if right.len() == 0 {
        assert(left + right =~= left);
        assert(terminated(left) + terminated(right) =~= terminated(left));
    } else {
        lemma_terminated_concat(left, right.drop_last());
        assert((left + right).drop_last() =~= left + right.drop_last());
        assert((left + right).last() == right.last());
        assert(terminated(left) + terminated(right.drop_last()) + right.last() + seq![0u8]
            =~= terminated(left) + (terminated(right.drop_last()) + right.last() + seq![0u8]));
    }
}

/// The encoding of a zero character.
pub proof fn lemma_zero()
    ensures
        utf8("\0"@) == seq![0u8],
{
    reveal_strlit("\0");
    is_ascii_chars_encode_utf8("\0"@);
    assert(utf8("\0"@) =~= seq![0u8]);
}

/// What is hashed for each argument.
pub open spec fn hashed_argument_list(
    paths: PathTexts,
    arguments: Seq<Seq<u8>>,
    modeled_search_paths: Seq<Seq<u8>>,
    remaps: Seq<PortableRemap>,
) -> Seq<Seq<u8>> {
    Seq::new(
        arguments.len(),
        |i: int| hashed_argument(paths, arguments, i, modeled_search_paths, remaps),
    )
}

/// Hashed arguments, seen as byte strings with zero bytes behind them.
proof fn lemma_hashed_arguments(
    paths: PathTexts,
    arguments: Seq<Seq<u8>>,
    count: int,
    modeled_search_paths: Seq<Seq<u8>>,
    remaps: Seq<PortableRemap>,
)
    requires
        0 <= count <= arguments.len(),
    ensures
        hashed_arguments(paths, arguments, count, modeled_search_paths, remaps) == terminated(
            hashed_argument_list(paths, arguments, modeled_search_paths, remaps).take(count),
        ),
    decreases count,
{
    let list = hashed_argument_list(paths, arguments, modeled_search_paths, remaps);
    if count > 0 {
        lemma_zero();
        lemma_hashed_arguments(paths, arguments, count - 1, modeled_search_paths, remaps);
        assert(list.take(count).drop_last() =~= list.take(count - 1));
        assert(list.take(count).last() == list[count - 1]);
    } else {
        assert(list.take(0) =~= Seq::empty());
    }
}

/// The arguments of an invocation as its key sees them.
pub open spec fn key_arguments(context: KeyContext, rustc: &Command) -> Seq<Seq<u8>> {
    hashed_argument_list(
        path_texts(context.build_dir@, context.output_root@, context.compiler_program@),
        rustc.argument_list(),
        byte_strings(context.modeled_dependency_search_paths@),
        context.portable_remaps@,
    )
}

/// Parts one behind the other, however they are grouped.
proof fn lemma_regrouped(
    a: Seq<u8>,
    b: Seq<u8>,
    c: Seq<u8>,
    d: Seq<u8>,
    e: Seq<u8>,
    f: Seq<u8>,
    g: Seq<u8>,
    h: Seq<u8>,
    i: Seq<u8>,
)
    ensures
        a + b + c + d + e + f + g + h + f + i == a + b + (c + d + e + f + g + h + f + i),
{
    assert(a + b + c + d + e + f + g + h + f + i =~= a + b + (c + d + e + f + g + h + f + i));
}

/// What stands between the same parts is the same.
proof fn lemma_middle(front: Seq<u8>, left: Seq<u8>, right: Seq<u8>, back: Seq<u8>)
    requires
        front + left + back == front + right + back,
    ensures
        left == right,
{
    let text = front + left + back;
    assert(text.len() == (front + right + back).len());
    assert(left.len() == right.len());
    assert(left =~= text.subrange(front.len() as int, front.len() as int + left.len()));
    assert(right =~= text.subrange(front.len() as int, front.len() as int + right.len()));
}

/// Every argument takes part in the key: invocations with the same settings and
/// the same key text have the same arguments, as keys see them.
#[verifier::rlimit(40)]
pub proof fn law_arguments_take_part_in_keys(
    context: KeyContext,
    left: &Command,
    right: &Command,
    loader_digest: Seq<u8>,
    action_digest: Seq<u8>,
)
    requires
        left.setting_list() == right.setting_list(),
        hashed_deployment(left, 5) == hashed_deployment(right, 5),
        without_zeros(key_arguments(context, left)),
        without_zeros(key_arguments(context, right)),
        key_text(context, left, loader_digest, action_digest) is Some,
        key_text(context, left, loader_digest, action_digest) == key_text(
            context,
            right,
            loader_digest,
            action_digest,
        ),
    ensures
        key_arguments(context, left) == key_arguments(context, right),
{
    let paths = path_texts(context.build_dir@, context.output_root@, context.compiler_program@);
    let modeled = byte_strings(context.modeled_dependency_search_paths@);
    let remaps = context.portable_remaps@;
    let l = hashed_arguments(
        paths,
        left.argument_list(),
        left.argument_list().len() as int,
        modeled,
        remaps,
    );
    let r = hashed_arguments(
        paths,
        right.argument_list(),
        right.argument_list().len() as int,
        modeled,
        remaps,
    );
    lemma_hashed_arguments(
        paths,
        left.argument_list(),
        left.argument_list().len() as int,
        modeled,
        remaps,
    );
    lemma_hashed_arguments(
        paths,
        right.argument_list(),
        right.argument_list().len() as int,
        modeled,
        remaps,
    );
    let ll = key_arguments(context, left);
    let rl = key_arguments(context, right);
    assert(ll.take(ll.len() as int) =~= ll);
    assert(rl.take(rl.len() as int) =~= rl);
    let settings = hashed_settings(
        *context.host,
        paths,
        loader_inputs(context.loader_input_paths@),
        left.setting_list(),
    )->Some_0;
    let front = utf8("cargo-artifact-cache-v8\0"@) + utf8("rustc-verbose-version\0"@) + utf8(
        context.rustc_verbose_version@,
    ) + utf8("\0"@) + utf8("rustc-compiler-identity\0"@) + context.compiler_identity@ + utf8(
        "\0"@,
    );
    let back = settings + utf8("compiler-loader-inputs-content\0"@) + loader_digest + utf8("\0"@)
        + utf8("action-inputs-content\0"@) + action_digest + utf8("\0"@) + hashed_deployment(
        left,
        5,
    );
    lemma_regrouped(
        front,
        l,
        settings,
        utf8("compiler-loader-inputs-content\0"@),
        loader_digest,
        utf8("\0"@),
        utf8("action-inputs-content\0"@),
        action_digest,
        hashed_deployment(left, 5),
    );
    lemma_regrouped(
        front,
        r,
        settings,
        utf8("compiler-loader-inputs-content\0"@),
        loader_digest,
        utf8("\0"@),
        utf8("action-inputs-content\0"@),
        action_digest,
        hashed_deployment(left, 5),
    );
    lemma_middle(front, l, r, back);
    law_terminated_is_unambiguous(ll, rl);
}

/// What is hashed for each setting, without the zero byte behind it.
pub open spec fn setting_string(setting: (Seq<char>, Option<Seq<u8>>)) -> Seq<u8> {
    utf8(setting.0) + utf8("="@) + match setting.1 {
        Some(value) => value,
        None => Seq::empty(),
    }
}

/// What is hashed for settings, one by one.
pub open spec fn setting_strings(list: Seq<(Seq<char>, Option<Seq<u8>>)>) -> Seq<Seq<u8>> {
    Seq::new(list.len(), |i: int| setting_string(list[i]))
}

/// Settings of a command, seen as byte strings with zero bytes behind them.
proof fn lemma_command_settings(list: Seq<(Seq<char>, Option<Seq<u8>>)>)
    ensures
        command_settings(list) == terminated(setting_strings(list)),
    decreases list.len(),
{
    if list.len() > 0 {
        lemma_zero();
        lemma_command_settings(list.drop_last());
        assert(setting_strings(list).drop_last() =~= setting_strings(list.drop_last()));
        assert(setting_strings(list).last() == setting_string(list.last()));
        assert(command_settings(list) =~= terminated(setting_strings(list)));
    } else {
        assert(setting_strings(list) =~= Seq::empty());
    }
}

/// Arguments of a command, seen as byte strings with zero bytes behind them.
proof fn lemma_command_arguments(list: Seq<Seq<u8>>)
    ensures
        command_arguments(list) == terminated(list),
    decreases list.len(),
{
    if list.len() > 0 {
        lemma_zero();
        lemma_command_arguments(list.drop_last());
    }
}

/// The directory of a command, or nothing.
pub open spec fn directory_of(rustc: &Command) -> Seq<u8> {
    match rustc.directory {
        Some(directory) => directory@,
        None => Seq::empty(),
    }
}

/// The parts of a command that stand before its arguments.
pub open spec fn command_front(rustc: &Command) -> Seq<Seq<u8>> {
    seq![
        utf8("cargo-artifact-cache-command-v1"@),
        rustc.outer_program(),
        utf8("cwd"@),
        directory_of(rustc),
        utf8("args"@),
    ]
}

/// The parts of a command.
pub open spec fn command_parts(rustc: &Command) -> Seq<Seq<u8>> {
    command_front(rustc) + rustc.argument_list() + seq![utf8("env"@)] + setting_strings(
        rustc.setting_list(),
    )
}

/// A text with a zero character behind it.
pub proof fn lemma_zero_behind(text: Seq<char>, whole: Seq<char>)
    requires
        whole == text + "\0"@,
    ensures
        utf8(whole) == utf8(text) + seq![0u8],
{
    lemma_zero();
    lemma_utf8_concat(text, "\0"@);
}

/// The text of a command, seen as byte strings with zero bytes behind them.
proof fn lemma_command_text(rustc: &Command)
    ensures
        command_text(rustc) == terminated(command_parts(rustc)),
{
    lemma_zero();
    reveal_strlit("\0");
    reveal_strlit("cargo-artifact-cache-command-v1");
    reveal_strlit("cargo-artifact-cache-command-v1\0");
    reveal_strlit("cwd");
    reveal_strlit("\0cwd\0");
    reveal_strlit("args");
    reveal_strlit("\0args\0");
    reveal_strlit("env");
    reveal_strlit("env\0");
    assert("cargo-artifact-cache-command-v1\0"@ =~= "cargo-artifact-cache-command-v1"@ + "\0"@);
    lemma_zero_behind("cargo-artifact-cache-command-v1"@, "cargo-artifact-cache-command-v1\0"@);
    assert("\0cwd\0"@ =~= "\0"@ + "cwd"@ + "\0"@);
    lemma_zero_behind("\0"@ + "cwd"@, "\0cwd\0"@);
    lemma_utf8_concat("\0"@, "cwd"@);
    assert("\0args\0"@ =~= "\0"@ + "args"@ + "\0"@);
    lemma_zero_behind("\0"@ + "args"@, "\0args\0"@);
    lemma_utf8_concat("\0"@, "args"@);
    assert("env\0"@ =~= "env"@ + "\0"@);
    lemma_zero_behind("env"@, "env\0"@);
    lemma_command_arguments(rustc.argument_list());
    lemma_command_settings(rustc.setting_list());
    let front = command_front(rustc);
    let middle = front + rustc.argument_list();
    lemma_terminated_concat(front, rustc.argument_list());
    lemma_terminated_concat(middle, seq![utf8("env"@)]);
    lemma_terminated_concat(
        middle + seq![utf8("env"@)],
        setting_strings(rustc.setting_list()),
    );
    lemma_terminated_single(utf8("env"@));
    lemma_terminated_five(
        front[0],
        front[1],
        front[2],
        front[3],
        front[4],
    );
    assert(front =~= seq![front[0], front[1], front[2], front[3], front[4]]);
    assert(command_text(rustc) =~= terminated(front) + terminated(rustc.argument_list())
        + terminated(seq![utf8("env"@)]) + terminated(setting_strings(rustc.setting_list())));
}

/// One byte string.
proof fn lemma_terminated_single(item: Seq<u8>)
    ensures
        terminated(seq![item]) == item + seq![0u8],
{
    assert(seq![item].drop_last() =~= Seq::<Seq<u8>>::empty());
    assert(terminated(Seq::<Seq<u8>>::empty()) =~= Seq::<u8>::empty());
    assert(terminated(seq![item]) =~= item + seq![0u8]);
}

/// Five byte strings.
proof fn lemma_terminated_five(a: Seq<u8>, b: Seq<u8>, c: Seq<u8>, d: Seq<u8>, e: Seq<u8>)
    ensures
        terminated(seq![a, b, c, d, e]) == a + seq![0u8] + b + seq![0u8] + c + seq![0u8] + d
            + seq![0u8] + e + seq![0u8],
{
    lemma_terminated_single(a);
    assert(seq![a, b].drop_last() =~= seq![a]);
    assert(terminated(seq![a, b]) == terminated(seq![a]) + b + seq![0u8]);
    assert(seq![a, b, c].drop_last() =~= seq![a, b]);
    assert(terminated(seq![a, b, c]) == terminated(seq![a, b]) + c + seq![0u8]);
    assert(seq![a, b, c, d].drop_last() =~= seq![a, b, c]);
    assert(terminated(seq![a, b, c, d]) == terminated(seq![a, b, c]) + d + seq![0u8]);
    assert(seq![a, b, c, d, e].drop_last() =~= seq![a, b, c, d]);
    assert(terminated(seq![a, b, c, d, e]) == terminated(seq![a, b, c, d]) + e + seq![0u8]);
}

/// A setting holds an equals sign, and so is not the mark before settings.
proof fn lemma_setting_is_no_mark(setting: (Seq<char>, Option<Seq<u8>>))
    ensures
        setting_string(setting) != utf8("env"@),
{
    reveal_strlit("=");
    reveal_strlit("env");
    is_ascii_chars_encode_utf8("="@);
    is_ascii_chars_encode_utf8("env"@);
    let text = setting_string(setting);
    let at = utf8(setting.0).len() as int;
    assert(utf8("="@)[0] == 0x3d);
    assert(text[at] == utf8("="@)[0]);
    if text == utf8("env"@) {
        assert(utf8("env"@)[at] == "env"@[at] as u8);
        assert(0 <= at < 3);
        assert(utf8("env"@)[0] == "env"@[0] as u8);
        assert(utf8("env"@)[1] == "env"@[1] as u8);
        assert(utf8("env"@)[2] == "env"@[2] as u8);
    }
}

/// The digest of an invocation stands for all of it: invocations with the same
/// text that is hashed have the same program, directory, arguments and settings.
pub proof fn law_command_text_is_unambiguous(left: &Command, right: &Command)
    requires
        without_zeros(command_parts(left)),
        without_zeros(command_parts(right)),
        command_text(left) == command_text(right),
    ensures
        left.outer_program() == right.outer_program(),
        directory_of(left) == directory_of(right),
        left.argument_list() == right.argument_list(),
        setting_strings(left.setting_list()) == setting_strings(right.setting_list()),
{
    lemma_command_text(left);
    lemma_command_text(right);
    let l = command_parts(left);
    let r = command_parts(right);
    law_terminated_is_unambiguous(l, r);
    let la = left.argument_list();
    let ra = right.argument_list();
    let ls = setting_strings(left.setting_list());
    let rs = setting_strings(right.setting_list());
    let mark = utf8("env"@);
    assert(l[1] == left.outer_program());
    assert(r[1] == right.outer_program());
    assert(l[3] == directory_of(left));
    assert(r[3] == directory_of(right));
    assert(l[5 + la.len() as int] == mark);
    assert(r[5 + ra.len() as int] == mark);
    if la.len() < ra.len() {
        let at = 5 + ra.len() as int;
        assert(l[at] == ls[at - 6 - la.len()]);
        lemma_setting_is_no_mark(left.setting_list()[at - 6 - la.len()]);
    }
    if ra.len() < la.len() {
        let at = 5 + la.len() as int;
        assert(r[at] == rs[at - 6 - ra.len()]);
        lemma_setting_is_no_mark(right.setting_list()[at - 6 - ra.len()]);
    }
    assert(la =~= l.subrange(5, 5 + la.len() as int));
    assert(ra =~= r.subrange(5, 5 + ra.len() as int));
    assert(ls =~= l.skip(6 + la.len() as int));
    assert(rs =~= r.skip(6 + ra.len() as int));
}

/// Settings as plain values.
pub type SettingList = Seq<(Seq<char>, Option<Seq<u8>>)>;

/// What is hashed for each setting in a key, without the zero byte behind it.
pub open spec fn key_settings(context: KeyContext, list: SettingList) -> Seq<Seq<u8>> {
    let paths = path_texts(context.build_dir@, context.output_root@, context.compiler_program@);
    let inputs = loader_inputs(context.loader_input_paths@);
    Seq::new(
        list.len(),
        |i: int| hashed_setting(*context.host, paths, inputs, list[i])->Some_0.drop_last(),
    )
}

/// Hashed settings, seen as byte strings with zero bytes behind them.
proof fn lemma_hashed_settings(context: KeyContext, list: SettingList)
    requires
        hashed_settings(
            *context.host,
            path_texts(context.build_dir@, context.output_root@, context.compiler_program@),
            loader_inputs(context.loader_input_paths@),
            list,
        ) is Some,
    ensures
        hashed_settings(
            *context.host,
            path_texts(context.build_dir@, context.output_root@, context.compiler_program@),
            loader_inputs(context.loader_input_paths@),
            list,
        ) == Some(terminated(key_settings(context, list))),
    decreases list.len(),
{
    let paths = path_texts(context.build_dir@, context.output_root@, context.compiler_program@);
    let inputs = loader_inputs(context.loader_input_paths@);
    if list.len() > 0 {
        lemma_zero();
        lemma_hashed_settings(context, list.drop_last());
        let last = hashed_setting(*context.host, paths, inputs, list.last())->Some_0;
        assert(last.last() == 0u8);
        assert(last =~= last.drop_last() + seq![0u8]);
        let strings = key_settings(context, list);
        assert(strings.drop_last() =~= key_settings(context, list.drop_last()));
        assert(strings.last() == last.drop_last());
        assert(terminated(strings.drop_last()) + (last.drop_last() + seq![0u8]) =~= terminated(
            strings,
        ));
    } else {
        assert(key_settings(context, list) =~= Seq::empty());
    }
}

/// Every setting takes part in the key: invocations with the same arguments and
/// the same key text have the same settings, as keys see them.
#[verifier::rlimit(40)]
pub proof fn law_settings_take_part_in_keys(
    context: KeyContext,
    left: &Command,
    right: &Command,
    loader_digest: Seq<u8>,
    action_digest: Seq<u8>,
)
    requires
        left.argument_list() == right.argument_list(),
        hashed_deployment(left, 5) == hashed_deployment(right, 5),
        without_zeros(key_settings(context, left.setting_list())),
        without_zeros(key_settings(context, right.setting_list())),
        key_text(context, left, loader_digest, action_digest) is Some,
        key_text(context, left, loader_digest, action_digest) == key_text(
            context,
            right,
            loader_digest,
            action_digest,
        ),
    ensures
        key_settings(context, left.setting_list()) == key_settings(
            context,
            right.setting_list(),
        ),
{
    let paths = path_texts(context.build_dir@, context.output_root@, context.compiler_program@);
    let inputs = loader_inputs(context.loader_input_paths@);
    let l = hashed_settings(*context.host, paths, inputs, left.setting_list())->Some_0;
    let r = hashed_settings(*context.host, paths, inputs, right.setting_list())->Some_0;
    lemma_hashed_settings(context, left.setting_list());
    lemma_hashed_settings(context, right.setting_list());
    let front = utf8("cargo-artifact-cache-v8\0"@) + utf8("rustc-verbose-version\0"@) + utf8(
        context.rustc_verbose_version@,
    ) + utf8("\0"@) + utf8("rustc-compiler-identity\0"@) + context.compiler_identity@ + utf8(
        "\0"@,
    ) + hashed_arguments(
        paths,
        left.argument_list(),
        left.argument_list().len() as int,
        byte_strings(context.modeled_dependency_search_paths@),
        context.portable_remaps@,
    );
    let back = utf8("compiler-loader-inputs-content\0"@) + loader_digest + utf8("\0"@) + utf8(
        "action-inputs-content\0"@,
    ) + action_digest + utf8("\0"@) + hashed_deployment(left, 5);
    lemma_regrouped_back(
        front,
        l,
        utf8("compiler-loader-inputs-content\0"@),
        loader_digest,
        utf8("\0"@),
        utf8("action-inputs-content\0"@),
        action_digest,
        hashed_deployment(left, 5),
    );
    lemma_regrouped_back(
        front,
        r,
        utf8("compiler-loader-inputs-content\0"@),
        loader_digest,
        utf8("\0"@),
        utf8("action-inputs-content\0"@),
        action_digest,
        hashed_deployment(left, 5),
    );
    lemma_middle(front, l, r, back);
    law_terminated_is_unambiguous(
        key_settings(context, left.setting_list()),
        key_settings(context, right.setting_list()),
    );
}

/// Parts one behind the other, however they are grouped.
proof fn lemma_regrouped_back(
    a: Seq<u8>,
    b: Seq<u8>,
    c: Seq<u8>,
    d: Seq<u8>,
    e: Seq<u8>,
    f: Seq<u8>,
    g: Seq<u8>,
    h: Seq<u8>,
)
    ensures
        a + b + c + d + e + f + g + e + h == a + b + (c + d + e + f + g + e + h),
{
    assert(a + b + c + d + e + f + g + e + h =~= a + b + (c + d + e + f + g + e + h));
}

/// Whether a variable only tells where something is on the machine.
pub open spec fn is_location(name: Seq<char>) -> bool {
    name == "CARGO_MANIFEST_DIR"@ || name == "CARGO_MANIFEST_PATH"@ || name == "CARGO"@
}

/// Whether settings are the same but for the values of variables that only tell
/// where something is.
pub open spec fn same_but_locations(left: SettingList, right: SettingList) -> bool {
    &&& left.len() == right.len()
    &&& forall|i: int|
        0 <= i < left.len() ==> (#[trigger] left[i]).0 == right[i].0 && (left[i].1 == right[i].1
            || (is_location(left[i].0) && left[i].1 is Some && right[i].1 is Some))
}

/// The names of such variables are not those of build script outputs.
proof fn lemma_locations_are_not_generated(name: Seq<char>)
    requires
        is_location(name),
    ensures
        !names_generated(name),
{
    reveal_strlit("CARGO_MANIFEST_DIR");
    reveal_strlit("CARGO_MANIFEST_PATH");
    reveal_strlit("CARGO");
    reveal_strlit("OUT_DIR");
    reveal_strlit("_OUT_DIR");
    let suffix = "_OUT_DIR"@;
    if suffix.is_suffix_of(name) {
        let at = name.len() - suffix.len();
        assert(name.skip(at) =~= name.subrange(at, name.len() as int));
        assert(name.subrange(at, name.len() as int)[1] == suffix[1]);
        assert(name[at + 1] == 'O');
    }
    assert(name.len() == 18 || name.len() == 19 || name.len() == 5);
    assert("OUT_DIR"@.len() == 7);
}

/// Settings that are the same but for such variables are hashed the same.
proof fn lemma_same_but_locations(context: KeyContext, left: SettingList, right: SettingList)
    requires
        same_but_locations(left, right),
        !is_location(context.host.loader_variable@),
    ensures
        ({
            let paths = path_texts(
                context.build_dir@,
                context.output_root@,
                context.compiler_program@,
            );
            let inputs = loader_inputs(context.loader_input_paths@);
            hashed_settings(*context.host, paths, inputs, left) == hashed_settings(
                *context.host,
                paths,
                inputs,
                right,
            )
        }),
    decreases left.len(),
{
    if left.len() > 0 {
        let lf = left.drop_last();
        let rf = right.drop_last();
        assert forall|i: int| 0 <= i < lf.len() implies (#[trigger] lf[i]).0 == rf[i].0 && (
        lf[i].1 == rf[i].1 || (is_location(lf[i].0) && lf[i].1 is Some && rf[i].1 is Some)) by {
            assert(lf[i] == left[i] && rf[i] == right[i]);
        }
        lemma_same_but_locations(context, lf, rf);
        let at = left.len() - 1;
        assert(left.last() == left[at] && right.last() == right[at]);
        if is_location(left[at].0) {
            lemma_locations_are_not_generated(left[at].0);
        }
    }
}

/// Where a package and its tools are on a machine does not take part in the
/// key: invocations that differ only in the variables that tell it have the same
/// key.
pub proof fn law_locations_do_not_change_keys(
    context: KeyContext,
    left: &Command,
    right: &Command,
    loader_digest: Seq<u8>,
    action_digest: Seq<u8>,
)
    requires
        left.argument_list() == right.argument_list(),
        same_but_locations(left.setting_list(), right.setting_list()),
        hashed_deployment(left, 5) == hashed_deployment(right, 5),
        !is_location(context.host.loader_variable@),
    ensures
        key_text(context, left, loader_digest, action_digest) == key_text(
            context,
            right,
            loader_digest,
            action_digest,
        ),
{
    lemma_same_but_locations(context, left.setting_list(), right.setting_list());
}

/// The paths of an invocation that its key names in a portable way.
pub open spec fn portable_paths(context: KeyContext) -> PathTexts {
    path_texts(context.build_dir@, context.output_root@, context.compiler_program@)
}

/// Whether a text holds another one somewhere.
pub open spec fn occurs(text: Seq<char>, part: Seq<char>) -> bool {
    exists|i: int| 0 <= i <= text.len() && part.is_prefix_of(#[trigger] text.skip(i))
}

/// Whether a text holds no portable path.
pub open spec fn is_free(paths: PathTexts, text: Seq<char>) -> bool {
    &&& !occurs(text, paths.0)
    &&& !occurs(text, paths.1)
    &&& match paths.2 {
        Some(sysroot) => !occurs(text, sysroot),
        None => true,
    }
}

/// Replacing what does not occur changes nothing.
pub proof fn lemma_nothing_replaced(text: Seq<char>, pattern: Seq<char>, filler: Seq<char>)
    requires
        !occurs(text, pattern),
    ensures
        replaced(text, pattern, filler) == text,
    decreases text.len(),
{
    assert(text.skip(0) =~= text);
    if pattern.len() == 0 {
        assert(pattern.is_prefix_of(text.skip(0)));
    } else if text.len() > 0 {
        let rest = text.drop_first();
        assert forall|i: int| 0 <= i <= rest.len() implies !pattern.is_prefix_of(
            #[trigger] rest.skip(i),
        ) by {
            assert(rest.skip(i) =~= text.skip(i + 1));
        }
        lemma_nothing_replaced(rest, pattern, filler);
        assert(!pattern.is_prefix_of(text));
        assert(seq![text[0]] + rest =~= text);
    }
}

/// A text without portable paths stands for itself.
proof fn lemma_free_texts(paths: PathTexts, text: Seq<char>)
    requires
        is_free(paths, text),
    ensures
        normalized(paths, text) == text,
{
    lemma_nothing_replaced(text, paths.0, "/__cargo_artifact_cache_target_profile"@);
    lemma_nothing_replaced(text, paths.1, "/__cargo_artifact_cache_build_dir"@);
    if let Some(sysroot) = paths.2 {
        lemma_nothing_replaced(text, sysroot, "/__cargo_artifact_cache_compiler_sysroot"@);
    }
}

/// Whether the argument at `index` is a path that the key names in a portable
/// way.
pub open spec fn is_portable_argument(context: KeyContext, rustc: &Command, index: int) -> bool {
    let list = rustc.argument_list();
    let value = lossy_text(list[index]);
    (index > 0 && is_path_operand(
        list[index - 1],
        value,
        byte_strings(context.modeled_dependency_search_paths@),
    )) || "-Cincremental="@.is_prefix_of(value)
}

/// Whether two arguments differ at most in where things are: both are rewritten
/// to the same by a remap rule; or neither is rewritten, and they are equal and
/// hold no portable path of either side, or are paths that have the same text
/// once the portable paths of their own side are replaced.
pub open spec fn arguments_alike(
    left: KeyContext,
    right: KeyContext,
    l: &Command,
    r: &Command,
    index: int,
) -> bool {
    let a = l.argument_list()[index];
    let b = r.argument_list()[index];
    let x = remapped(left.portable_remaps@, a);
    let y = remapped(right.portable_remaps@, b);
    ||| x is Some && x == y
    ||| {
        &&& x is None
        &&& y is None
        &&& a == b
        &&& is_free(portable_paths(left), lossy_text(a))
        &&& is_free(portable_paths(right), lossy_text(b))
    }
    ||| {
        &&& x is None
        &&& y is None
        &&& is_portable_argument(left, l, index)
        &&& is_portable_argument(right, r, index)
        &&& normalized(portable_paths(left), lossy_text(a)) == normalized(
            portable_paths(right),
            lossy_text(b),
        )
    }
}

/// Whether two paths of the loader variable stand at the same place below their
/// own roots, or have the same text once the portable paths of their own side
/// are replaced.
pub open spec fn searches_alike(
    left: KeyContext,
    right: KeyContext,
    a: Seq<u8>,
    b: Seq<u8>,
) -> bool {
    let variable = left.host.loader_variable@;
    match (
        place_written(loader_inputs(left.loader_input_paths@), variable, a),
        place_written(loader_inputs(right.loader_input_paths@), variable, b),
    ) {
        (
            Some(Some((root, _, relative))),
            Some(Some((other_root, _, other_relative))),
        ) => root == other_root && relative == other_relative,
        (Some(Some(_)), _) => false,
        (_, Some(Some(_))) => false,
        _ => normalized(portable_paths(left), lossy_text(a)) == normalized(
            portable_paths(right),
            lossy_text(b),
        ),
    }
}

/// Whether two values of a variable differ at most in where things are.
pub open spec fn values_alike(
    left: KeyContext,
    right: KeyContext,
    name: Seq<char>,
    a: Seq<u8>,
    b: Seq<u8>,
) -> bool {
    if names_generated(name) {
        normalized(portable_paths(left), lossy_text(a)) == normalized(
            portable_paths(right),
            lossy_text(b),
        )
    } else if name == left.host.loader_variable@ {
        let x = split_all(a, PATH_LIST_SEPARATOR);
        let y = split_all(b, PATH_LIST_SEPARATOR);
        x.len() == y.len() && forall|i: int|
            #![trigger x[i]]
            0 <= i < x.len() ==> searches_alike(left, right, x[i], y[i])
    } else {
        is_location(name) || a == b
    }
}

/// Whether two settings differ at most in where things are.
pub open spec fn settings_alike(
    left: KeyContext,
    right: KeyContext,
    a: (Seq<char>, Option<Seq<u8>>),
    b: (Seq<char>, Option<Seq<u8>>),
) -> bool {
    &&& a.0 == b.0
    &&& match (a.1, b.1) {
        (Some(x), Some(y)) => values_alike(left, right, a.0, x, y),
        (None, None) => true,
        _ => false,
    }
}

/// Arguments that differ at most in where things are, are hashed the same.
proof fn lemma_arguments_alike(
    left: KeyContext,
    right: KeyContext,
    l: &Command,
    r: &Command,
    count: int,
)
    requires
        0 <= count <= l.argument_list().len(),
        l.argument_list().len() == r.argument_list().len(),
        forall|i: int|
            0 <= i < l.argument_list().len() ==> #[trigger] arguments_alike(left, right, l, r, i),
    ensures
        hashed_arguments(
            portable_paths(left),
            l.argument_list(),
            count,
            byte_strings(left.modeled_dependency_search_paths@),
            left.portable_remaps@,
        ) == hashed_arguments(
            portable_paths(right),
            r.argument_list(),
            count,
            byte_strings(right.modeled_dependency_search_paths@),
            right.portable_remaps@,
        ),
    decreases count,
{
    if count > 0 {
        let at = count - 1;
        lemma_arguments_alike(left, right, l, r, at);
        assert(arguments_alike(left, right, l, r, at));
        let a = l.argument_list()[at];
        let b = r.argument_list()[at];
        if a == b && is_free(portable_paths(left), lossy_text(a)) && is_free(
            portable_paths(right),
            lossy_text(b),
        ) {
            lemma_free_texts(portable_paths(left), lossy_text(a));
            lemma_free_texts(portable_paths(right), lossy_text(b));
        }
    }
}

/// Values that differ at most in where things are, are hashed the same.
proof fn lemma_values_alike(
    left: KeyContext,
    right: KeyContext,
    name: Seq<char>,
    a: Seq<u8>,
    b: Seq<u8>,
)
    requires
        left.host.loader_variable@ == right.host.loader_variable@,
        values_alike(left, right, name, a, b),
    ensures
        hashed_value(
            *left.host,
            portable_paths(left),
            loader_inputs(left.loader_input_paths@),
            name,
            a,
        ) == hashed_value(
            *right.host,
            portable_paths(right),
            loader_inputs(right.loader_input_paths@),
            name,
            b,
        ),
{
    if !names_generated(name) && name == left.host.loader_variable@ {
        let x = split_all(a, PATH_LIST_SEPARATOR);
        let y = split_all(b, PATH_LIST_SEPARATOR);
        let lp = portable_paths(left);
        let rp = portable_paths(right);
        let li = loader_inputs(left.loader_input_paths@);
        let ri = loader_inputs(right.loader_input_paths@);
        let u = Seq::new(x.len(), |i: int| hashed_loader_path(lp, li, name, x[i]));
        let v = Seq::new(y.len(), |i: int| hashed_loader_path(rp, ri, name, y[i]));
        assert forall|i: int| 0 <= i < x.len() implies u[i] == v[i] by {
            assert(searches_alike(left, right, x[i], y[i]));
        }
        assert(u =~= v);
        assert(hashed_loader_value(lp, li, name, a) == hashed_loader_value(rp, ri, name, b));
    }
}

/// Settings that differ at most in where things are, are hashed the same.
proof fn lemma_settings_alike(
    left: KeyContext,
    right: KeyContext,
    l: SettingList,
    r: SettingList,
)
    requires
        left.host.loader_variable@ == right.host.loader_variable@,
        l.len() == r.len(),
        forall|i: int|
            #![trigger l[i]]
            0 <= i < l.len() ==> settings_alike(left, right, l[i], r[i]),
    ensures
        hashed_settings(
            *left.host,
            portable_paths(left),
            loader_inputs(left.loader_input_paths@),
            l,
        ) == hashed_settings(
            *right.host,
            portable_paths(right),
            loader_inputs(right.loader_input_paths@),
            r,
        ),
    decreases l.len(),
{
    if l.len() > 0 {
        let lf = l.drop_last();
        let rf = r.drop_last();
        assert forall|i: int|
            #![trigger lf[i]]
            0 <= i < lf.len() implies settings_alike(left, right, lf[i], rf[i]) by {
            assert(lf[i] == l[i] && rf[i] == r[i]);
        }
        lemma_settings_alike(left, right, lf, rf);
        let a = l[l.len() - 1];
        let b = r[r.len() - 1];
        assert(settings_alike(left, right, a, b));
        if let (Some(x), Some(y)) = (a.1, b.1) {
            lemma_values_alike(left, right, a.0, x, y);
        }
    }
}

/// Keys are shared across locations: invocations of one compiler whose
/// arguments and settings differ at most in where the target directory, the
/// build directory, the compiler and the package stand have the same key.
pub proof fn law_keys_are_shared_across_locations(
    left: KeyContext,
    right: KeyContext,
    l: &Command,
    r: &Command,
    loader_digest: Seq<u8>,
    action_digest: Seq<u8>,
)
    requires
        left.host.loader_variable@ == right.host.loader_variable@,
        left.rustc_verbose_version@ == right.rustc_verbose_version@,
        left.compiler_identity@ == right.compiler_identity@,
        hashed_deployment(l, 5) == hashed_deployment(r, 5),
        l.argument_list().len() == r.argument_list().len(),
        forall|i: int|
            0 <= i < l.argument_list().len() ==> #[trigger] arguments_alike(left, right, l, r, i),
        l.setting_list().len() == r.setting_list().len(),
        forall|i: int|
            #![trigger l.setting_list()[i]]
            0 <= i < l.setting_list().len() ==> settings_alike(
                left,
                right,
                l.setting_list()[i],
                r.setting_list()[i],
            ),
    ensures
        key_text(left, l, loader_digest, action_digest) == key_text(
            right,
            r,
            loader_digest,
            action_digest,
        ),
{
    lemma_arguments_alike(left, right, l, r, l.argument_list().len() as int);
    lemma_settings_alike(left, right, l.setting_list(), r.setting_list());
}

/// Replacing what occurs once, behind `before`.
proof fn lemma_replaced_once(
    before: Seq<char>,
    pattern: Seq<char>,
    below: Seq<char>,
    filler: Seq<char>,
)
    requires
        pattern.len() > 0,
        forall|i: int|
            0 <= i < before.len() ==> !pattern.is_prefix_of(
                #[trigger] (before + pattern + below).skip(i),
            ),
        !occurs(below, pattern),
    ensures
        replaced(before + pattern + below, pattern, filler) == before + filler + below,
    decreases before.len(),
{
    let text = before + pattern + below;
    assert(text.skip(0) =~= text);
    if before.len() == 0 {
        assert(text =~= pattern + below);
        assert(text.skip(pattern.len() as int) =~= below);
        assert(pattern.is_prefix_of(text));
        lemma_nothing_replaced(below, pattern, filler);
        assert(filler + below =~= before + filler + below);
    } else {
        let rest = before.drop_first();
        let tail = rest + pattern + below;
        assert(text.drop_first() =~= tail);
        assert forall|i: int| 0 <= i < rest.len() implies !pattern.is_prefix_of(
            #[trigger] tail.skip(i),
        ) by {
            assert(tail.skip(i) =~= text.skip(i + 1));
        }
        lemma_replaced_once(rest, pattern, below, filler);
        assert(!pattern.is_prefix_of(text.skip(0)));
        assert(seq![text[0]] + (rest + filler + below) =~= before + filler + below);
    }
}

/// A path below the target profile, behind what names it, has the same text in
/// the key wherever the profile stands.
pub proof fn law_target_paths_are_portable(
    paths: PathTexts,
    before: Seq<char>,
    below: Seq<char>,
)
    requires
        paths.0.len() > 0,
        forall|i: int|
            0 <= i < before.len() ==> !paths.0.is_prefix_of(
                #[trigger] (before + paths.0 + below).skip(i),
            ),
        !occurs(below, paths.0),
        !occurs(before + "/__cargo_artifact_cache_target_profile"@ + below, paths.1),
        paths.2 is Some ==> !occurs(
            before + "/__cargo_artifact_cache_target_profile"@ + below,
            paths.2->0,
        ),
    ensures
        normalized(paths, before + paths.0 + below) == before
            + "/__cargo_artifact_cache_target_profile"@ + below,
{
    let filler = "/__cargo_artifact_cache_target_profile"@;
    lemma_replaced_once(before, paths.0, below, filler);
    let text = before + filler + below;
    lemma_nothing_replaced(text, paths.1, "/__cargo_artifact_cache_build_dir"@);
    if let Some(sysroot) = paths.2 {
        lemma_nothing_replaced(text, sysroot, "/__cargo_artifact_cache_compiler_sysroot"@);
    }
}

/// Invocations whose keys are shared find each other's entries: where the
/// loader texts and the texts of the action inputs are the same too, the entries
/// stand in the same directory of the cache.
pub proof fn law_shared_keys_name_one_entry(
    left: KeyContext,
    right: KeyContext,
    l: &Command,
    r: &Command,
    cache_root: Seq<u8>,
    loader: Seq<u8>,
    left_parts: (Seq<u8>, Seq<InputMark>, bool),
    right_parts: (Seq<u8>, Seq<InputMark>, bool),
    left_key: PreparedArtifactCacheKey,
    right_key: PreparedArtifactCacheKey,
)
    requires
        left_parts.0 == right_parts.0,
        is_key(left_key, cache_root, l, left, loader, left_parts),
        is_key(right_key, cache_root, r, right, loader, right_parts),
        key_text(
            left,
            l,
            blake3_digest(loader),
            blake3_digest(action_text(left_parts.0)),
        ) == key_text(
            right,
            r,
            blake3_digest(loader),
            blake3_digest(action_text(left_parts.0)),
        ),
    ensures
        left_key.key.entry_root@ == right_key.key.entry_root@,
        left_key.key.loader_inputs_digest@ == right_key.key.loader_inputs_digest@,
        left_key.key.action_inputs_digest@ == right_key.key.action_inputs_digest@,
{
}

/// Both digests take part in the key: for one invocation in one context, the
/// text that is hashed is the same only where the digest of the loader inputs is
/// the same, and that of the action inputs. Digests have one length.
#[verifier::rlimit(40)]
pub proof fn law_digests_take_part_in_keys(
    context: KeyContext,
    rustc: &Command,
    left_loader: Seq<u8>,
    left_action: Seq<u8>,
    right_loader: Seq<u8>,
    right_action: Seq<u8>,
)
    requires
        left_loader.len() == right_loader.len(),
        left_action.len() == right_action.len(),
        key_text(context, rustc, left_loader, left_action) is Some,
        key_text(context, rustc, left_loader, left_action) == key_text(
            context,
            rustc,
            right_loader,
            right_action,
        ),
    ensures
        left_loader == right_loader,
        left_action == right_action,
{
    let paths = portable_paths(context);
    let settings = hashed_settings(
        *context.host,
        paths,
        loader_inputs(context.loader_input_paths@),
        rustc.setting_list(),
    )->Some_0;
    let front = utf8("cargo-artifact-cache-v8\0"@) + utf8("rustc-verbose-version\0"@) + utf8(
        context.rustc_verbose_version@,
    ) + utf8("\0"@) + utf8("rustc-compiler-identity\0"@) + context.compiler_identity@ + utf8(
        "\0"@,
    ) + hashed_arguments(
        paths,
        rustc.argument_list(),
        rustc.argument_list().len() as int,
        byte_strings(context.modeled_dependency_search_paths@),
        context.portable_remaps@,
    ) + settings + utf8("compiler-loader-inputs-content\0"@);
    let middle = utf8("\0"@);
    let mark = utf8("action-inputs-content\0"@);
    let end = utf8("\0"@);
    let last = hashed_deployment(rustc, 5);
    let a = front + left_loader;
    let b = front + right_loader;
    lemma_split_parts(
        a + middle + mark + left_action + end,
        last,
        b + middle + mark + right_action + end,
        last,
    );
    lemma_split_parts(
        a + middle + mark + left_action,
        end,
        b + middle + mark + right_action,
        end,
    );
    lemma_split_parts(a + middle + mark, left_action, b + middle + mark, right_action);
    lemma_split_parts(a + middle, mark, b + middle, mark);
    lemma_split_parts(a, middle, b, middle);
    lemma_split_parts(front, left_loader, front, right_loader);
}

/// The compiler takes part in the key: for one invocation in two contexts that
/// differ in the compiler only, the text that is hashed is the same only where
/// the compiler tells the same version, and its identity is the same.
#[verifier::rlimit(40)]
pub proof fn law_compilers_take_part_in_keys(
    left: KeyContext,
    right: KeyContext,
    rustc: &Command,
    loader_digest: Seq<u8>,
    action_digest: Seq<u8>,
)
    requires
        right == (KeyContext {
            rustc_verbose_version: right.rustc_verbose_version,
            compiler_identity: right.compiler_identity,
            ..left
        }),
        key_text(left, rustc, loader_digest, action_digest) is Some,
        key_text(left, rustc, loader_digest, action_digest) == key_text(
            right,
            rustc,
            loader_digest,
            action_digest,
        ),
    ensures
        left.rustc_verbose_version@ == right.rustc_verbose_version@,
        left.compiler_identity@ == right.compiler_identity@,
{
    let paths = portable_paths(left);
    let settings = hashed_settings(
        *left.host,
        paths,
        loader_inputs(left.loader_input_paths@),
        rustc.setting_list(),
    )->Some_0;
    let arguments = hashed_arguments(
        paths,
        rustc.argument_list(),
        rustc.argument_list().len() as int,
        byte_strings(left.modeled_dependency_search_paths@),
        left.portable_remaps@,
    );
    let front = utf8("cargo-artifact-cache-v8\0"@) + utf8("rustc-verbose-version\0"@);
    let zero = utf8("\0"@);
    let mark = utf8("rustc-compiler-identity\0"@);
    let first = utf8("compiler-loader-inputs-content\0"@);
    let second = utf8("action-inputs-content\0"@);
    let last = hashed_deployment(rustc, 5);
    let v = utf8(left.rustc_verbose_version@);
    let w = utf8(right.rustc_verbose_version@);
    let i = left.compiler_identity@;
    let j = right.compiler_identity@;
    let back = zero + arguments + settings + first + loader_digest + zero + second + action_digest
        + zero + last;
    assert(key_text(left, rustc, loader_digest, action_digest)->Some_0 =~= front + v + zero + mark
        + i + back);
    assert(key_text(right, rustc, loader_digest, action_digest)->Some_0 =~= front + w + zero + mark
        + j + back);
    assert(i.len() == j.len());
    assert((front + v + zero + mark + i + back).len() == (front + w + zero + mark + j
        + back).len());
    assert(v.len() == w.len());
    lemma_split_parts(front + v + zero + mark + i, back, front + w + zero + mark + j, back);
    lemma_split_parts(front + v + zero + mark, i, front + w + zero + mark, j);
    lemma_split_parts(front + v + zero, mark, front + w + zero, mark);
    lemma_split_parts(front + v, zero, front + w, zero);
    lemma_split_parts(front, v, front, w);
    lemma_texts_of_bytes(left.rustc_verbose_version@, right.rustc_verbose_version@);
}

/// Texts with the same encoding are the same.
pub proof fn lemma_texts_of_bytes(left: Seq<char>, right: Seq<char>)
    requires
        utf8(left) == utf8(right),
    ensures
        left == right,
{
    encode_utf8_decode_utf8(left);
    encode_utf8_decode_utf8(right);
}

/// Whether an argument is hashed as it is: no rule rewrites it, and it stands
/// behind no flag that takes a path, or it holds no path that is named in a
/// portable way.
pub open spec fn is_untouched(context: KeyContext, rustc: &Command, index: int) -> bool {
    let list = rustc.argument_list();
    let text = lossy_text(list[index]);
    &&& forall|k: int|
        0 <= k < context.portable_remaps@.len() ==> (
        #[trigger] context.portable_remaps@[k]).original@ != list[index]
    &&& {
        ||| {
            &&& !"-Cincremental="@.is_prefix_of(text)
            &&& index == 0 || {
                &&& list[index - 1] != utf8("--out-dir"@)
                &&& list[index - 1] != utf8("--extern"@)
                &&& list[index - 1] != utf8("-L"@)
                &&& list[index - 1] != utf8("-C"@)
            }
        }
        ||| is_free(portable_paths(context), text)
    }
}

/// An argument that no rule rewrites is not rewritten.
proof fn lemma_not_remapped(remaps: Seq<PortableRemap>, argument: Seq<u8>)
    requires
        forall|k: int| 0 <= k < remaps.len() ==> (#[trigger] remaps[k]).original@ != argument,
    ensures
        remapped(remaps, argument) is None,
    decreases remaps.len(),
{
    if remaps.len() > 0 {
        assert(remaps[0].original@ != argument);
        let rest = remaps.drop_first();
        assert forall|k: int| 0 <= k < rest.len() implies (#[trigger] rest[k]).original@
            != argument by {
            assert(rest[k] == remaps[k + 1]);
        }
        lemma_not_remapped(rest, argument);
    }
}

/// An argument that is hashed as it is.
proof fn lemma_untouched(context: KeyContext, rustc: &Command, index: int)
    requires
        0 <= index < rustc.argument_list().len(),
        is_untouched(context, rustc, index),
    ensures
        key_arguments(context, rustc)[index] == utf8(lossy_text(rustc.argument_list()[index])),
{
    let list = rustc.argument_list();
    let text = lossy_text(list[index]);
    lemma_not_remapped(context.portable_remaps@, list[index]);
    if is_free(portable_paths(context), text) {
        lemma_free_texts(portable_paths(context), text);
    }
}

/// Arguments take part in the key as they are: where two invocations with the
/// same settings have the same key, they have as many arguments, and each that is
/// hashed as it is in both is the same text. So another condition, edition,
/// crate name or option is another key, wherever the build stands.
pub proof fn law_other_arguments_are_other_keys(
    context: KeyContext,
    left: &Command,
    right: &Command,
    loader_digest: Seq<u8>,
    action_digest: Seq<u8>,
    index: int,
)
    requires
        left.setting_list() == right.setting_list(),
        hashed_deployment(left, 5) == hashed_deployment(right, 5),
        without_zeros(key_arguments(context, left)),
        without_zeros(key_arguments(context, right)),
        key_text(context, left, loader_digest, action_digest) is Some,
        key_text(context, left, loader_digest, action_digest) == key_text(
            context,
            right,
            loader_digest,
            action_digest,
        ),
        0 <= index < left.argument_list().len(),
    ensures
        left.argument_list().len() == right.argument_list().len(),
        is_untouched(context, left, index) && is_untouched(context, right, index) ==> lossy_text(
            left.argument_list()[index],
        ) == lossy_text(right.argument_list()[index]),
{
    law_arguments_take_part_in_keys(context, left, right, loader_digest, action_digest);
    assert(key_arguments(context, left).len() == key_arguments(context, right).len());
    if is_untouched(context, left, index) && is_untouched(context, right, index) {
        lemma_untouched(context, left, index);
        lemma_untouched(context, right, index);
        lemma_texts_of_bytes(
            lossy_text(left.argument_list()[index]),
            lossy_text(right.argument_list()[index]),
        );
    }
}

/// Whether a variable is hashed as it is: it does not name generated sources, is
/// not that of the loader, and does not only tell where something is.
pub open spec fn is_plain_variable(context: KeyContext, name: Seq<char>) -> bool {
    &&& name != "OUT_DIR"@
    &&& !"_OUT_DIR"@.is_suffix_of(name)
    &&& name != context.host.loader_variable@
    &&& name != "CARGO_MANIFEST_DIR"@
    &&& name != "CARGO_MANIFEST_PATH"@
    &&& name != "CARGO"@
}

/// The text of a value, or none where a variable is unset.
pub open spec fn value_text(value: Option<Seq<u8>>) -> Seq<u8> {
    match value {
        Some(value) => utf8(lossy_text(value)),
        None => Seq::empty(),
    }
}

/// What is hashed of a setting begins with its name.
proof fn lemma_setting_begins(context: KeyContext, list: SettingList, index: int)
    requires
        0 <= index < list.len(),
        hashed_setting(
            *context.host,
            portable_paths(context),
            loader_inputs(context.loader_input_paths@),
            list[index],
        ) is Some,
    ensures
        exists|rest: Seq<u8>|
            #[trigger] (utf8(list[index].0) + utf8("="@) + rest) == key_settings(
                context,
                list,
            )[index] && (is_plain_variable(context, list[index].0) ==> rest == value_text(
                list[index].1,
            )),
{
    lemma_zero();
    let hashed = hashed_setting(
        *context.host,
        portable_paths(context),
        loader_inputs(context.loader_input_paths@),
        list[index],
    )->Some_0;
    let name = utf8(list[index].0);
    let rest = match list[index].1 {
        Some(value) => hashed_value(
            *context.host,
            portable_paths(context),
            loader_inputs(context.loader_input_paths@),
            list[index].0,
            value,
        )->Some_0,
        None => Seq::empty(),
    };
    assert(hashed.drop_last() =~= name + utf8("="@) + rest);
    assert(key_settings(context, list)[index] == name + utf8("="@) + rest);
}

/// Every setting that is hashed has a text.
proof fn lemma_each_setting_hashed(context: KeyContext, list: SettingList, index: int)
    requires
        0 <= index < list.len(),
        hashed_settings(
            *context.host,
            portable_paths(context),
            loader_inputs(context.loader_input_paths@),
            list,
        ) is Some,
    ensures
        hashed_setting(
            *context.host,
            portable_paths(context),
            loader_inputs(context.loader_input_paths@),
            list[index],
        ) is Some,
    decreases list.len(),
{
    if index < list.len() - 1 {
        lemma_each_setting_hashed(context, list.drop_last(), index);
    }
}

/// Settings take part in the key as they are: where two invocations with the
/// same arguments have the same key, they set the same variables, and each that
/// is hashed as it is to the same text. Names hold no equals sign.
pub proof fn law_other_settings_are_other_keys(
    context: KeyContext,
    left: &Command,
    right: &Command,
    loader_digest: Seq<u8>,
    action_digest: Seq<u8>,
    index: int,
)
    requires
        left.argument_list() == right.argument_list(),
        hashed_deployment(left, 5) == hashed_deployment(right, 5),
        without_zeros(key_settings(context, left.setting_list())),
        without_zeros(key_settings(context, right.setting_list())),
        forall|i: int|
            0 <= i < left.setting_list().len() ==> !utf8(
                (#[trigger] left.setting_list()[i]).0,
            ).contains(0x3d),
        forall|i: int|
            0 <= i < right.setting_list().len() ==> !utf8(
                (#[trigger] right.setting_list()[i]).0,
            ).contains(0x3d),
        key_text(context, left, loader_digest, action_digest) is Some,
        key_text(context, left, loader_digest, action_digest) == key_text(
            context,
            right,
            loader_digest,
            action_digest,
        ),
        0 <= index < left.setting_list().len(),
    ensures
        left.setting_list().len() == right.setting_list().len(),
        left.setting_list()[index].0 == right.setting_list()[index].0,
        is_plain_variable(context, left.setting_list()[index].0) ==> value_text(
            left.setting_list()[index].1,
        ) == value_text(right.setting_list()[index].1),
{
    law_settings_take_part_in_keys(context, left, right, loader_digest, action_digest);
    let l = left.setting_list();
    let r = right.setting_list();
    assert(key_settings(context, l).len() == key_settings(context, r).len());
    lemma_each_setting_hashed(context, l, index);
    lemma_each_setting_hashed(context, r, index);
    lemma_setting_begins(context, l, index);
    lemma_setting_begins(context, r, index);
    let x = choose|rest: Seq<u8>|
        #[trigger] (utf8(l[index].0) + utf8("="@) + rest) == key_settings(context, l)[index] && (
        is_plain_variable(context, l[index].0) ==> rest == value_text(l[index].1));
    let y = choose|rest: Seq<u8>|
        #[trigger] (utf8(r[index].0) + utf8("="@) + rest) == key_settings(context, r)[index] && (
        is_plain_variable(context, r[index].0) ==> rest == value_text(r[index].1));
    let a = utf8(l[index].0);
    let b = utf8(r[index].0);
    reveal_strlit("=");
    is_ascii_chars_encode_utf8("="@);
    let sign = utf8("="@);
    assert(sign =~= seq![0x3du8]);
    let text = a + sign + x;
    assert(text == b + sign + y);
    assert(text[a.len() as int] == 0x3d);
    assert((b + sign + y)[b.len() as int] == 0x3d);
    if a.len() < b.len() {
        assert(b[a.len() as int] == 0x3d);
        assert(b.contains(0x3d));
    }
    if b.len() < a.len() {
        assert(a[b.len() as int] == 0x3d);
        assert(a.contains(0x3d));
    }
    lemma_split_parts(a + sign, x, b + sign, y);
    lemma_split_parts(a, sign, b, sign);
    lemma_texts_of_bytes(l[index].0, r[index].0);
}

/// The value of a variable that an invocation sees, or none.
pub open spec fn seen(rustc: &Command, name: Seq<char>) -> Seq<u8> {
    match rustc.effective(name) {
        Some(value) => value,
        None => Seq::empty(),
    }
}

/// The deployment variables with the values that an invocation sees.
spec fn deployment_strings(rustc: &Command, count: int) -> Seq<Seq<u8>> {
    Seq::new(
        count as nat,
        |i: int| utf8(deployment_variables()[i]) + utf8("="@) + seen(rustc, deployment_variables()[i]),
    )
}

/// Deployment variables, seen as byte strings with zero bytes behind them.
proof fn lemma_deployment_strings(rustc: &Command, count: int)
    requires
        0 <= count <= 5,
    ensures
        hashed_deployment(rustc, count) == terminated(deployment_strings(rustc, count)),
    decreases count,
{
    lemma_zero();
    let list = deployment_strings(rustc, count);
    if count > 0 {
        lemma_deployment_strings(rustc, count - 1);
        assert(list.drop_last() =~= deployment_strings(rustc, count - 1));
        assert(list.last() == utf8(deployment_variables()[count - 1]) + utf8("="@) + seen(
            rustc,
            deployment_variables()[count - 1],
        ));
        assert(hashed_deployment(rustc, count) =~= terminated(list));
    }
}

/// The oldest systems that code is made for take part in the key: invocations
/// with the same arguments and settings have the same key only where they see the
/// same values of the variables that select them on Apple's systems.
pub proof fn law_deployment_takes_part_in_keys(
    context: KeyContext,
    left: &Command,
    right: &Command,
    loader_digest: Seq<u8>,
    action_digest: Seq<u8>,
)
    requires
        left.argument_list() == right.argument_list(),
        left.setting_list() == right.setting_list(),
        forall|name: Seq<char>|
            !(#[trigger] seen(left, name)).contains(0u8) && !seen(right, name).contains(0u8),
        key_text(context, left, loader_digest, action_digest) is Some,
        key_text(context, left, loader_digest, action_digest) == key_text(
            context,
            right,
            loader_digest,
            action_digest,
        ),
    ensures
        seen(left, "MACOSX_DEPLOYMENT_TARGET"@) == seen(right, "MACOSX_DEPLOYMENT_TARGET"@),
        seen(left, "IPHONEOS_DEPLOYMENT_TARGET"@) == seen(right, "IPHONEOS_DEPLOYMENT_TARGET"@),
        seen(left, "WATCHOS_DEPLOYMENT_TARGET"@) == seen(right, "WATCHOS_DEPLOYMENT_TARGET"@),
        seen(left, "TVOS_DEPLOYMENT_TARGET"@) == seen(right, "TVOS_DEPLOYMENT_TARGET"@),
        seen(left, "XROS_DEPLOYMENT_TARGET"@) == seen(right, "XROS_DEPLOYMENT_TARGET"@),
{
    let paths = portable_paths(context);
    let settings = hashed_settings(
        *context.host,
        paths,
        loader_inputs(context.loader_input_paths@),
        left.setting_list(),
    )->Some_0;
    let front = utf8("cargo-artifact-cache-v8\0"@) + utf8("rustc-verbose-version\0"@) + utf8(
        context.rustc_verbose_version@,
    ) + utf8("\0"@) + utf8("rustc-compiler-identity\0"@) + context.compiler_identity@ + utf8(
        "\0"@,
    ) + hashed_arguments(
        paths,
        left.argument_list(),
        left.argument_list().len() as int,
        byte_strings(context.modeled_dependency_search_paths@),
        context.portable_remaps@,
    ) + settings + utf8("compiler-loader-inputs-content\0"@) + loader_digest + utf8("\0"@) + utf8(
        "action-inputs-content\0"@,
    ) + action_digest + utf8("\0"@);
    lemma_split_parts(front, hashed_deployment(left, 5), front, hashed_deployment(right, 5));
    lemma_deployment_told(left, right);
    let all = deployment_variables();
    assert(all[0] == "MACOSX_DEPLOYMENT_TARGET"@);
    assert(all[1] == "IPHONEOS_DEPLOYMENT_TARGET"@);
    assert(all[2] == "WATCHOS_DEPLOYMENT_TARGET"@);
    assert(all[3] == "TVOS_DEPLOYMENT_TARGET"@);
    assert(all[4] == "XROS_DEPLOYMENT_TARGET"@);
}

/// Deployment variables that are hashed the same have the same values.
#[verifier::rlimit(40)]
proof fn lemma_deployment_told(left: &Command, right: &Command)
    requires
        hashed_deployment(left, 5) == hashed_deployment(right, 5),
        forall|name: Seq<char>|
            !(#[trigger] seen(left, name)).contains(0u8) && !seen(right, name).contains(0u8),
    ensures
        forall|i: int|
            0 <= i < 5 ==> seen(left, #[trigger] deployment_variables()[i]) == seen(
                right,
                deployment_variables()[i],
            ),
{
    lemma_deployment_strings(left, 5);
    lemma_deployment_strings(right, 5);
    let l = deployment_strings(left, 5);
    let r = deployment_strings(right, 5);
    let all = deployment_variables();
    assert forall|i: int| 0 <= i < 5 implies !utf8(#[trigger] all[i]).contains(0u8) by {
        lemma_variable_names(i);
    }
    reveal_strlit("=");
    is_ascii_chars_encode_utf8("="@);
    assert(utf8("="@) =~= seq![0x3du8]);
    assert forall|i: int| 0 <= i < l.len() implies !(#[trigger] l[i]).contains(0u8) by {
        lemma_no_zero(utf8(all[i]), utf8("="@), seen(left, all[i]));
    }
    assert forall|i: int| 0 <= i < r.len() implies !(#[trigger] r[i]).contains(0u8) by {
        assert(!seen(left, all[i]).contains(0u8));
        lemma_no_zero(utf8(all[i]), utf8("="@), seen(right, all[i]));
    }
    law_terminated_is_unambiguous(l, r);
    assert forall|i: int| 0 <= i < 5 implies seen(left, #[trigger] all[i]) == seen(
        right,
        all[i],
    ) by {
        assert(l[i] == r[i]);
        lemma_split_parts(
            utf8(all[i]) + utf8("="@),
            seen(left, all[i]),
            utf8(all[i]) + utf8("="@),
            seen(right, all[i]),
        );
    }
}

/// Parts without zero bytes have none together.
proof fn lemma_no_zero(a: Seq<u8>, b: Seq<u8>, c: Seq<u8>)
    requires
        !a.contains(0u8),
        !b.contains(0u8),
        !c.contains(0u8),
    ensures
        !(a + b + c).contains(0u8),
{
    let text = a + b + c;
    if text.contains(0u8) {
        let k = choose|k: int| 0 <= k < text.len() && text[k] == 0u8;
        if k < a.len() {
            assert(a[k] == 0u8);
        } else if k < a.len() + b.len() {
            assert(b[k - a.len()] == 0u8);
        } else {
            assert(c[k - a.len() - b.len()] == 0u8);
        }
    }
}

/// The names of deployment variables are plain.
proof fn lemma_variable_names(index: int)
    requires
        0 <= index < 5,
    ensures
        !utf8(deployment_variables()[index]).contains(0u8),
{
    reveal_strlit("MACOSX_DEPLOYMENT_TARGET");
    reveal_strlit("IPHONEOS_DEPLOYMENT_TARGET");
    reveal_strlit("WATCHOS_DEPLOYMENT_TARGET");
    reveal_strlit("TVOS_DEPLOYMENT_TARGET");
    reveal_strlit("XROS_DEPLOYMENT_TARGET");
    let name = deployment_variables()[index];
    is_ascii_chars_encode_utf8(name);
    assert forall|k: int| 0 <= k < utf8(name).len() implies utf8(name)[k] != 0u8 by {
        assert(utf8(name)[k] == name[k] as u8);
    }
}

/// A digest in hexadecimal notation is no absolute path.
proof fn lemma_hex_is_relative(input: Seq<u8>)
    ensures
        !is_absolute(utf8(hex_digest(input))),
{
    let text = hex_digest(input);
    let digest = blake3_digest(input);
    assert forall|i: int| 0 <= i < text.len() implies '\0' <= #[trigger] text[i] <= '\u{7f}'
        && text[i] as u8 != 0x2f by {
        assert(text[i] == hex_digit(digest[i / 2] as int / 16) || text[i] == hex_digit(
            digest[i / 2] as int % 16,
        ));
    }
    assert(is_ascii_chars(text));
    is_ascii_chars_encode_utf8(text);
    if text.len() > 0 {
        assert(utf8(text)[0] == text[0] as u8);
    }
}

/// Other inputs find other entries: of two keys of one invocation in one context,
/// the entries stand in one directory of the cache only where the digests of the
/// loader inputs and of the action inputs are the same. The texts that are
/// hashed for the keys have to have other digests where they differ.
pub proof fn law_other_inputs_find_other_entries(
    context: KeyContext,
    rustc: &Command,
    cache_root: Seq<u8>,
    left_loader: Seq<u8>,
    right_loader: Seq<u8>,
    left_parts: (Seq<u8>, Seq<InputMark>, bool),
    right_parts: (Seq<u8>, Seq<InputMark>, bool),
    left_key: PreparedArtifactCacheKey,
    right_key: PreparedArtifactCacheKey,
)
    requires
        is_key(left_key, cache_root, rustc, context, left_loader, left_parts),
        is_key(right_key, cache_root, rustc, context, right_loader, right_parts),
        ({
            let left = key_text(
                context,
                rustc,
                blake3_digest(left_loader),
                blake3_digest(action_text(left_parts.0)),
            )->Some_0;
            let right = key_text(
                context,
                rustc,
                blake3_digest(right_loader),
                blake3_digest(action_text(right_parts.0)),
            )->Some_0;
            hex_digest(left) == hex_digest(right) ==> left == right
        }),
        left_key.key.entry_root@ == right_key.key.entry_root@,
    ensures
        blake3_digest(left_loader) == blake3_digest(right_loader),
        blake3_digest(utf8("cargo-artifact-cache-action-inputs-v1\0"@) + left_parts.0)
            == blake3_digest(utf8("cargo-artifact-cache-action-inputs-v1\0"@) + right_parts.0),
{
    let a = blake3_digest(left_loader);
    let b = blake3_digest(action_text(left_parts.0));
    let c = blake3_digest(right_loader);
    let d = blake3_digest(action_text(right_parts.0));
    let left = key_text(context, rustc, a, b)->Some_0;
    let right = key_text(context, rustc, c, d)->Some_0;
    assert(a.len() == 32 && c.len() == 32) by {
        assert(left_key.key.loader_inputs_digest@ == a);
        assert(right_key.key.loader_inputs_digest@ == c);
    }
    assert(b.len() == 32 && d.len() == 32) by {
        assert(left_key.key.action_inputs_digest@ == b);
        assert(right_key.key.action_inputs_digest@ == d);
    }
    let x = utf8(hex_digest(left));
    let y = utf8(hex_digest(right));
    lemma_hex_is_relative(left);
    lemma_hex_is_relative(right);
    assert(joined(cache_root, x) == joined(cache_root, y));
    let base = if cache_root.len() > 0 && cache_root.last() != SEPARATOR {
        cache_root.push(SEPARATOR)
    } else {
        cache_root
    };
    assert(joined(cache_root, x) == base + x);
    assert(joined(cache_root, y) == base + y);
    lemma_split_parts(base, x, base, y);
    lemma_texts_of_bytes(hex_digest(left), hex_digest(right));
    law_digests_take_part_in_keys(context, rustc, a, b, c, d);
}

/// Whether two texts are one but for a directory in it, which stands in each once:
/// behind `before`, with `below` behind it. The texts hold none of the other
/// directories once the directory is named in a portable way.
pub open spec fn is_moved(
    left: Seq<char>,
    right: Seq<char>,
    left_profile: Seq<char>,
    right_profile: Seq<char>,
    build_dir: Seq<char>,
    sysroot: Option<Seq<char>>,
    before: Seq<char>,
    below: Seq<char>,
) -> bool {
    let named = before + "/__cargo_artifact_cache_target_profile"@ + below;
    &&& left == before + left_profile + below
    &&& right == before + right_profile + below
    &&& stands_once(before, left_profile, below)
    &&& stands_once(before, right_profile, below)
    &&& !occurs(named, build_dir)
    &&& sysroot is Some ==> !occurs(named, sysroot->Some_0)
}

/// Whether a part stands between two others, and starts nowhere before that and
/// nowhere behind.
pub open spec fn stands_once(before: Seq<char>, part: Seq<char>, below: Seq<char>) -> bool {
    &&& part.len() > 0
    &&& forall|i: int|
        0 <= i < before.len() ==> !part.is_prefix_of(#[trigger] (before + part + below).skip(i))
    &&& !occurs(below, part)
}

/// Whether an argument stands behind a flag that takes a path: an output
/// directory, a crate, a search path, or the directory of incremental
/// compilation, which may also stand in one argument with its flag.
pub open spec fn stands_behind_path_flag(
    list: Seq<Seq<u8>>,
    index: int,
    modeled_search_paths: Seq<Seq<u8>>,
) -> bool {
    let text = lossy_text(list[index]);
    ||| "-Cincremental="@.is_prefix_of(text)
    ||| index > 0 && list[index - 1] == utf8("--out-dir"@)
    ||| index > 0 && list[index - 1] == utf8("--extern"@)
    ||| index > 0 && list[index - 1] == utf8("-C"@) && "incremental="@.is_prefix_of(text)
    ||| index > 0 && list[index - 1] == utf8("-L"@) && !"dependency="@.is_prefix_of(text)
        && !"crate="@.is_prefix_of(text)
    ||| index > 0 && list[index - 1] == utf8("-L"@) && modeled_search_paths.contains(utf8(text))
}

/// Whether no rule rewrites an argument.
pub open spec fn no_rule_for(context: KeyContext, argument: Seq<u8>) -> bool {
    forall|k: int|
        0 <= k < context.portable_remaps@.len() ==> (
        #[trigger] context.portable_remaps@[k]).original@ != argument
}

/// Whether the rule at a position is the first that rewrites an argument.
pub open spec fn is_first_rule(context: KeyContext, argument: Seq<u8>, at: int) -> bool {
    &&& 0 <= at < context.portable_remaps@.len()
    &&& context.portable_remaps@[at].original@ == argument
    &&& forall|k: int|
        0 <= k < at ==> (#[trigger] context.portable_remaps@[k]).original@ != argument
}

/// Whether two arguments of builds with other target directories are alike: rules
/// rewrite both to the same; or none does, and they are equal and hold none of
/// the directories; or none does, and both are paths, and the same but for the
/// target directory.
pub open spec fn is_moved_argument(
    left: KeyContext,
    right: KeyContext,
    l: &Command,
    r: &Command,
    index: int,
) -> bool {
    let a = l.argument_list()[index];
    let b = r.argument_list()[index];
    let p = lossy_text(parent_or_self(left.output_root@));
    let q = lossy_text(parent_or_self(right.output_root@));
    let build = lossy_text(left.build_dir@);
    let sysroot = match sysroot_of(left.compiler_program@) {
        Some(sysroot) => Some(lossy_text(sysroot)),
        None => None,
    };
    ||| exists|k: int| #[trigger]
        is_first_rule(left, a, k) && is_first_rule(right, b, k)
            && left.portable_remaps@[k].normalized@ == right.portable_remaps@[k].normalized@
    ||| {
        &&& no_rule_for(left, a)
        &&& no_rule_for(right, b)
        &&& a == b
        &&& !occurs(lossy_text(a), p)
        &&& !occurs(lossy_text(a), q)
        &&& !occurs(lossy_text(a), build)
        &&& sysroot is Some ==> !occurs(lossy_text(a), sysroot->Some_0)
    }
    ||| {
        &&& no_rule_for(left, a)
        &&& no_rule_for(right, b)
        &&& stands_behind_path_flag(
            l.argument_list(),
            index,
            byte_strings(left.modeled_dependency_search_paths@),
        )
        &&& stands_behind_path_flag(
            r.argument_list(),
            index,
            byte_strings(right.modeled_dependency_search_paths@),
        )
        &&& exists|before: Seq<char>, below: Seq<char>| #[trigger]
            is_moved(lossy_text(a), lossy_text(b), p, q, build, sysroot, before, below)
    }
}

/// Whether two settings of builds with other target directories are alike: the
/// variable only tells where something is; or it is hashed as it is, and is the
/// same; or it names generated sources, and is the same but for the target
/// directory.
pub open spec fn is_moved_setting(
    left: KeyContext,
    right: KeyContext,
    a: (Seq<char>, Option<Seq<u8>>),
    b: (Seq<char>, Option<Seq<u8>>),
) -> bool {
    let p = lossy_text(parent_or_self(left.output_root@));
    let q = lossy_text(parent_or_self(right.output_root@));
    let build = lossy_text(left.build_dir@);
    let sysroot = match sysroot_of(left.compiler_program@) {
        Some(sysroot) => Some(lossy_text(sysroot)),
        None => None,
    };
    &&& a.0 == b.0
    &&& match (a.1, b.1) {
        (None, None) => true,
        (Some(x), Some(y)) => {
            ||| {
                &&& a.0 == "CARGO"@ || a.0 == "CARGO_MANIFEST_DIR"@ || a.0
                    == "CARGO_MANIFEST_PATH"@
                &&& a.0 != left.host.loader_variable@
            }
            ||| is_plain_variable(left, a.0) && x == y
            ||| {
                &&& a.0 == "OUT_DIR"@ || "_OUT_DIR"@.is_suffix_of(a.0)
                &&& exists|before: Seq<char>, below: Seq<char>| #[trigger]
                    is_moved(lossy_text(x), lossy_text(y), p, q, build, sysroot, before, below)
            }
        },
        _ => false,
    }
}

/// A text that was moved is named the same.
proof fn lemma_moved(
    paths: PathTexts,
    others: PathTexts,
    left: Seq<char>,
    right: Seq<char>,
    before: Seq<char>,
    below: Seq<char>,
)
    requires
        paths.1 == others.1,
        paths.2 == others.2,
        is_moved(left, right, paths.0, others.0, paths.1, paths.2, before, below),
    ensures
        normalized(paths, left) == normalized(others, right),
{
    law_target_paths_are_portable(paths, before, below);
    law_target_paths_are_portable(others, before, below);
}

/// The first rule rewrites an argument.
proof fn lemma_first_rule(remaps: Seq<PortableRemap>, argument: Seq<u8>, at: int)
    requires
        0 <= at < remaps.len(),
        remaps[at].original@ == argument,
        forall|k: int| 0 <= k < at ==> (#[trigger] remaps[k]).original@ != argument,
    ensures
        remapped(remaps, argument) == Some(remaps[at].normalized@),
    decreases at,
{
    if at > 0 {
        assert(remaps[0].original@ != argument);
        let rest = remaps.drop_first();
        assert forall|k: int| 0 <= k < at - 1 implies (#[trigger] rest[k]).original@
            != argument by {
            assert(rest[k] == remaps[k + 1]);
        }
        assert(rest[at - 1] == remaps[at]);
        lemma_first_rule(rest, argument, at - 1);
    }
}

/// Arguments of builds with other target directories are hashed the same.
proof fn lemma_moved_argument(
    left: KeyContext,
    right: KeyContext,
    l: &Command,
    r: &Command,
    index: int,
)
    requires
        left.build_dir@ == right.build_dir@,
        left.compiler_program@ == right.compiler_program@,
        0 <= index < l.argument_list().len(),
        l.argument_list().len() == r.argument_list().len(),
        is_moved_argument(left, right, l, r, index),
    ensures
        arguments_alike(left, right, l, r, index),
{
    let a = l.argument_list()[index];
    let b = r.argument_list()[index];
    let p = portable_paths(left);
    let q = portable_paths(right);
    if exists|k: int| #[trigger]
        is_first_rule(left, a, k) && is_first_rule(right, b, k)
            && left.portable_remaps@[k].normalized@ == right.portable_remaps@[k].normalized@ {
        let k = choose|k: int| #[trigger]
            is_first_rule(left, a, k) && is_first_rule(right, b, k)
                && left.portable_remaps@[k].normalized@ == right.portable_remaps@[k].normalized@;
        lemma_first_rule(left.portable_remaps@, a, k);
        lemma_first_rule(right.portable_remaps@, b, k);
    } else {
        lemma_not_remapped(left.portable_remaps@, a);
        lemma_not_remapped(right.portable_remaps@, b);
        if exists|before: Seq<char>, below: Seq<char>| #[trigger]
            is_moved(lossy_text(a), lossy_text(b), p.0, q.0, p.1, p.2, before, below) {
            let (before, below) = choose|before: Seq<char>, below: Seq<char>| #[trigger]
                is_moved(lossy_text(a), lossy_text(b), p.0, q.0, p.1, p.2, before, below);
            lemma_moved(p, q, lossy_text(a), lossy_text(b), before, below);
        }
    }
}

/// Settings of builds with other target directories are hashed the same.
proof fn lemma_moved_setting(
    left: KeyContext,
    right: KeyContext,
    a: (Seq<char>, Option<Seq<u8>>),
    b: (Seq<char>, Option<Seq<u8>>),
)
    requires
        left.build_dir@ == right.build_dir@,
        left.compiler_program@ == right.compiler_program@,
        is_moved_setting(left, right, a, b),
    ensures
        settings_alike(left, right, a, b),
{
    let p = portable_paths(left);
    let q = portable_paths(right);
    if let (Some(x), Some(y)) = (a.1, b.1) {
        if is_location(a.0) {
            lemma_locations_are_not_generated(a.0);
        }
        if exists|before: Seq<char>, below: Seq<char>| #[trigger]
            is_moved(lossy_text(x), lossy_text(y), p.0, q.0, p.1, p.2, before, below) {
            let (before, below) = choose|before: Seq<char>, below: Seq<char>| #[trigger]
                is_moved(lossy_text(x), lossy_text(y), p.0, q.0, p.1, p.2, before, below);
            lemma_moved(p, q, lossy_text(x), lossy_text(y), before, below);
        }
    }
}

/// A build finds the entries of one with another target directory: where the
/// invocations of one compiler differ in the target directory only, which stands
/// in the paths of outputs, crates, search paths and generated sources, and in
/// what the rules rewrite, they have the same key.
pub proof fn law_moved_target_directories_share_keys(
    left: KeyContext,
    right: KeyContext,
    l: &Command,
    r: &Command,
    loader_digest: Seq<u8>,
    action_digest: Seq<u8>,
)
    requires
        left.host.loader_variable@ == right.host.loader_variable@,
        left.rustc_verbose_version@ == right.rustc_verbose_version@,
        left.compiler_identity@ == right.compiler_identity@,
        left.build_dir@ == right.build_dir@,
        left.compiler_program@ == right.compiler_program@,
        hashed_deployment(l, 5) == hashed_deployment(r, 5),
        l.argument_list().len() == r.argument_list().len(),
        forall|i: int|
            0 <= i < l.argument_list().len() ==> #[trigger] is_moved_argument(left, right, l, r, i),
        l.setting_list().len() == r.setting_list().len(),
        forall|i: int|
            #![trigger l.setting_list()[i]]
            0 <= i < l.setting_list().len() ==> is_moved_setting(
                left,
                right,
                l.setting_list()[i],
                r.setting_list()[i],
            ),
    ensures
        key_text(left, l, loader_digest, action_digest) == key_text(
            right,
            r,
            loader_digest,
            action_digest,
        ),
{
    assert forall|i: int| 0 <= i < l.argument_list().len() implies #[trigger] arguments_alike(
        left,
        right,
        l,
        r,
        i,
    ) by {
        assert(is_moved_argument(left, right, l, r, i));
        lemma_moved_argument(left, right, l, r, i);
    }
    assert forall|i: int|
        #![trigger l.setting_list()[i]]
        0 <= i < l.setting_list().len() implies settings_alike(
        left,
        right,
        l.setting_list()[i],
        r.setting_list()[i],
    ) by {
        lemma_moved_setting(left, right, l.setting_list()[i], r.setting_list()[i]);
    }
    law_keys_are_shared_across_locations(left, right, l, r, loader_digest, action_digest);
}

} // verus!
