//! What the digest of an invocation's inputs vouches for.

use vstd::prelude::*;
use vstd::string::*;

use crate::action_inputs::file_reading;
use crate::action_inputs::mark_order;
use crate::action_inputs::marks;
use crate::action_inputs::without_repetition;
use crate::action_inputs::ActionInputError;
use crate::action_inputs::ArtifactCacheActionInputMetadataWitness;
use crate::action_inputs::ArtifactCacheActionInputPathKind;
use crate::action_inputs::ArtifactCacheActionInputWitness;
use crate::action_inputs::InputFile;
use crate::action_inputs::InputMark;
use crate::action_tree::action_gathered;
use crate::action_tree::action_text;
use crate::action_tree::directory_gathered;
use crate::action_tree::entries_text;
use crate::action_tree::extern_gathered;
use crate::action_tree::externs_gathered;
use crate::action_tree::file_at;
use crate::action_tree::gathered_more;
use crate::action_tree::is_skipped;
use crate::action_tree::search_gathered;
use crate::action_tree::searches_gathered;
use crate::action_tree::setting_gathered;
use crate::action_tree::settings_gathered;
use crate::action_tree::tree_at;
use crate::action_tree::tree_file_text;
use crate::action_tree::tree_names;
use crate::action_tree::tree_text;
use crate::action_tree::ActionInputs;
use crate::action_tree::Gathered;
use crate::action_tree::InputTree;
use crate::action_tree::NamedFile;
use crate::action_tree::NamedTree;
use crate::action_tree::TreeContent;
use crate::action_tree::TreeEntry;
use crate::action_tree::TreePlan;
use crate::action_tree::TreeText;
use crate::admission::is_crate_search;
use crate::admission::operands;
use crate::admission::search_directory;
use crate::bytes::utf8;
use crate::command::lossy_list;
use crate::command::Command;
use crate::digest::lossy_text;
use crate::disk::lemma_sorted_positions;
use crate::disk::listed_names;
use crate::disk::name_order;
use crate::disk::sorted_positions;
use crate::disk::Disk;
use crate::disk::FileKind;
use crate::disk::Lookup;
use crate::disk::Metadata;
use crate::key_laws::lemma_zero;
use crate::ordering::lemma_sorted_holds;
use crate::ordering::sorted;
use crate::snapshot_paths::lemma_utf8_concat;
use crate::text::first_at;
use crate::text::lemma_first_at;
use crate::text::lemma_first_at_unique;
use crate::unix_path::components;
use crate::unix_path::extension;
use crate::unix_path::file_name;
use crate::unix_path::joined;
use crate::unix_path::path_below;

verus! {

/// Whether `piece` stands in `text` at one place.
pub open spec fn held_at(text: Seq<u8>, piece: Seq<u8>, at: int) -> bool {
    &&& 0 <= at
    &&& at + piece.len() <= text.len()
    &&& text.subrange(at, at + piece.len()) == piece
}

/// Whether `piece` stands in `text`.
pub open spec fn held(text: Seq<u8>, piece: Seq<u8>) -> bool {
    exists|at: int| held_at(text, piece, at)
}

/// A text stands where a text that holds it stands.
pub proof fn lemma_held(front: Seq<u8>, middle: Seq<u8>, back: Seq<u8>, piece: Seq<u8>)
    requires
        held(middle, piece),
    ensures
        held(front + middle + back, piece),
{
    let at = choose|at: int| held_at(middle, piece, at);
    let whole = front + middle + back;
    assert(whole.subrange(front.len() + at, front.len() + at + piece.len()) =~= middle.subrange(
        at,
        at + piece.len(),
    ));
    assert(held_at(whole, piece, front.len() + at));
}

/// A text holds itself.
pub proof fn lemma_held_self(text: Seq<u8>)
    ensures
        held(text, text),
{
    assert(text.subrange(0, text.len() as int) =~= text);
    assert(held_at(text, text, 0));
}

/// Whether a text was read whole: the node was a regular file with the same
/// length, times and identity before it was opened, when it was opened, when it
/// had been read and after that.
pub open spec fn is_steady(file: InputFile) -> bool {
    match (file.before, file.opened, file.closed, file.after) {
        (Lookup::Found(a), Lookup::Found(b), Lookup::Found(c), Lookup::Found(d)) => {
            &&& is_same_file(a, b)
            &&& is_same_file(a, c)
            &&& is_same_file(a, d)
        },
        _ => false,
    }
}

/// Whether two looks at a regular file saw the same one.
pub open spec fn is_same_file(left: Metadata, right: Metadata) -> bool {
    &&& left.kind == FileKind::File
    &&& right.kind == FileKind::File
    &&& left.len == right.len
    &&& left.modified is Some
    &&& left.modified == right.modified
    &&& left.device == right.device
    &&& left.inode == right.inode
    &&& left.changed_seconds == right.changed_seconds
    &&& left.changed_nanoseconds == right.changed_nanoseconds
}

/// A file is read exactly where it was the same regular file all along. One that
/// is absent gives no contents, and one that changes meanwhile is an error.
pub proof fn law_read_files_are_steady(path: Seq<u8>, file: InputFile)
    ensures
        match file_reading(path, file) {
            Ok(reading) => match reading.0 {
                Some(contents) => {
                    &&& is_steady(file)
                    &&& contents == file.contents@
                    &&& reading.1 == file.reliable
                },
                None => file.before is Missing && !reading.1,
            },
            Err(_) => !is_steady(file) && !(file.before is Missing),
        },
{
}

/// Whether `part` went into `whole`: its text is held there, its marks are
/// there, and what cannot stand for the contents does not.
spec fn takes_in(whole: Gathered, part: Gathered) -> bool {
    whole matches Ok(all) ==> {
        &&& part is Ok
        &&& held(all.0, part->Ok_0.0)
        &&& all.2 ==> part->Ok_0.2
        &&& forall|mark: InputMark| #[trigger]
            part->Ok_0.1.contains(mark) ==> all.1.contains(mark)
    }
}

/// What is gathered first and what is gathered behind it both go in.
proof fn lemma_takes_in(before: Gathered, more: Gathered)
    ensures
        takes_in(gathered_more(before, more), before),
        takes_in(gathered_more(before, more), more),
{
    if gathered_more(before, more) is Ok {
        let a = before->Ok_0;
        let b = more->Ok_0;
        lemma_held_self(a.0);
        lemma_held_self(b.0);
        lemma_held(Seq::empty(), a.0, b.0, a.0);
        lemma_held(a.0, b.0, Seq::empty(), b.0);
        assert(Seq::<u8>::empty() + a.0 + b.0 =~= a.0 + b.0);
        assert(a.0 + b.0 + Seq::<u8>::empty() =~= a.0 + b.0);
        assert forall|mark: InputMark| #[trigger] a.1.contains(mark) implies (a.1 + b.1).contains(
            mark,
        ) by {
            let k = choose|k: int| 0 <= k < a.1.len() && a.1[k] == mark;
            assert((a.1 + b.1)[k] == mark);
        }
        assert forall|mark: InputMark| #[trigger] b.1.contains(mark) implies (a.1 + b.1).contains(
            mark,
        ) by {
            let k = choose|k: int| 0 <= k < b.1.len() && b.1[k] == mark;
            assert((a.1 + b.1)[a.1.len() + k] == mark);
        }
    }
}

/// What goes into a part goes into the whole.
proof fn lemma_takes_in_through(whole: Gathered, middle: Gathered, part: Gathered)
    requires
        takes_in(whole, middle),
        takes_in(middle, part),
    ensures
        takes_in(whole, part),
{
    if whole is Ok {
        let outer = whole->Ok_0.0;
        let inner = middle->Ok_0.0;
        let piece = part->Ok_0.0;
        let at = choose|at: int| held_at(outer, inner, at);
        lemma_held(
            outer.take(at),
            inner,
            outer.skip(at + inner.len()),
            piece,
        );
        assert(outer.take(at) + inner + outer.skip(at + inner.len()) =~= outer) by {
            assert(outer.subrange(at, at + inner.len()) == inner);
            assert forall|k: int| 0 <= k < outer.len() implies outer[k] == (outer.take(at) + inner
                + outer.skip(at + inner.len()))[k] by {
                if at <= k < at + inner.len() {
                    assert(outer.subrange(at, at + inner.len())[k - at] == inner[k - at]);
                }
            }
        }
    }
}

/// Every linked crate goes in.
proof fn lemma_externs_take_in(list: Seq<Seq<char>>, cwd: Seq<u8>, inputs: ActionInputs, at: int)
    requires
        0 <= at < list.len(),
    ensures
        takes_in(externs_gathered(list, cwd, inputs), extern_gathered(list[at], cwd, inputs)),
    decreases list.len(),
{
    let before = externs_gathered(list.drop_last(), cwd, inputs);
    lemma_takes_in(before, extern_gathered(list.last(), cwd, inputs));
    if at < list.len() - 1 {
        lemma_externs_take_in(list.drop_last(), cwd, inputs, at);
        lemma_takes_in_through(
            externs_gathered(list, cwd, inputs),
            before,
            extern_gathered(list[at], cwd, inputs),
        );
    }
}

/// Every setting goes in.
proof fn lemma_settings_take_in(
    list: Seq<(Seq<char>, Option<Seq<u8>>)>,
    cwd: Seq<u8>,
    inputs: ActionInputs,
    at: int,
)
    requires
        0 <= at < list.len(),
    ensures
        takes_in(settings_gathered(list, cwd, inputs), setting_gathered(list[at], cwd, inputs)),
    decreases list.len(),
{
    let before = settings_gathered(list.drop_last(), cwd, inputs);
    lemma_takes_in(before, setting_gathered(list.last(), cwd, inputs));
    if at < list.len() - 1 {
        lemma_settings_take_in(list.drop_last(), cwd, inputs, at);
        lemma_takes_in_through(
            settings_gathered(list, cwd, inputs),
            before,
            setting_gathered(list[at], cwd, inputs),
        );
    }
}

/// Every search path goes in.
proof fn lemma_searches_take_in(list: Seq<Seq<char>>, cwd: Seq<u8>, inputs: ActionInputs, at: int)
    requires
        0 <= at < list.len(),
    ensures
        takes_in(searches_gathered(list, cwd, inputs), search_gathered(list[at], cwd, inputs)),
    decreases list.len(),
{
    let before = searches_gathered(list.drop_last(), cwd, inputs);
    lemma_takes_in(before, search_gathered(list.last(), cwd, inputs));
    if at < list.len() - 1 {
        lemma_searches_take_in(list.drop_last(), cwd, inputs, at);
        lemma_takes_in_through(
            searches_gathered(list, cwd, inputs),
            before,
            search_gathered(list[at], cwd, inputs),
        );
    }
}

/// The three parts of what is gathered go in.
proof fn lemma_action_takes_in(rustc: &Command, cwd: Seq<u8>, inputs: ActionInputs)
    ensures
        ({
            let arguments = lossy_list(rustc.argument_list());
            let whole = action_gathered(rustc, cwd, inputs);
            &&& takes_in(whole, externs_gathered(operands(arguments, "--extern"@), cwd, inputs))
            &&& takes_in(whole, settings_gathered(rustc.setting_list(), cwd, inputs))
            &&& takes_in(whole, searches_gathered(operands(arguments, "-L"@), cwd, inputs))
        }),
{
    let arguments = lossy_list(rustc.argument_list());
    let whole = action_gathered(rustc, cwd, inputs);
    let a = externs_gathered(operands(arguments, "--extern"@), cwd, inputs);
    let b = settings_gathered(rustc.setting_list(), cwd, inputs);
    let c = searches_gathered(operands(arguments, "-L"@), cwd, inputs);
    lemma_takes_in(a, b);
    lemma_takes_in(gathered_more(a, b), c);
    lemma_takes_in_through(whole, gathered_more(a, b), a);
    lemma_takes_in_through(whole, gathered_more(a, b), b);
}

/// An argument behind a flag is one of its operands.
pub proof fn lemma_operand_found(arguments: Seq<Seq<char>>, flag: Seq<char>, at: int)
    requires
        0 <= at,
        at + 1 < arguments.len(),
        arguments[at] == flag,
    ensures
        operands(arguments, flag).contains(arguments[at + 1]),
    decreases arguments.len(),
{
    let all = operands(arguments, flag);
    if at + 2 == arguments.len() {
        assert(all.last() == arguments[at + 1]);
        assert(all[all.len() - 1] == arguments[at + 1]);
    } else {
        let front = arguments.drop_last();
        lemma_operand_found(front, flag, at);
        let inner = operands(front, flag);
        let k = choose|k: int| 0 <= k < inner.len() && inner[k] == arguments[at + 1];
        assert(all[k] == arguments[at + 1]);
    }
}

/// Whether the argument behind `flag` at a place is `operand`.
pub open spec fn gives_operand(
    rustc: &Command,
    at: int,
    flag: Seq<char>,
    operand: Seq<char>,
) -> bool {
    &&& 0 <= at
    &&& at + 1 < rustc.argument_list().len()
    &&& lossy_text(rustc.argument_list()[at]) == flag
    &&& lossy_text(rustc.argument_list()[at + 1]) == operand
}

/// Whether one file of a list is the first with the given path.
pub open spec fn is_first_file(files: Seq<NamedFile>, at: int, path: Seq<u8>) -> bool {
    &&& 0 <= at < files.len()
    &&& files[at].path@ == path
    &&& forall|k: int| 0 <= k < at ==> (#[trigger] files[k]).path@ != path
}

/// Whether one tree of a list is the first with the given path.
pub open spec fn is_first_tree(trees: Seq<NamedTree>, at: int, path: Seq<u8>) -> bool {
    &&& 0 <= at < trees.len()
    &&& trees[at].path@ == path
    &&& forall|k: int| 0 <= k < at ==> (#[trigger] trees[k]).path@ != path
}

/// The first file is the one that is found.
proof fn lemma_first_file(files: Seq<NamedFile>, at: int, path: Seq<u8>)
    requires
        is_first_file(files, at, path),
    ensures
        file_at(files, path) == Some(files[at].file),
    decreases files.len(),
{
    if at > 0 {
        assert(files[0].path@ != path);
        let rest = files.drop_first();
        assert forall|k: int| 0 <= k < at - 1 implies (#[trigger] rest[k]).path@ != path by {
            assert(rest[k] == files[k + 1]);
        }
        lemma_first_file(rest, at - 1, path);
    }
}

/// The first tree is the one that is found.
proof fn lemma_first_tree(trees: Seq<NamedTree>, at: int, path: Seq<u8>)
    requires
        is_first_tree(trees, at, path),
    ensures
        tree_at(trees, path) == Some(trees[at].tree),
    decreases trees.len(),
{
    if at > 0 {
        assert(trees[0].path@ != path);
        let rest = trees.drop_first();
        assert forall|k: int| 0 <= k < at - 1 implies (#[trigger] rest[k]).path@ != path by {
            assert(rest[k] == trees[k + 1]);
        }
        lemma_first_tree(rest, at - 1, path);
    }
}

/// What is remembered of a file that was seen.
pub open spec fn remembered(metadata: Metadata) -> ArtifactCacheActionInputMetadataWitness {
    ArtifactCacheActionInputMetadataWitness {
        len: metadata.len,
        modified: metadata.modified->Some_0,
        device: metadata.device,
        inode: metadata.inode,
        changed_seconds: metadata.changed_seconds,
        changed_nanoseconds: metadata.changed_nanoseconds,
    }
}

/// Every crate that an invocation links and that is there has its whole contents
/// in the hashed text, was steady while it was read, and is remembered as it was
/// seen. Where its file system's times cannot be relied on, what is remembered
/// does not stand for the contents.
pub proof fn law_linked_crates_are_hashed(
    rustc: &Command,
    cwd: Seq<u8>,
    inputs: ActionInputs,
    at: int,
    name: Seq<char>,
    path: Seq<char>,
    file: int,
)
    requires
        action_gathered(rustc, cwd, inputs) is Ok,
        gives_operand(rustc, at, "--extern"@, name + seq!['='] + path),
        !name.contains('='),
        is_first_file(inputs.files@, file, joined(cwd, utf8(path))),
        inputs.files@[file].file.before is Found,
    ensures
        ({
            let parts = action_gathered(rustc, cwd, inputs)->Ok_0;
            let read = inputs.files@[file].file;
            &&& is_steady(read)
            &&& held(
                action_text(parts.0),
                utf8("extern-content"@) + seq![0u8] + read.contents@ + seq![0u8],
            )
            &&& parts.1.contains(
                (
                    joined(cwd, utf8(path)),
                    ArtifactCacheActionInputPathKind::File,
                    Some(remembered(read.before->Found_0)),
                ),
            )
            &&& parts.2 ==> read.reliable
        }),
{
    let arguments = lossy_list(rustc.argument_list());
    let operand = name + seq!['='] + path;
    let place = joined(cwd, utf8(path));
    let list = operands(arguments, "--extern"@);
    lemma_operand_found(arguments, "--extern"@, at);
    let k = choose|k: int| 0 <= k < list.len() && list[k] == operand;
    let whole = action_gathered(rustc, cwd, inputs);
    let part = extern_gathered(operand, cwd, inputs);
    lemma_action_takes_in(rustc, cwd, inputs);
    lemma_externs_take_in(list, cwd, inputs, k);
    lemma_takes_in_through(whole, externs_gathered(list, cwd, inputs), part);
    assert(operand[name.len() as int] == '=');
    lemma_first_at_unique(operand, '=', name.len() as int);
    assert(operand.skip(name.len() as int + 1) =~= path);
    lemma_first_file(inputs.files@, file, place);
    let read = inputs.files@[file].file;
    lemma_zero();
    reveal_strlit("extern-content");
    reveal_strlit("extern-content\0");
    reveal_strlit("\0");
    assert("extern-content\0"@ =~= "extern-content"@ + "\0"@);
    lemma_utf8_concat("extern-content"@, "\0"@);
    let piece = part->Ok_0.0;
    assert(piece == utf8("extern-content"@) + seq![0u8] + read.contents@ + seq![0u8]);
    let head = utf8("cargo-artifact-cache-action-inputs-v1\0"@);
    lemma_held(head, whole->Ok_0.0, Seq::empty(), piece);
    assert(head + whole->Ok_0.0 + Seq::<u8>::empty() =~= action_text(whole->Ok_0.0));
    let mark = (
        place,
        ArtifactCacheActionInputPathKind::File,
        Some(remembered(read.before->Found_0)),
    );
    assert(part->Ok_0.1[0] == mark);
    assert(part->Ok_0.1.contains(mark));
}

/// Whether a node of a tree is left out: a `.git`, and in a link search path a
/// bundle of debug symbols.
pub open spec fn is_left_out(path: Seq<u8>, link_search: bool) -> bool {
    ||| file_name(path) == Some(utf8(".git"@))
    ||| link_search && extension(path) == Some(utf8("dSYM"@))
}

/// The node that is reached from a directory by taking the entries at the given
/// places one below the other, with its path. Nothing where one of them is left
/// out or is no directory.
pub open spec fn node_down(
    tree: InputTree,
    path: Seq<u8>,
    link_search: bool,
    route: Seq<int>,
) -> Option<(Seq<u8>, TreeEntry)>
    decreases route.len(),
{
    match tree.entries {
        None => None,
        Some(entries) => if route.len() == 0 || !(0 <= route[0] < entries@.len()) {
            None
        } else {
            let entry = entries@[route[0]];
            let place = joined(path, entry.name@);
            if is_left_out(place, link_search) {
                None
            } else if route.len() == 1 {
                Some((place, entry))
            } else {
                match (entry.kind, entry.content) {
                    (FileKind::Directory, TreeContent::Directory(inner)) => node_down(
                        inner,
                        place,
                        link_search,
                        route.drop_first(),
                    ),
                    _ => None,
                }
            }
        },
    }
}

/// What one entry adds.
spec fn entry_text(entry: TreeEntry, plan: TreePlan, path: Seq<u8>) -> TreeText {
    let place = joined(path, entry.name@);
    if is_skipped(plan, place) {
        Ok((Seq::empty(), Seq::empty()))
    } else {
        match (entry.kind, entry.content) {
            (FileKind::Symlink, _) => Err(ActionInputError::ContainsSymlink),
            (FileKind::Directory, TreeContent::Directory(inner)) => tree_text(inner, plan, place),
            (FileKind::File, TreeContent::File(file)) => tree_file_text(plan, place, file),
            (FileKind::Other, _) => Err(ActionInputError::UnsupportedNode),
            _ => Err(ActionInputError::Unreadable),
        }
    }
}

/// The text of entries holds that of each entry that is still to come.
proof fn lemma_entries_hold(
    entries: Vec<TreeEntry>,
    left: int,
    plan: TreePlan,
    path: Seq<u8>,
    place: int,
)
    requires
        0 <= left <= entries@.len(),
        entries@.len() - left <= place < entries@.len(),
        entries_text(entries, left, plan, path) is Ok,
    ensures
        ({
            let position = sorted_positions(tree_names(entries@))[place];
            let part = entry_text(entries@[position], plan, path);
            &&& 0 <= position < entries@.len()
            &&& part is Ok
            &&& held(entries_text(entries, left, plan, path)->Ok_0.0, part->Ok_0.0)
        }),
    decreases left,
{
    let here = sorted_positions(tree_names(entries@))[entries@.len() - left];
    lemma_sorted_positions(tree_names(entries@));
    let head = entry_text(entries@[here], plan, path);
    let whole = entries_text(entries, left, plan, path);
    let tail = entries_text(entries, left - 1, plan, path);
    assert(entries[here] == entries@[here]);
    assert(whole->Ok_0.0 == head->Ok_0.0 + tail->Ok_0.0);
    if place == entries@.len() - left {
        lemma_held_self(head->Ok_0.0);
        lemma_held(Seq::empty(), head->Ok_0.0, tail->Ok_0.0, head->Ok_0.0);
        assert(Seq::<u8>::empty() + head->Ok_0.0 + tail->Ok_0.0 =~= whole->Ok_0.0);
    } else {
        lemma_entries_hold(entries, left - 1, plan, path, place);
        let position = sorted_positions(tree_names(entries@))[place];
        let part = entry_text(entries@[position], plan, path);
        lemma_held(head->Ok_0.0, tail->Ok_0.0, Seq::empty(), part->Ok_0.0);
        assert(head->Ok_0.0 + tail->Ok_0.0 + Seq::<u8>::empty() =~= whole->Ok_0.0);
    }
}

/// Every entry of a directory has its turn.
proof fn lemma_entry_has_a_turn(names: Seq<Seq<u8>>, at: int) -> (place: int)
    requires
        0 <= at < names.len(),
    ensures
        0 <= place < names.len(),
        sorted_positions(names)[place] == at,
{
    let listed = listed_names(names);
    lemma_sorted_positions(names);
    lemma_sorted_holds(listed, name_order(), at);
    let list = sorted(listed, name_order());
    let place = choose|place: int| 0 <= place < list.len() && list[place] == listed[at];
    place
}

/// The text of a tree holds that of every node in it.
proof fn lemma_tree_holds(
    tree: InputTree,
    root: Seq<u8>,
    path: Seq<u8>,
    link_search: bool,
    route: Seq<int>,
)
    requires
        tree_text(tree, (root, None, link_search), path) is Ok,
        node_down(tree, path, link_search, route) is Some,
    ensures
        ({
            let plan = (root, None::<Seq<u8>>, link_search);
            let node = node_down(tree, path, link_search, route)->Some_0;
            let text = match (node.1.kind, node.1.content) {
                (FileKind::Directory, TreeContent::Directory(inner)) => tree_text(
                    inner,
                    plan,
                    node.0,
                ),
                (FileKind::File, TreeContent::File(file)) => tree_file_text(plan, node.0, file),
                _ => Err(ActionInputError::Unreadable),
            };
            &&& text is Ok
            &&& held(tree_text(tree, plan, path)->Ok_0.0, text->Ok_0.0)
        }),
    decreases route.len(),
{
    let plan = (root, None::<Seq<u8>>, link_search);
    let entries = tree.entries->Some_0;
    let entry = entries@[route[0]];
    let place = joined(path, entry.name@);
    let turn = lemma_entry_has_a_turn(tree_names(entries@), route[0]);
    lemma_entries_hold(entries, entries@.len() as int, plan, path, turn);
    let whole = tree_text(tree, plan, path)->Ok_0.0;
    let part = entry_text(entry, plan, path)->Ok_0.0;
    assert(!is_skipped(plan, place));
    assert(held(whole, part));
    if route.len() > 1 {
        let inner = entry.content->Directory_0;
        lemma_tree_holds(inner, root, place, link_search, route.drop_first());
        let node = node_down(tree, path, link_search, route)->Some_0;
        let text = match (node.1.kind, node.1.content) {
            (FileKind::Directory, TreeContent::Directory(inner)) => tree_text(inner, plan, node.0),
            (FileKind::File, TreeContent::File(file)) => tree_file_text(plan, node.0, file),
            _ => Err(ActionInputError::Unreadable),
        };
        let at = choose|at: int| held_at(whole, part, at);
        lemma_held(whole.take(at), part, whole.skip(at + part.len()), text->Ok_0.0);
        assert(whole.take(at) + part + whole.skip(at + part.len()) =~= whole) by {
            assert forall|k: int| 0 <= k < whole.len() implies whole[k] == (whole.take(at) + part
                + whole.skip(at + part.len()))[k] by {
                if at <= k < at + part.len() {
                    assert(whole.subrange(at, at + part.len())[k - at] == part[k - at]);
                }
            }
        }
    }
}

/// The name of a file in a tree: its path below the root, or its whole path.
pub open spec fn name_in(path: Seq<u8>, root: Seq<u8>) -> Seq<u8> {
    match path_below(path, root) {
        Some(below) => below,
        None => path,
    }
}

/// Whether the text of a tree holds one of its nodes: it is a steady file with
/// its name and its contents in the text, or a directory.
pub open spec fn is_hashed(
    text: Seq<u8>,
    root: Seq<u8>,
    link_search: bool,
    node: (Seq<u8>, TreeEntry),
) -> bool {
    match (node.1.kind, node.1.content) {
        (FileKind::File, TreeContent::File(file)) => {
            &&& is_steady(file)
            &&& !link_search || extension(node.0) != Some(utf8("a"@)) ==> held(
                text,
                name_in(node.0, root) + seq![0u8] + file.contents@ + seq![0u8],
            )
        },
        (FileKind::Directory, TreeContent::Directory(_)) => true,
        _ => false,
    }
}

/// The text of a directory that is there holds every node in it.
proof fn lemma_directory_holds(
    place: Seq<u8>,
    heading: Seq<u8>,
    link_search: bool,
    inputs: ActionInputs,
    tree: int,
    route: Seq<int>,
)
    requires
        directory_gathered(place, heading, link_search, inputs) is Ok,
        is_first_tree(inputs.trees@, tree, place),
        inputs.trees@[tree].tree.before is Found,
    ensures
        !directory_gathered(place, heading, link_search, inputs)->Ok_0.2,
        node_down(inputs.trees@[tree].tree, place, link_search, route) matches Some(node)
            ==> is_hashed(
            directory_gathered(place, heading, link_search, inputs)->Ok_0.0,
            place,
            link_search,
            node,
        ),
{
    let found = inputs.trees@[tree].tree;
    lemma_first_tree(inputs.trees@, tree, place);
    if node_down(found, place, link_search, route) is Some {
        let node = node_down(found, place, link_search, route)->Some_0;
        lemma_tree_holds(found, place, place, link_search, route);
        lemma_zero();
        let plan = (place, None::<Seq<u8>>, link_search);
        let inner = tree_text(found, plan, place)->Ok_0.0;
        match (node.1.kind, node.1.content) {
            (FileKind::File, TreeContent::File(file)) => {
                law_read_files_are_steady(node.0, file);
                let piece = tree_file_text(plan, node.0, file)->Ok_0.0;
                lemma_held(heading, inner, Seq::empty(), piece);
                assert(heading + inner + Seq::<u8>::empty() =~= heading + inner);
            },
            _ => {},
        }
    }
}

/// A part's nodes are in the hashed text.
proof fn lemma_hashed_in_action(
    whole: Gathered,
    part: Gathered,
    root: Seq<u8>,
    link_search: bool,
    node: (Seq<u8>, TreeEntry),
)
    requires
        whole is Ok,
        takes_in(whole, part),
        is_hashed(part->Ok_0.0, root, link_search, node),
    ensures
        is_hashed(action_text(whole->Ok_0.0), root, link_search, node),
{
    let outer = action_text(whole->Ok_0.0);
    let head = utf8("cargo-artifact-cache-action-inputs-v1\0"@);
    let inner = part->Ok_0.0;
    lemma_held(head, whole->Ok_0.0, Seq::empty(), inner);
    assert(head + whole->Ok_0.0 + Seq::<u8>::empty() =~= outer);
    let at = choose|at: int| held_at(outer, inner, at);
    assert(outer.take(at) + inner + outer.skip(at + inner.len()) =~= outer) by {
        assert forall|k: int| 0 <= k < outer.len() implies outer[k] == (outer.take(at) + inner
            + outer.skip(at + inner.len()))[k] by {
            if at <= k < at + inner.len() {
                assert(outer.subrange(at, at + inner.len())[k - at] == inner[k - at]);
            }
        }
    }
    match (node.1.kind, node.1.content) {
        (FileKind::File, TreeContent::File(file)) => {
            if !link_search || extension(node.0) != Some(utf8("a"@)) {
                let piece = name_in(node.0, root) + seq![0u8] + file.contents@ + seq![0u8];
                lemma_held(outer.take(at), inner, outer.skip(at + inner.len()), piece);
            }
        },
        _ => {},
    }
}

/// Every file that a build script left in the directory that `OUT_DIR`, or a
/// variable whose name ends in `_OUT_DIR`, names is in the hashed text with its
/// name and its contents, however deep it lies. A link or a special file there is
/// an error, and what is remembered of a directory does not stand for its
/// contents.
pub proof fn law_generated_files_are_hashed(
    rustc: &Command,
    cwd: Seq<u8>,
    inputs: ActionInputs,
    at: int,
    tree: int,
    route: Seq<int>,
)
    requires
        action_gathered(rustc, cwd, inputs) is Ok,
        0 <= at < rustc.setting_list().len(),
        rustc.setting_list()[at].0 == "OUT_DIR"@ || "_OUT_DIR"@.is_suffix_of(
            rustc.setting_list()[at].0,
        ),
        rustc.setting_list()[at].1 is Some,
        is_first_tree(inputs.trees@, tree, joined(cwd, rustc.setting_list()[at].1->Some_0)),
        inputs.trees@[tree].tree.before is Found,
    ensures
        ({
            let parts = action_gathered(rustc, cwd, inputs)->Ok_0;
            let root = joined(cwd, rustc.setting_list()[at].1->Some_0);
            &&& !parts.2
            &&& node_down(inputs.trees@[tree].tree, root, false, route) matches Some(node)
                ==> is_hashed(action_text(parts.0), root, false, node)
        }),
{
    let setting = rustc.setting_list()[at];
    let root = joined(cwd, setting.1->Some_0);
    let whole = action_gathered(rustc, cwd, inputs);
    let part = setting_gathered(setting, cwd, inputs);
    lemma_action_takes_in(rustc, cwd, inputs);
    lemma_settings_take_in(rustc.setting_list(), cwd, inputs, at);
    lemma_takes_in_through(whole, settings_gathered(rustc.setting_list(), cwd, inputs), part);
    let heading = utf8("generated-input-tree\0"@) + utf8(setting.0) + utf8("\0"@);
    assert(part == directory_gathered(root, heading, false, inputs));
    lemma_directory_holds(root, heading, false, inputs, tree, route);
    if node_down(inputs.trees@[tree].tree, root, false, route) is Some {
        lemma_hashed_in_action(
            whole,
            part,
            root,
            false,
            node_down(inputs.trees@[tree].tree, root, false, route)->Some_0,
        );
    }
}

/// The directory of a search path, behind the kind that it may begin with.
pub open spec fn is_searched(operand: Seq<char>, directory: Seq<char>) -> bool {
    ||| operand == directory && !directory.contains('=')
    ||| operand == "native="@ + directory
    ||| operand == "framework="@ + directory
    ||| operand == "all="@ + directory
}

/// What stands behind the kind of a search path.
proof fn lemma_searched(operand: Seq<char>, directory: Seq<char>)
    requires
        is_searched(operand, directory),
    ensures
        !is_crate_search(operand),
        search_directory(operand) == directory,
{
    reveal_strlit("native=");
    reveal_strlit("framework=");
    reveal_strlit("all=");
    reveal_strlit("dependency=");
    reveal_strlit("crate=");
    if operand == directory && !directory.contains('=') {
        assert(!("dependency="@.is_prefix_of(operand))) by {
            if "dependency="@.is_prefix_of(operand) {
                assert(operand[10] == "dependency="@[10]);
                assert(operand.contains('='));
            }
        }
        assert(!("crate="@.is_prefix_of(operand))) by {
            if "crate="@.is_prefix_of(operand) {
                assert(operand[5] == "crate="@[5]);
                assert(operand.contains('='));
            }
        }
        lemma_first_at(operand, '=');
        if first_at(operand, '=') < operand.len() {
            assert(operand[first_at(operand, '=')] == '=');
            assert(operand.contains('='));
        }
    } else {
        let kind = if operand == "native="@ + directory {
            "native="@
        } else if operand == "framework="@ + directory {
            "framework="@
        } else {
            "all="@
        };
        assert(operand == kind + directory);
        assert(operand[kind.len() - 1] == '=');
        assert(operand[0] == kind[0]);
        assert("dependency="@[0] == 'd');
        assert("crate="@[0] == 'c');
        assert forall|k: int| 0 <= k < kind.len() - 1 implies operand[k] != '=' by {
            assert(operand[k] == kind[k]);
        }
        lemma_first_at_unique(operand, '=', kind.len() - 1);
        assert(operand.skip(kind.len() as int) =~= directory);
    }
}

/// Every file in a directory that native libraries are searched in is in the
/// hashed text with its name and, where it is no archive, its contents.
pub proof fn law_searched_files_are_hashed(
    rustc: &Command,
    cwd: Seq<u8>,
    inputs: ActionInputs,
    at: int,
    operand: Seq<char>,
    directory: Seq<char>,
    tree: int,
    route: Seq<int>,
)
    requires
        action_gathered(rustc, cwd, inputs) is Ok,
        gives_operand(rustc, at, "-L"@, operand),
        is_searched(operand, directory),
        is_first_tree(inputs.trees@, tree, joined(cwd, utf8(directory))),
        inputs.trees@[tree].tree.before is Found,
    ensures
        ({
            let parts = action_gathered(rustc, cwd, inputs)->Ok_0;
            let root = joined(cwd, utf8(directory));
            &&& !parts.2
            &&& node_down(inputs.trees@[tree].tree, root, true, route) matches Some(node)
                ==> is_hashed(action_text(parts.0), root, true, node)
        }),
{
    let arguments = lossy_list(rustc.argument_list());
    let root = joined(cwd, utf8(directory));
    let list = operands(arguments, "-L"@);
    lemma_operand_found(arguments, "-L"@, at);
    let k = choose|k: int| 0 <= k < list.len() && list[k] == operand;
    let whole = action_gathered(rustc, cwd, inputs);
    let part = search_gathered(operand, cwd, inputs);
    lemma_action_takes_in(rustc, cwd, inputs);
    lemma_searches_take_in(list, cwd, inputs, k);
    lemma_takes_in_through(whole, searches_gathered(list, cwd, inputs), part);
    lemma_searched(operand, directory);
    let heading = utf8("link-search-input-tree\0"@);
    assert(part == directory_gathered(root, heading, true, inputs));
    lemma_directory_holds(root, heading, true, inputs, tree, route);
    if node_down(inputs.trees@[tree].tree, root, true, route) is Some {
        lemma_hashed_in_action(
            whole,
            part,
            root,
            true,
            node_down(inputs.trees@[tree].tree, root, true, route)->Some_0,
        );
    }
}

/// What is left without repetitions holds the like of every mark.
proof fn lemma_repetition_kept(list: Seq<InputMark>, at: int) -> (kept: int)
    requires
        0 <= at < list.len(),
    ensures
        0 <= kept < without_repetition(list).len(),
        components(without_repetition(list)[kept].0) == components(list[at].0),
        without_repetition(list)[kept].1 == list[at].1,
        without_repetition(list)[kept].2 == list[at].2,
    decreases list.len(),
{
    let front = list.drop_last();
    let before = without_repetition(front);
    if at == list.len() - 1 {
        without_repetition(list).len() - 1
    } else {
        assert(front[at] == list[at]);
        lemma_repetition_kept(front, at)
    }
}

/// Whether the disk shows a file as it was seen before.
pub open spec fn still_shows(disk: Disk, path: Seq<u8>, seen: Metadata) -> bool {
    match disk.own(path) {
        Lookup::Found(now) => is_same_file(seen, now),
        _ => false,
    }
}

/// Whether one of the paths with the components of `path` still shows a file.
pub open spec fn is_still_there(disk: Disk, path: Seq<u8>, seen: Metadata) -> bool {
    exists|place: Seq<u8>|
        components(place) == components(path) && #[trigger] still_shows(disk, place, seen)
}

/// Where a witness says that nothing changed, every linked crate is still the
/// file that was hashed: its length, its times and its identity are those that
/// were seen.
pub proof fn law_current_witnesses_saw_every_crate(
    rustc: &Command,
    cwd: Seq<u8>,
    inputs: ActionInputs,
    at: int,
    name: Seq<char>,
    path: Seq<char>,
    file: int,
    witness: ArtifactCacheActionInputWitness,
    disk: Disk,
)
    requires
        action_gathered(rustc, cwd, inputs) is Ok,
        gives_operand(rustc, at, "--extern"@, name + seq!['='] + path),
        !name.contains('='),
        is_first_file(inputs.files@, file, joined(cwd, utf8(path))),
        inputs.files@[file].file.before is Found,
        marks(witness.paths@) == without_repetition(
            sorted(action_gathered(rustc, cwd, inputs)->Ok_0.1, mark_order()),
        ),
        witness.unchanged(disk),
    ensures
        is_still_there(
            disk,
            joined(cwd, utf8(path)),
            inputs.files@[file].file.before->Found_0,
        ),
{
    law_linked_crates_are_hashed(rustc, cwd, inputs, at, name, path, file);
    let all = action_gathered(rustc, cwd, inputs)->Ok_0.1;
    let place = joined(cwd, utf8(path));
    let seen = inputs.files@[file].file.before->Found_0;
    let mark = (place, ArtifactCacheActionInputPathKind::File, Some(remembered(seen)));
    let i = choose|i: int| 0 <= i < all.len() && all[i] == mark;
    lemma_sorted_holds(all, mark_order(), i);
    let list = sorted(all, mark_order());
    let j = choose|j: int| 0 <= j < list.len() && list[j] == mark;
    let kept = lemma_repetition_kept(list, j);
    assert(marks(witness.paths@)[kept] == witness.paths@[kept].mark());
    assert(witness.paths@[kept].unchanged(disk));
    let where_kept = witness.paths@[kept].path@;
    assert(still_shows(disk, where_kept, seen));
}

} // verus!
