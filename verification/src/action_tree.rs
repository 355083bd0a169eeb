//! The digest of the inputs of a compilation: linked crates, generated
//! sources and link search trees.

use vstd::prelude::*;
use vstd::string::*;

use crate::action_inputs::captured;
use crate::action_inputs::file_reading;
use crate::action_inputs::hash_artifact_cache_action_input_file;
use crate::action_inputs::mark_order;
use crate::action_inputs::marks;
use crate::action_inputs::push_witness;
use crate::action_inputs::same_mark;
use crate::action_inputs::without_repetition;
use crate::action_inputs::ActionInputError;
use crate::action_inputs::ArtifactCacheActionInputPathKind;
use crate::action_inputs::ArtifactCacheActionInputPathWitness;
use crate::action_inputs::ArtifactCacheActionInputWitness;
use crate::action_inputs::InputFile;
use crate::action_inputs::InputMark;
use crate::admission::flag_operands;
use crate::admission::is_crate_search;
use crate::admission::operands;
use crate::admission::search_directory;
use crate::admission::search_path_directory;
use crate::admission::searches_crates;
use crate::archive::normalize_ar_timestamps;
use crate::archive::normalized_archive;
use crate::bytes::bytes_equal;
use crate::bytes::copy_bytes;
use crate::bytes::push_bytes;
use crate::bytes::push_text;
use crate::bytes::utf8;
use crate::command::lossy_list;
use crate::command::Command;
use crate::digest::blake3_digest;
use crate::digest::blake3_of;
use crate::disk::positions_by_name;
use crate::disk::sorted_positions;
use crate::disk::Disk;
use crate::disk::FileKind;
use crate::disk::Lookup;
use crate::disk::Metadata;
use crate::loader_digest::relative_or_self;
use crate::loader_digest::relative_path;
use crate::ordering::lemma_sorted_members;
use crate::ordering::sorted;
use crate::text::cut_first;
use crate::text::has_suffix;
use crate::text::split_once;
use crate::text::text_is;
use crate::text::texts;
use crate::unix_path::byte_strings;
use crate::unix_path::extension;
use crate::unix_path::file_name;
use crate::unix_path::join_path;
use crate::unix_path::joined;
use crate::unix_path::path_extension;
use crate::unix_path::path_file_name;
use crate::unix_path::path_has_prefix;
use crate::unix_path::path_starts_with;

verus! {

/// A directory tree that is an input: the directory before and after its
/// entries were read, and the entries.
pub struct InputTree {
    pub before: Lookup<Metadata>,
    pub entries: Option<Vec<TreeEntry>>,
    pub after: Lookup<Metadata>,
}

/// An entry of an input tree. Its kind is that of the node itself.
pub struct TreeEntry {
    pub name: Vec<u8>,
    pub kind: FileKind,
    pub content: TreeContent,
}

/// What an entry of an input tree holds.
pub enum TreeContent {
    Directory(InputTree),
    File(InputFile),
    Nothing,
}

/// How a tree is read: from which root, without which path, and whether it is
/// a link search path.
pub struct TreeMode {
    pub root: Vec<u8>,
    pub excluded: Option<Vec<u8>>,
    pub link_search_input: bool,
}

/// How a tree is read, as plain values.
pub type TreePlan = (Seq<u8>, Option<Seq<u8>>, bool);

impl TreeMode {
    /// How the tree is read, as plain values.
    pub open spec fn plain(self) -> TreePlan {
        (self.root@, crate::bytes::optional(self.excluded), self.link_search_input)
    }
}

/// The hashed text of a tree and the marks of what was read.
pub type TreeText = Result<(Seq<u8>, Seq<InputMark>), ActionInputError>;

/// Whether a path is passed over.
pub open spec fn is_skipped(plan: TreePlan, path: Seq<u8>) -> bool {
    ||| plan.1 is Some && path_starts_with(path, plan.1->0)
    ||| file_name(path) == Some(utf8(".git"@))
    ||| plan.2 && extension(path) == Some(utf8("dSYM"@))
}

/// The contents of a file as they are hashed: a static library on a link
/// search path without its timestamps.
pub open spec fn hashed_contents(plan: TreePlan, path: Seq<u8>, contents: Seq<u8>) -> Seq<u8> {
    if plan.2 && extension(path) == Some(utf8("a"@)) {
        normalized_archive(contents)
    } else {
        contents
    }
}

/// The hashed text of a file in a tree.
pub open spec fn tree_file_text(plan: TreePlan, path: Seq<u8>, file: InputFile) -> TreeText {
    match file_reading(path, file) {
        Err(error) => Err(error),
        Ok(reading) => match reading.0 {
            None => Err(ActionInputError::Disappeared),
            Some(contents) => Ok(
                (
                    relative_or_self(path, plan.0) + utf8("\0"@) + hashed_contents(
                        plan,
                        path,
                        contents,
                    ) + utf8("\0"@),
                    seq![reading.2],
                ),
            ),
        },
    }
}

/// The hashed text of a tree.
pub open spec fn tree_text(tree: InputTree, plan: TreePlan, path: Seq<u8>) -> TreeText
    decreases tree,
{
    match captured(path, ArtifactCacheActionInputPathKind::Directory, tree.before) {
        Err(error) => Err(error),
        Ok(before) => if before.2 is None {
            Err(ActionInputError::NotADirectory)
        } else {
            match tree.entries {
                None => Err(ActionInputError::Unreadable),
                Some(entries) => match entries_text(entries, entries@.len() as int, plan, path) {
                    Err(error) => Err(error),
                    Ok(text) => match captured(
                        path,
                        ArtifactCacheActionInputPathKind::Directory,
                        tree.after,
                    ) {
                        Err(error) => Err(error),
                        Ok(after) => if same_mark(before, after) {
                            Ok((text.0, text.1.push(after)))
                        } else {
                            Err(ActionInputError::DirectoryChanged)
                        },
                    },
                },
            }
        },
    }
}

/// The names of the entries of a tree.
pub open spec fn tree_names(entries: Seq<TreeEntry>) -> Seq<Seq<u8>> {
    Seq::new(entries.len(), |i: int| entries[i].name@)
}

/// The hashed text of the last `left` entries in the order of their names.
pub open spec fn entries_text(
    entries: Vec<TreeEntry>,
    left: int,
    plan: TreePlan,
    path: Seq<u8>,
) -> TreeText
    decreases entries, left,
{
    if left <= 0 || left > entries@.len() {
        Ok((Seq::empty(), Seq::empty()))
    } else {
        let position = sorted_positions(tree_names(entries@))[entries@.len() - left];
        if !(0 <= position < entries@.len()) {
            Err(ActionInputError::Unreadable)
        } else {
            let entry = entries[position];
            let place = joined(path, entry.name@);
            let head: TreeText = if is_skipped(plan, place) {
                Ok((Seq::empty(), Seq::empty()))
            } else {
                match (entry.kind, entry.content) {
                    (FileKind::Symlink, _) => Err(ActionInputError::ContainsSymlink),
                    (FileKind::Directory, TreeContent::Directory(inner)) => tree_text(
                        inner,
                        plan,
                        place,
                    ),
                    (FileKind::File, TreeContent::File(file)) => tree_file_text(plan, place, file),
                    (FileKind::Other, _) => Err(ActionInputError::UnsupportedNode),
                    _ => Err(ActionInputError::Unreadable),
                }
            };
            match head {
                Err(error) => Err(error),
                Ok(head) => match entries_text(entries, left - 1, plan, path) {
                    Err(error) => Err(error),
                    Ok(tail) => Ok((head.0 + tail.0, head.1 + tail.1)),
                },
            }
        }
    }
}

/// Whether a path is passed over.
fn skips(mode: &TreeMode, path: &[u8]) -> (skipped: bool)
    ensures
        skipped == is_skipped(mode.plain(), path@),
{
    if let Some(excluded) = &mode.excluded {
        if path_has_prefix(path, excluded.as_slice()) {
            return true;
        }
    }
    if let Some(name) = path_file_name(path) {
        if bytes_equal(name.as_slice(), ".git".as_bytes()) {
            return true;
        }
    }
    if mode.link_search_input {
        if let Some(ext) = path_extension(path) {
            if bytes_equal(ext.as_slice(), "dSYM".as_bytes()) {
                return true;
            }
        }
    }
    false
}

/// Appends the hashed text of a file in a tree.
fn hash_tree_file(
    hasher: &mut Vec<u8>,
    mode: &TreeMode,
    path: &[u8],
    file: &InputFile,
    witnesses: &mut Vec<ArtifactCacheActionInputPathWitness>,
) -> (result: Result<(), ActionInputError>)
    ensures
        match (result, tree_file_text(mode.plain(), path@, *file)) {
            (Ok(_), Ok(text)) => final(hasher)@ == old(hasher)@ + text.0 && marks(
                final(witnesses)@,
            ) == marks(old(witnesses)@) + text.1,
            (Err(error), Err(expected)) => error == expected,
            _ => false,
        },
{
    let ghost start = hasher@;
    let ghost list = marks(witnesses@);
    let relative = relative_path(path, mode.root.as_slice());
    push_bytes(hasher, relative.as_slice());
    push_text(hasher, "\0");
    match hash_artifact_cache_action_input_file(path, file, witnesses) {
        Err(error) => Err(error),
        Ok((None, _)) => Err(ActionInputError::Disappeared),
        Ok((Some(contents), _)) => {
            let is_archive = match path_extension(path) {
                Some(ext) => mode.link_search_input && bytes_equal(ext.as_slice(), "a".as_bytes()),
                None => false,
            };
            if is_archive {
                let normalized = normalize_ar_timestamps(contents);
                push_bytes(hasher, normalized.as_slice());
            } else {
                push_bytes(hasher, contents);
            }
            push_text(hasher, "\0");
            proof {
                let text = tree_file_text(mode.plain(), path@, *file)->Ok_0;
                assert(hasher@ =~= start + text.0);
                assert(marks(witnesses@) =~= list + text.1);
            }
            Ok(())
        },
    }
}

/// Appends the hashed text of a tree, and witnesses what was read.
#[verifier::rlimit(40)]
pub fn hash_path_tree(
    hasher: &mut Vec<u8>,
    tree: &InputTree,
    mode: &TreeMode,
    path: &[u8],
    witnesses: &mut Vec<ArtifactCacheActionInputPathWitness>,
) -> (result: Result<(), ActionInputError>)
    ensures
        match (result, tree_text(*tree, mode.plain(), path@)) {
            (Ok(_), Ok(text)) => final(hasher)@ == old(hasher)@ + text.0 && marks(
                final(witnesses)@,
            ) == marks(old(witnesses)@) + text.1,
            (Err(error), Err(expected)) => error == expected,
            _ => false,
        },
    decreases tree,
{
    let ghost start = hasher@;
    let ghost list = marks(witnesses@);
    let before = match ArtifactCacheActionInputPathWitness::capture(
        path,
        ArtifactCacheActionInputPathKind::Directory,
        &tree.before,
    ) {
        Ok(before) => before,
        Err(error) => {
            return Err(error);
        },
    };
    if before.metadata.is_none() {
        return Err(ActionInputError::NotADirectory);
    }
    let entries = match &tree.entries {
        Some(entries) => entries,
        None => {
            return Err(ActionInputError::Unreadable);
        },
    };
    let mut names: Vec<Vec<u8>> = Vec::new();
    let mut count: usize = 0;
    while count < entries.len()
        invariant
            count <= entries@.len(),
            names@.len() == count,
            forall|i: int| 0 <= i < count ==> (#[trigger] names@[i])@ == entries@[i].name@,
        decreases entries@.len() - count,
    {
        names.push(copy_bytes(entries[count].name.as_slice()));
        count = count + 1;
    }
    proof {
        assert(byte_strings(names@) =~= tree_names(entries@));
    }
    let positions = positions_by_name(&names);
    let ghost plan = mode.plain();
    let ghost whole = entries_text(*entries, entries@.len() as int, plan, path@);
    let ghost mut done: (Seq<u8>, Seq<InputMark>) = (Seq::empty(), Seq::empty());
    let mut index: usize = 0;
    proof {
        assert(start + done.0 =~= start);
        assert(list + done.1 =~= list);
        if whole is Ok {
            let text = whole->Ok_0;
            assert(done.0 + text.0 =~= text.0);
            assert(done.1 + text.1 =~= text.1);
        }
    }
    while index < entries.len()
        invariant
            index <= entries@.len(),
            start == old(hasher)@,
            list == marks(old(witnesses)@),
            tree.entries == Some(*entries),
            captured(
                path@,
                ArtifactCacheActionInputPathKind::Directory,
                tree.before,
            ) == Ok::<InputMark, ActionInputError>(before.mark()),
            before.metadata is Some,
            plan == mode.plain(),
            whole == entries_text(*entries, entries@.len() as int, plan, path@),
            positions@.len() == entries@.len(),
            forall|i: int|
                0 <= i < positions@.len() ==> #[trigger] positions@[i] as int == sorted_positions(
                    tree_names(entries@),
                )[i],
            forall|i: int| 0 <= i < positions@.len() ==> #[trigger] positions@[i] < entries@.len(),
            hasher@ == start + done.0,
            marks(witnesses@) == list + done.1,
            match entries_text(*entries, entries@.len() - index, plan, path@) {
                Ok(rest) => whole == Ok::<(Seq<u8>, Seq<InputMark>), ActionInputError>(
                    (done.0 + rest.0, done.1 + rest.1),
                ),
                Err(error) => whole == Err::<(Seq<u8>, Seq<InputMark>), ActionInputError>(error),
            },
        decreases entries@.len() - index,
    {
        let ghost rest = entries_text(*entries, entries@.len() - index, plan, path@);
        let ghost text_before = hasher@;
        let ghost list_before = marks(witnesses@);
        let position: usize = positions[index];
        proof {
            assert(positions@[index as int] as int == sorted_positions(
                tree_names(entries@),
            )[index as int]);
        }
        let entry = &entries[position];
        let place = join_path(path, entry.name.as_slice());
        let ghost mut part: (Seq<u8>, Seq<InputMark>) = (Seq::empty(), Seq::empty());
        if !skips(mode, place.as_slice()) {
            match (entry.kind, &entry.content) {
                (FileKind::Symlink, _) => {
                    return Err(ActionInputError::ContainsSymlink);
                },
                (FileKind::Directory, TreeContent::Directory(inner)) => {
                    proof {
                        assert(tree.entries->Some_0 == *entries);
                        assert(decreases_to!(*tree => tree.entries->Some_0));
                        assert(decreases_to!(*entries => entries[position as int]));
                        assert(decreases_to!(entries[position as int] => *inner));
                    }
                    match hash_path_tree(hasher, inner, mode, place.as_slice(), witnesses) {
                        Ok(_) => {},
                        Err(error) => {
                            return Err(error);
                        },
                    }
                    proof {
                        part = tree_text(*inner, plan, place@)->Ok_0;
                    }
                },
                (FileKind::File, TreeContent::File(file)) => {
                    match hash_tree_file(hasher, mode, place.as_slice(), file, witnesses) {
                        Ok(_) => {},
                        Err(error) => {
                            return Err(error);
                        },
                    }
                    proof {
                        part = tree_file_text(plan, place@, *file)->Ok_0;
                    }
                },
                (FileKind::Other, _) => {
                    return Err(ActionInputError::UnsupportedNode);
                },
                _ => {
                    return Err(ActionInputError::Unreadable);
                },
            }
        }
        proof {
            assert(hasher@ =~= text_before + part.0);
            assert(marks(witnesses@) =~= list_before + part.1);
            let next = (done.0 + part.0, done.1 + part.1);
            let tail = entries_text(*entries, entries@.len() - index - 1, plan, path@);
            if tail is Ok {
                let text = tail->Ok_0;
                assert(rest == Ok::<(Seq<u8>, Seq<InputMark>), ActionInputError>(
                    (part.0 + text.0, part.1 + text.1),
                ));
                assert(done.0 + (part.0 + text.0) =~= next.0 + text.0);
                assert(done.1 + (part.1 + text.1) =~= next.1 + text.1);
            }
            assert(text_before + part.0 =~= start + next.0);
            assert(list_before + part.1 =~= list + next.1);
            done = next;
        }
        index = index + 1;
    }
    proof {
        assert(done.0 + Seq::<u8>::empty() =~= done.0);
        assert(done.1 + Seq::<InputMark>::empty() =~= done.1);
    }
    let after = match ArtifactCacheActionInputPathWitness::capture(
        path,
        ArtifactCacheActionInputPathKind::Directory,
        &tree.after,
    ) {
        Ok(after) => after,
        Err(error) => {
            return Err(error);
        },
    };
    if !before.same_as(&after) {
        return Err(ActionInputError::DirectoryChanged);
    }
    proof {
        assert((list + done.1).push(after.mark()) =~= list + done.1.push(after.mark()));
    }
    push_witness(witnesses, after);
    Ok(())
}

/// A file among the inputs of a compilation.
pub struct NamedFile {
    pub path: Vec<u8>,
    pub file: InputFile,
}

/// A tree among the inputs of a compilation.
pub struct NamedTree {
    pub path: Vec<u8>,
    pub tree: InputTree,
}

/// What was read of the inputs of a compilation. An input that is not listed
/// is absent.
pub struct ActionInputs {
    pub files: Vec<NamedFile>,
    pub trees: Vec<NamedTree>,
}

/// The first file of a list with the given path.
pub open spec fn file_at(files: Seq<NamedFile>, path: Seq<u8>) -> Option<InputFile>
    decreases files.len(),
{
    if files.len() == 0 {
        None
    } else if files[0].path@ == path {
        Some(files[0].file)
    } else {
        file_at(files.drop_first(), path)
    }
}

/// The first tree of a list with the given path.
pub open spec fn tree_at(trees: Seq<NamedTree>, path: Seq<u8>) -> Option<InputTree>
    decreases trees.len(),
{
    if trees.len() == 0 {
        None
    } else if trees[0].path@ == path {
        Some(trees[0].tree)
    } else {
        tree_at(trees.drop_first(), path)
    }
}

/// The first file of a list with the given path.
fn find_file<'a>(files: &'a Vec<NamedFile>, path: &[u8]) -> (found: Option<&'a InputFile>)
    ensures
        match found {
            Some(file) => file_at(files@, path@) == Some(*file),
            None => file_at(files@, path@) is None,
        },
{
    let mut at: usize = 0;
    proof {
        assert(files@.skip(0) =~= files@);
    }
    while at < files.len()
        invariant
            at <= files@.len(),
            file_at(files@, path@) == file_at(files@.skip(at as int), path@),
        decreases files@.len() - at,
    {
        proof {
            assert(files@.skip(at as int)[0] == files@[at as int]);
            assert(files@.skip(at as int).drop_first() =~= files@.skip(at + 1));
        }
        if bytes_equal(files[at].path.as_slice(), path) {
            return Some(&files[at].file);
        }
        at = at + 1;
    }
    proof {
        assert(files@.skip(at as int).len() == 0);
    }
    None
}

/// The first tree of a list with the given path.
fn find_tree<'a>(trees: &'a Vec<NamedTree>, path: &[u8]) -> (found: Option<&'a InputTree>)
    ensures
        match found {
            Some(tree) => tree_at(trees@, path@) == Some(*tree),
            None => tree_at(trees@, path@) is None,
        },
{
    let mut at: usize = 0;
    proof {
        assert(trees@.skip(0) =~= trees@);
    }
    while at < trees.len()
        invariant
            at <= trees@.len(),
            tree_at(trees@, path@) == tree_at(trees@.skip(at as int), path@),
        decreases trees@.len() - at,
    {
        proof {
            assert(trees@.skip(at as int)[0] == trees@[at as int]);
            assert(trees@.skip(at as int).drop_first() =~= trees@.skip(at + 1));
        }
        if bytes_equal(trees[at].path.as_slice(), path) {
            return Some(&trees[at].tree);
        }
        at = at + 1;
    }
    proof {
        assert(trees@.skip(at as int).len() == 0);
    }
    None
}

/// What is gathered of inputs: hashed text, marks, and whether the witness
/// can stand for the contents.
pub type Gathered = Result<(Seq<u8>, Seq<InputMark>, bool), ActionInputError>;

/// `before` with more gathered behind it.
pub open spec fn gathered_more(before: Gathered, more: Gathered) -> Gathered {
    match (before, more) {
        (Err(error), _) => Err(error),
        (_, Err(error)) => Err(error),
        (Ok(a), Ok(b)) => Ok((a.0 + b.0, a.1 + b.1, a.2 && b.2)),
    }
}

/// Nothing gathered.
pub open spec fn nothing_gathered() -> Gathered {
    Ok((Seq::empty(), Seq::empty(), true))
}

/// The resolved path of an input: a relative one stands below the directory of
/// the invocation.
pub fn resolve_rustc_input_path(path: &[u8], rustc_cwd: &[u8]) -> (resolved: Vec<u8>)
    ensures
        resolved@ == joined(rustc_cwd@, path@),
{
    join_path(rustc_cwd, path)
}

/// What is gathered of one linked crate.
pub open spec fn extern_gathered(operand: Seq<char>, cwd: Seq<u8>, inputs: ActionInputs) -> Gathered {
    match cut_first(operand, '=') {
        None => nothing_gathered(),
        Some((name, path)) => {
            let place = joined(cwd, utf8(path));
            match file_at(inputs.files@, place) {
                None => Ok(
                    (
                        Seq::empty(),
                        seq![(place, ArtifactCacheActionInputPathKind::File, None)],
                        false,
                    ),
                ),
                Some(file) => match file_reading(place, file) {
                    Err(error) => Err(error),
                    Ok(reading) => Ok(
                        (
                            match reading.0 {
                                Some(contents) => utf8("extern-content\0"@) + contents + utf8(
                                    "\0"@,
                                ),
                                None => Seq::empty(),
                            },
                            seq![reading.2],
                            reading.1,
                        ),
                    ),
                },
            }
        },
    }
}

/// What is gathered of a directory, with `heading` before its tree.
pub open spec fn directory_gathered(
    place: Seq<u8>,
    heading: Seq<u8>,
    link_search_input: bool,
    inputs: ActionInputs,
) -> Gathered {
    match tree_at(inputs.trees@, place) {
        None => Ok(
            (Seq::empty(), seq![(place, ArtifactCacheActionInputPathKind::Directory, None)], true),
        ),
        Some(tree) => match captured(
            place,
            ArtifactCacheActionInputPathKind::Directory,
            tree.before,
        ) {
            Err(error) => Err(error),
            Ok(directory) => if directory.2 is None {
                Ok((Seq::empty(), seq![directory], true))
            } else {
                match tree_text(tree, (place, None, link_search_input), place) {
                    Err(error) => Err(error),
                    Ok(text) => Ok((heading + text.0, text.1, false)),
                }
            },
        },
    }
}

/// Whether a variable names a directory of generated sources.
pub open spec fn names_generated(key: Seq<char>) -> bool {
    key == "OUT_DIR"@ || "_OUT_DIR"@.is_suffix_of(key)
}

/// Whether a variable names a directory of generated sources.
pub fn is_generated_variable(key: &str) -> (found: bool)
    ensures
        found == names_generated(key@),
{
    text_is(key, "OUT_DIR") || has_suffix(key, "_OUT_DIR")
}

/// What is gathered of one setting.
pub open spec fn setting_gathered(
    setting: (Seq<char>, Option<Seq<u8>>),
    cwd: Seq<u8>,
    inputs: ActionInputs,
) -> Gathered {
    match setting.1 {
        Some(value) => if names_generated(setting.0) {
            directory_gathered(
                joined(cwd, value),
                utf8("generated-input-tree\0"@) + utf8(setting.0) + utf8("\0"@),
                false,
                inputs,
            )
        } else {
            nothing_gathered()
        },
        None => nothing_gathered(),
    }
}

/// What is gathered of one search path.
pub open spec fn search_gathered(operand: Seq<char>, cwd: Seq<u8>, inputs: ActionInputs) -> Gathered {
    if is_crate_search(operand) {
        nothing_gathered()
    } else {
        directory_gathered(
            joined(cwd, utf8(search_directory(operand))),
            utf8("link-search-input-tree\0"@),
            true,
            inputs,
        )
    }
}

/// What is gathered of linked crates, in order.
pub open spec fn externs_gathered(
    list: Seq<Seq<char>>,
    cwd: Seq<u8>,
    inputs: ActionInputs,
) -> Gathered
    decreases list.len(),
{
    if list.len() == 0 {
        nothing_gathered()
    } else {
        gathered_more(
            externs_gathered(list.drop_last(), cwd, inputs),
            extern_gathered(list.last(), cwd, inputs),
        )
    }
}

/// What is gathered of settings, in order.
pub open spec fn settings_gathered(
    list: Seq<(Seq<char>, Option<Seq<u8>>)>,
    cwd: Seq<u8>,
    inputs: ActionInputs,
) -> Gathered
    decreases list.len(),
{
    if list.len() == 0 {
        nothing_gathered()
    } else {
        gathered_more(
            settings_gathered(list.drop_last(), cwd, inputs),
            setting_gathered(list.last(), cwd, inputs),
        )
    }
}

/// What is gathered of search paths, in order.
pub open spec fn searches_gathered(
    list: Seq<Seq<char>>,
    cwd: Seq<u8>,
    inputs: ActionInputs,
) -> Gathered
    decreases list.len(),
{
    if list.len() == 0 {
        nothing_gathered()
    } else {
        gathered_more(
            searches_gathered(list.drop_last(), cwd, inputs),
            search_gathered(list.last(), cwd, inputs),
        )
    }
}

/// What is gathered of all inputs of an invocation: linked crates, generated
/// sources, link search paths.
pub open spec fn action_gathered(rustc: &Command, cwd: Seq<u8>, inputs: ActionInputs) -> Gathered {
    let arguments = lossy_list(rustc.argument_list());
    gathered_more(
        gathered_more(
            externs_gathered(operands(arguments, "--extern"@), cwd, inputs),
            settings_gathered(rustc.setting_list(), cwd, inputs),
        ),
        searches_gathered(operands(arguments, "-L"@), cwd, inputs),
    )
}

/// The text that is hashed for the inputs of an invocation.
pub open spec fn action_text(gathered: Seq<u8>) -> Seq<u8> {
    utf8("cargo-artifact-cache-action-inputs-v1\0"@) + gathered
}

/// The gathering of inputs.
struct Gathering {
    hasher: Vec<u8>,
    witnesses: Vec<ArtifactCacheActionInputPathWitness>,
    supports_fast_path: bool,
}

impl Gathering {
    /// What is gathered behind the given start.
    spec fn holds(&self, gathered: Gathered) -> bool {
        match gathered {
            Ok(parts) => {
                &&& self.hasher@ == action_text(parts.0)
                &&& marks(self.witnesses@) == parts.1
                &&& self.supports_fast_path == parts.2
            },
            Err(_) => false,
        }
    }
}

/// Gathers one linked crate.
fn gather_extern(
    gathering: &mut Gathering,
    operand: &str,
    cwd: &[u8],
    inputs: &ActionInputs,
    before: Ghost<Gathered>,
) -> (result: Result<(), ActionInputError>)
    requires
        old(gathering).holds(before@),
    ensures
        match result {
            Ok(_) => final(gathering).holds(
                gathered_more(before@, extern_gathered(operand@, cwd@, *inputs)),
            ),
            Err(error) => gathered_more(before@, extern_gathered(operand@, cwd@, *inputs)) == Err::<
                (Seq<u8>, Seq<InputMark>, bool),
                ActionInputError,
            >(error),
        },
{
    let ghost parts = before@->Ok_0;
    let ghost goal = gathered_more(before@, extern_gathered(operand@, cwd@, *inputs));
    let path = match split_once(operand, '=') {
        Some((_, path)) => path,
        None => {
            proof {
                assert(parts.0 + Seq::<u8>::empty() =~= parts.0);
                assert(parts.1 + Seq::<InputMark>::empty() =~= parts.1);
            }
            return Ok(());
        },
    };
    let place = resolve_rustc_input_path(path.as_str().as_bytes(), cwd);
    match find_file(&inputs.files, place.as_slice()) {
        None => {
            let ghost mark = (place@, ArtifactCacheActionInputPathKind::File, None::<
                crate::action_inputs::ArtifactCacheActionInputMetadataWitness,
            >);
            let witness = ArtifactCacheActionInputPathWitness {
                path: place,
                kind: ArtifactCacheActionInputPathKind::File,
                metadata: None,
            };
            push_witness(&mut gathering.witnesses, witness);
            gathering.supports_fast_path = false;
            proof {
                assert(parts.0 + Seq::<u8>::empty() =~= parts.0);
                assert(parts.1.push(mark) =~= parts.1 + seq![mark]);
            }
            Ok(())
        },
        Some(file) => {
            match hash_artifact_cache_action_input_file(
                place.as_slice(),
                file,
                &mut gathering.witnesses,
            ) {
                Err(error) => Err(error),
                Ok((contents, reliable)) => {
                    gathering.supports_fast_path = gathering.supports_fast_path && reliable;
                    let ghost start = gathering.hasher@;
                    if let Some(contents) = contents {
                        push_text(&mut gathering.hasher, "extern-content\0");
                        push_bytes(&mut gathering.hasher, contents);
                        push_text(&mut gathering.hasher, "\0");
                    }
                    proof {
                        let reading = file_reading(place@, *file)->Ok_0;
                        let added = match reading.0 {
                            Some(contents) => utf8("extern-content\0"@) + contents + utf8("\0"@),
                            None => Seq::empty(),
                        };
                        assert(gathering.hasher@ =~= action_text(parts.0 + added));
                        assert(parts.1.push(reading.2) =~= parts.1 + seq![reading.2]);
                    }
                    Ok(())
                },
            }
        },
    }
}

/// Gathers one directory.
fn gather_directory(
    gathering: &mut Gathering,
    place: Vec<u8>,
    heading: &[u8],
    link_search_input: bool,
    inputs: &ActionInputs,
    before: Ghost<Gathered>,
) -> (result: Result<(), ActionInputError>)
    requires
        old(gathering).holds(before@),
    ensures
        match result {
            Ok(_) => final(gathering).holds(
                gathered_more(
                    before@,
                    directory_gathered(place@, heading@, link_search_input, *inputs),
                ),
            ),
            Err(error) => gathered_more(
                before@,
                directory_gathered(place@, heading@, link_search_input, *inputs),
            ) == Err::<(Seq<u8>, Seq<InputMark>, bool), ActionInputError>(error),
        },
{
    let ghost parts = before@->Ok_0;
    proof {
        assert(parts.0 + Seq::<u8>::empty() =~= parts.0);
    }
    match find_tree(&inputs.trees, place.as_slice()) {
        None => {
            let ghost mark = (place@, ArtifactCacheActionInputPathKind::Directory, None::<
                crate::action_inputs::ArtifactCacheActionInputMetadataWitness,
            >);
            let witness = ArtifactCacheActionInputPathWitness {
                path: place,
                kind: ArtifactCacheActionInputPathKind::Directory,
                metadata: None,
            };
            push_witness(&mut gathering.witnesses, witness);
            proof {
                assert(parts.1.push(mark) =~= parts.1 + seq![mark]);
            }
            Ok(())
        },
        Some(tree) => {
            let directory = match ArtifactCacheActionInputPathWitness::capture(
                place.as_slice(),
                ArtifactCacheActionInputPathKind::Directory,
                &tree.before,
            ) {
                Ok(directory) => directory,
                Err(error) => {
                    return Err(error);
                },
            };
            if directory.metadata.is_none() {
                let ghost mark = directory.mark();
                push_witness(&mut gathering.witnesses, directory);
                proof {
                    assert(parts.1.push(mark) =~= parts.1 + seq![mark]);
                }
                return Ok(());
            }
            gathering.supports_fast_path = false;
            push_bytes(&mut gathering.hasher, heading);
            let mode = TreeMode {
                root: copy_bytes(place.as_slice()),
                excluded: None,
                link_search_input,
            };
            match hash_path_tree(
                &mut gathering.hasher,
                tree,
                &mode,
                place.as_slice(),
                &mut gathering.witnesses,
            ) {
                Err(error) => Err(error),
                Ok(_) => {
                    proof {
                        let text = tree_text(
                            *tree,
                            (place@, None, link_search_input),
                            place@,
                        )->Ok_0;
                        assert(gathering.hasher@ =~= action_text(parts.0 + (heading@ + text.0)));
                    }
                    Ok(())
                },
            }
        },
    }
}

/// An error in the first of a list of linked crates is the error of all.
proof fn lemma_externs_error(list: Seq<Seq<char>>, count: int, cwd: Seq<u8>, inputs: ActionInputs)
    requires
        0 <= count <= list.len(),
        externs_gathered(list.take(count), cwd, inputs) is Err,
    ensures
        externs_gathered(list, cwd, inputs) == externs_gathered(list.take(count), cwd, inputs),
    decreases list.len() - count,
{
    if count < list.len() {
        assert(list.take(count + 1).drop_last() =~= list.take(count));
        lemma_externs_error(list, count + 1, cwd, inputs);
    } else {
        assert(list.take(count) =~= list);
    }
}

/// An error in the first of a list of settings is the error of all.
proof fn lemma_settings_error(
    list: Seq<(Seq<char>, Option<Seq<u8>>)>,
    count: int,
    cwd: Seq<u8>,
    inputs: ActionInputs,
)
    requires
        0 <= count <= list.len(),
        settings_gathered(list.take(count), cwd, inputs) is Err,
    ensures
        settings_gathered(list, cwd, inputs) == settings_gathered(list.take(count), cwd, inputs),
    decreases list.len() - count,
{
    if count < list.len() {
        assert(list.take(count + 1).drop_last() =~= list.take(count));
        lemma_settings_error(list, count + 1, cwd, inputs);
    } else {
        assert(list.take(count) =~= list);
    }
}

/// An error in the first of a list of search paths is the error of all.
proof fn lemma_searches_error(list: Seq<Seq<char>>, count: int, cwd: Seq<u8>, inputs: ActionInputs)
    requires
        0 <= count <= list.len(),
        searches_gathered(list.take(count), cwd, inputs) is Err,
    ensures
        searches_gathered(list, cwd, inputs) == searches_gathered(list.take(count), cwd, inputs),
    decreases list.len() - count,
{
    if count < list.len() {
        assert(list.take(count + 1).drop_last() =~= list.take(count));
        lemma_searches_error(list, count + 1, cwd, inputs);
    } else {
        assert(list.take(count) =~= list);
    }
}

/// Gathering three parts one after the other is gathering them grouped.
proof fn lemma_gathered_grouping(a: Gathered, b: Gathered, c: Gathered)
    ensures
        gathered_more(gathered_more(a, b), c) == gathered_more(a, gathered_more(b, c)),
        gathered_more(nothing_gathered(), a) == a,
        gathered_more(a, nothing_gathered()) == a,
{
    if a is Ok {
        let x = a->Ok_0;
        assert(Seq::<u8>::empty() + x.0 =~= x.0);
        assert(Seq::<InputMark>::empty() + x.1 =~= x.1);
        assert(x.0 + Seq::<u8>::empty() =~= x.0);
        assert(x.1 + Seq::<InputMark>::empty() =~= x.1);
        if b is Ok && c is Ok {
            let y = b->Ok_0;
            let z = c->Ok_0;
            assert(x.0 + y.0 + z.0 =~= x.0 + (y.0 + z.0));
            assert(x.1 + y.1 + z.1 =~= x.1 + (y.1 + z.1));
        }
    }
}

/// The digest of inputs and their witness.
pub struct ArtifactCacheActionInputSnapshot {
    pub digest: [u8; 32],
    pub witness: ArtifactCacheActionInputWitness,
}

/// Whether a snapshot is made of what was gathered.
pub open spec fn is_snapshot_of(
    snapshot: ArtifactCacheActionInputSnapshot,
    parts: (Seq<u8>, Seq<InputMark>, bool),
) -> bool {
    &&& snapshot.digest@ == blake3_digest(action_text(parts.0))
    &&& marks(snapshot.witness.paths@) == without_repetition(sorted(parts.1, mark_order()))
    &&& snapshot.witness.supports_fast_path == parts.2
}

/// The digest of the inputs of an invocation, and their witness.
#[verifier::rlimit(60)]
pub fn artifact_cache_action_inputs_snapshot(
    rustc: &Command,
    rustc_cwd: &[u8],
    inputs: &ActionInputs,
) -> (snapshot: Result<ArtifactCacheActionInputSnapshot, ActionInputError>)
    ensures
        match (snapshot, action_gathered(rustc, rustc_cwd@, *inputs)) {
            (Ok(snapshot), Ok(parts)) => is_snapshot_of(snapshot, parts),
            (Err(error), Err(expected)) => error == expected,
            _ => false,
        },
{
    let arguments = rustc.argument_texts();
    let mut gathering = Gathering {
        hasher: Vec::new(),
        witnesses: Vec::new(),
        supports_fast_path: true,
    };
    push_text(&mut gathering.hasher, "cargo-artifact-cache-action-inputs-v1\0");
    let externs = flag_operands(&arguments, "--extern");
    let ghost extern_list = texts(externs@);
    let ghost setting_list = rustc.setting_list();
    let searches = flag_operands(&arguments, "-L");
    let ghost search_list = texts(searches@);
    let ghost cwd = rustc_cwd@;
    let ghost all_externs = externs_gathered(extern_list, cwd, *inputs);
    let ghost all_settings = settings_gathered(setting_list, cwd, *inputs);
    let ghost all_searches = searches_gathered(search_list, cwd, *inputs);
    let mut index: usize = 0;
    proof {
        assert(extern_list.take(0) =~= Seq::empty());
        assert(gathering.hasher@ =~= action_text(Seq::empty()));
        assert(marks(gathering.witnesses@) =~= Seq::empty());
    }
    while index < externs.len()
        invariant
            index <= externs@.len(),
            extern_list == texts(externs@),
            cwd == rustc_cwd@,
            all_externs == externs_gathered(extern_list, cwd, *inputs),
            action_gathered(rustc, rustc_cwd@, *inputs) == gathered_more(
                gathered_more(all_externs, all_settings),
                all_searches,
            ),
            gathering.holds(externs_gathered(extern_list.take(index as int), cwd, *inputs)),
        decreases externs@.len() - index,
    {
        proof {
            assert(extern_list.take(index + 1).drop_last() =~= extern_list.take(index as int));
            assert(extern_list.take(index + 1).last() == externs@[index as int]@);
        }
        match gather_extern(
            &mut gathering,
            externs[index].as_str(),
            rustc_cwd,
            inputs,
            Ghost(externs_gathered(extern_list.take(index as int), cwd, *inputs)),
        ) {
            Ok(_) => {},
            Err(error) => {
                proof {
                    lemma_externs_error(extern_list, index + 1, cwd, *inputs);
                }
                return Err(error);
            },
        }
        index = index + 1;
    }
    proof {
        assert(extern_list.take(index as int) =~= extern_list);
        assert(setting_list.take(0) =~= Seq::empty());
        lemma_gathered_grouping(all_externs, nothing_gathered(), nothing_gathered());
    }
    let mut at: usize = 0;
    while at < rustc.environment.len()
        invariant
            at <= rustc.environment@.len(),
            setting_list == rustc.setting_list(),
            cwd == rustc_cwd@,
            all_externs is Ok,
            all_settings == settings_gathered(setting_list, cwd, *inputs),
            action_gathered(rustc, rustc_cwd@, *inputs) == gathered_more(
                gathered_more(all_externs, all_settings),
                all_searches,
            ),
            gathering.holds(
                gathered_more(
                    all_externs,
                    settings_gathered(setting_list.take(at as int), cwd, *inputs),
                ),
            ),
        decreases rustc.environment@.len() - at,
    {
        let variable = &rustc.environment[at];
        let ghost first = settings_gathered(setting_list.take(at as int), cwd, *inputs);
        let ghost before = gathered_more(all_externs, first);
        let ghost one = setting_gathered(setting_list[at as int], cwd, *inputs);
        proof {
            assert(setting_list.take(at + 1).drop_last() =~= setting_list.take(at as int));
            assert(setting_list.take(at + 1).last() == setting_list[at as int]);
            lemma_gathered_grouping(all_externs, first, one);
            lemma_gathered_grouping(before, nothing_gathered(), nothing_gathered());
        }
        if is_generated_variable(variable.name.as_str()) {
            if let Some(value) = &variable.value {
                let place = resolve_rustc_input_path(value.as_slice(), rustc_cwd);
                let mut heading: Vec<u8> = Vec::new();
                push_text(&mut heading, "generated-input-tree\0");
                push_text(&mut heading, variable.name.as_str());
                push_text(&mut heading, "\0");
                proof {
                    assert(heading@ =~= utf8("generated-input-tree\0"@) + utf8(variable.name@)
                        + utf8("\0"@));
                }
                match gather_directory(
                    &mut gathering,
                    place,
                    heading.as_slice(),
                    false,
                    inputs,
                    Ghost(before),
                ) {
                    Ok(_) => {},
                    Err(error) => {
                        proof {
                            lemma_settings_error(setting_list, at + 1, cwd, *inputs);
                        }
                        return Err(error);
                    },
                }
            }
        }
        at = at + 1;
    }
    proof {
        assert(setting_list.take(at as int) =~= setting_list);
        assert(search_list.take(0) =~= Seq::empty());
        lemma_gathered_grouping(
            gathered_more(all_externs, all_settings),
            nothing_gathered(),
            nothing_gathered(),
        );
    }
    let ghost both = gathered_more(all_externs, all_settings);
    let mut position: usize = 0;
    while position < searches.len()
        invariant
            position <= searches@.len(),
            search_list == texts(searches@),
            cwd == rustc_cwd@,
            both is Ok,
            all_searches == searches_gathered(search_list, cwd, *inputs),
            action_gathered(rustc, rustc_cwd@, *inputs) == gathered_more(both, all_searches),
            gathering.holds(
                gathered_more(
                    both,
                    searches_gathered(search_list.take(position as int), cwd, *inputs),
                ),
            ),
        decreases searches@.len() - position,
    {
        let operand = searches[position].as_str();
        let ghost first = searches_gathered(search_list.take(position as int), cwd, *inputs);
        let ghost before = gathered_more(both, first);
        let ghost one = search_gathered(search_list[position as int], cwd, *inputs);
        proof {
            assert(search_list.take(position + 1).drop_last() =~= search_list.take(
                position as int,
            ));
            assert(search_list.take(position + 1).last() == operand@);
            lemma_gathered_grouping(both, first, one);
            lemma_gathered_grouping(before, nothing_gathered(), nothing_gathered());
        }
        if !searches_crates(operand) {
            let directory = search_path_directory(operand);
            let place = resolve_rustc_input_path(directory.as_str().as_bytes(), rustc_cwd);
            match gather_directory(
                &mut gathering,
                place,
                "link-search-input-tree\0".as_bytes(),
                true,
                inputs,
                Ghost(before),
            ) {
                Ok(_) => {},
                Err(error) => {
                    proof {
                        lemma_searches_error(search_list, position + 1, cwd, *inputs);
                    }
                    return Err(error);
                },
            }
        }
        position = position + 1;
    }
    proof {
        assert(search_list.take(position as int) =~= search_list);
    }
    Ok(
        ArtifactCacheActionInputSnapshot {
            digest: blake3_of(gathering.hasher.as_slice()),
            witness: ArtifactCacheActionInputWitness::new(
                gathering.witnesses,
                gathering.supports_fast_path,
            ),
        },
    )
}

/// Whether `current` tells that the inputs of an invocation are those with the
/// expected digest, and the witness is replaced as that asks for.
pub open spec fn is_confirmation(
    rustc: &Command,
    cwd: Seq<u8>,
    expected_digest: Seq<u8>,
    disk: Disk,
    inputs: ActionInputs,
    before: ArtifactCacheActionInputWitness,
    current: Result<bool, ActionInputError>,
    after: ArtifactCacheActionInputWitness,
) -> bool {
    if before.supports_fast_path && before.unchanged(disk) {
        current == Ok::<bool, ActionInputError>(true) && after == before
    } else {
        match action_gathered(rustc, cwd, inputs) {
            Err(error) => current == Err::<bool, ActionInputError>(error) && after == before,
            Ok(parts) => if blake3_digest(action_text(parts.0)) == expected_digest {
                &&& current == Ok::<bool, ActionInputError>(true)
                &&& marks(after.paths@) == without_repetition(sorted(parts.1, mark_order()))
                &&& after.supports_fast_path == parts.2
            } else {
                current == Ok::<bool, ActionInputError>(false) && after == before
            },
        }
    }
}

/// Whether the inputs of an invocation are those with the expected digest.
/// Where the witness cannot stand for them, they are read again; a witness of
/// the same contents replaces the old one.
pub fn artifact_cache_action_inputs_are_current(
    rustc: &Command,
    rustc_cwd: &[u8],
    expected_digest: &[u8; 32],
    witness: &mut ArtifactCacheActionInputWitness,
    disk: &Disk,
    inputs: &ActionInputs,
) -> (current: Result<bool, ActionInputError>)
    ensures
        is_confirmation(
            rustc,
            rustc_cwd@,
            expected_digest@,
            *disk,
            *inputs,
            *old(witness),
            current,
            *final(witness),
        ),
{
    if witness.supports_fast_path && witness.is_current(disk) {
        return Ok(true);
    }
    match artifact_cache_action_inputs_snapshot(rustc, rustc_cwd, inputs) {
        Err(error) => Err(error),
        Ok(now) => {
            if !bytes_equal(&now.digest, expected_digest) {
                return Ok(false);
            }
            *witness = now.witness;
            Ok(true)
        },
    }
}

/// Whether a path is a regular file, symbolic links followed.
pub open spec fn is_file_on(disk: Disk, path: Seq<u8>) -> bool {
    match disk.followed(path) {
        Lookup::Found(metadata) => metadata.kind == FileKind::File,
        _ => false,
    }
}

/// Whether a path is a directory, symbolic links followed.
pub open spec fn is_directory_on(disk: Disk, path: Seq<u8>) -> bool {
    match disk.followed(path) {
        Lookup::Found(metadata) => metadata.kind == FileKind::Directory,
        _ => false,
    }
}

/// Whether a linked crate is there.
pub open spec fn extern_exists(operand: Seq<char>, cwd: Seq<u8>, disk: Disk) -> bool {
    match cut_first(operand, '=') {
        Some((name, path)) => is_file_on(disk, joined(cwd, utf8(path))),
        None => false,
    }
}

/// Whether the directory that a setting names is there.
pub open spec fn generated_exists(
    setting: (Seq<char>, Option<Seq<u8>>),
    cwd: Seq<u8>,
    disk: Disk,
) -> bool {
    match setting.1 {
        Some(value) => names_generated(setting.0) ==> is_directory_on(disk, joined(cwd, value)),
        None => true,
    }
}

/// Whether all linked crates and generated sources of an invocation are there.
pub fn artifact_cache_action_inputs_are_materialized(
    rustc: &Command,
    rustc_cwd: &[u8],
    disk: &Disk,
) -> (materialized: bool)
    ensures
        materialized == {
            &&& forall|i: int|
                0 <= i < operands(lossy_list(rustc.argument_list()), "--extern"@).len()
                    ==> extern_exists(
                    #[trigger] operands(lossy_list(rustc.argument_list()), "--extern"@)[i],
                    rustc_cwd@,
                    *disk,
                )
            &&& forall|i: int|
                0 <= i < rustc.setting_list().len() ==> generated_exists(
                    #[trigger] rustc.setting_list()[i],
                    rustc_cwd@,
                    *disk,
                )
        },
{
    let arguments = rustc.argument_texts();
    let externs = flag_operands(&arguments, "--extern");
    let ghost list = operands(lossy_list(rustc.argument_list()), "--extern"@);
    let mut index: usize = 0;
    while index < externs.len()
        invariant
            index <= externs@.len(),
            list == texts(externs@),
            list == operands(lossy_list(rustc.argument_list()), "--extern"@),
            forall|i: int|
                0 <= i < index ==> extern_exists(#[trigger] list[i], rustc_cwd@, *disk),
        decreases externs@.len() - index,
    {
        proof {
            assert(list[index as int] == externs@[index as int]@);
        }
        let exists = match split_once(externs[index].as_str(), '=') {
            Some((_, path)) => {
                let place = resolve_rustc_input_path(path.as_str().as_bytes(), rustc_cwd);
                match disk.metadata(place.as_slice()) {
                    Lookup::Found(metadata) => metadata.kind == FileKind::File,
                    _ => false,
                }
            },
            None => false,
        };
        if !exists {
            return false;
        }
        index = index + 1;
    }
    let mut at: usize = 0;
    while at < rustc.environment.len()
        invariant
            at <= rustc.environment@.len(),
            list == operands(lossy_list(rustc.argument_list()), "--extern"@),
            forall|i: int|
                0 <= i < list.len() ==> extern_exists(#[trigger] list[i], rustc_cwd@, *disk),
            forall|i: int|
                0 <= i < at ==> generated_exists(
                    #[trigger] rustc.setting_list()[i],
                    rustc_cwd@,
                    *disk,
                ),
        decreases rustc.environment@.len() - at,
    {
        let variable = &rustc.environment[at];
        proof {
            assert(rustc.setting_list()[at as int] == (
                variable.name@,
                crate::bytes::optional(variable.value),
            ));
        }
        if is_generated_variable(variable.name.as_str()) {
            if let Some(value) = &variable.value {
                let place = resolve_rustc_input_path(value.as_slice(), rustc_cwd);
                let exists = match disk.metadata(place.as_slice()) {
                    Lookup::Found(metadata) => metadata.kind == FileKind::Directory,
                    _ => false,
                };
                if !exists {
                    return false;
                }
            }
        }
        at = at + 1;
    }
    true
}

/// Whether the nodes that were read are on a disk as they were read.
pub open spec fn are_on(disk: Disk, list: Seq<InputMark>) -> bool {
    forall|mark: InputMark| #[trigger]
        list.contains(mark) ==> captured(mark.0, mark.1, disk.own(mark.0)) == Ok::<
            InputMark,
            ActionInputError,
        >(mark)
}

/// What is left without repetition was in the list.
proof fn lemma_without_repetition_members(list: Seq<InputMark>)
    ensures
        forall|i: int|
            0 <= i < without_repetition(list).len() ==> list.contains(
                #[trigger] without_repetition(list)[i],
            ),
    decreases list.len(),
{
    if list.len() > 0 {
        let before = list.drop_last();
        lemma_without_repetition_members(before);
        let kept = without_repetition(before);
        let result = without_repetition(list);
        assert forall|i: int| 0 <= i < result.len() implies list.contains(#[trigger] result[i]) by {
            if i < kept.len() {
                assert(result[i] == kept[i]);
                let k = choose|k: int| 0 <= k < before.len() && before[k] == kept[i];
                assert(list[k] == result[i]);
            } else {
                assert(list[list.len() - 1] == result[i]);
            }
        }
    }
}

/// Inputs that changed are not current, and leave the witness as it was: what
/// is gathered of them now has another digest than what was gathered of them
/// before, and the witness of that shows that a node changed, or cannot stand
/// for them.
pub proof fn law_changed_inputs_are_not_current(
    rustc: &Command,
    cwd: Seq<u8>,
    disk: Disk,
    earlier: ActionInputs,
    now: ActionInputs,
    snapshot: ArtifactCacheActionInputSnapshot,
    current: Result<bool, ActionInputError>,
    after: ArtifactCacheActionInputWitness,
)
    requires
        action_gathered(rustc, cwd, earlier) is Ok,
        action_gathered(rustc, cwd, now) is Ok,
        is_snapshot_of(snapshot, action_gathered(rustc, cwd, earlier)->Ok_0),
        blake3_digest(action_text(action_gathered(rustc, cwd, now)->Ok_0.0)) != blake3_digest(
            action_text(action_gathered(rustc, cwd, earlier)->Ok_0.0),
        ),
        !snapshot.witness.supports_fast_path || !snapshot.witness.unchanged(disk),
        is_confirmation(
            rustc,
            cwd,
            snapshot.digest@,
            disk,
            now,
            snapshot.witness,
            current,
            after,
        ),
    ensures
        current == Ok::<bool, ActionInputError>(false),
        after == snapshot.witness,
{
}

/// Inputs that were written anew with the same bytes are current, and the
/// witness that replaces the old one is itself current: asking again gives the
/// same answer.
pub proof fn law_rewritten_inputs_are_current(
    rustc: &Command,
    cwd: Seq<u8>,
    disk: Disk,
    earlier: ActionInputs,
    now: ActionInputs,
    snapshot: ArtifactCacheActionInputSnapshot,
    current: Result<bool, ActionInputError>,
    after: ArtifactCacheActionInputWitness,
    again: Result<bool, ActionInputError>,
    last: ArtifactCacheActionInputWitness,
)
    requires
        action_gathered(rustc, cwd, earlier) is Ok,
        action_gathered(rustc, cwd, now) is Ok,
        is_snapshot_of(snapshot, action_gathered(rustc, cwd, earlier)->Ok_0),
        action_gathered(rustc, cwd, now)->Ok_0.0 == action_gathered(rustc, cwd, earlier)->Ok_0.0,
        are_on(disk, action_gathered(rustc, cwd, now)->Ok_0.1),
        is_confirmation(
            rustc,
            cwd,
            snapshot.digest@,
            disk,
            now,
            snapshot.witness,
            current,
            after,
        ),
        is_confirmation(rustc, cwd, snapshot.digest@, disk, now, after, again, last),
    ensures
        current == Ok::<bool, ActionInputError>(true),
        !(snapshot.witness.supports_fast_path && snapshot.witness.unchanged(disk))
            ==> after.unchanged(disk),
        again == Ok::<bool, ActionInputError>(true),
{
    let parts = action_gathered(rustc, cwd, now)->Ok_0;
    if !(snapshot.witness.supports_fast_path && snapshot.witness.unchanged(disk)) {
        let list = sorted(parts.1, mark_order());
        lemma_sorted_members(parts.1, mark_order());
        lemma_without_repetition_members(list);
        assert forall|i: int| 0 <= i < after.paths@.len() implies (
        #[trigger] after.paths@[i]).unchanged(disk) by {
            let mark = after.paths@[i].mark();
            assert(marks(after.paths@)[i] == mark);
            assert(list.contains(mark));
            let k = choose|k: int| 0 <= k < list.len() && list[k] == mark;
            assert(parts.1.contains(list[k]));
        }
    }
}

} // verus!
