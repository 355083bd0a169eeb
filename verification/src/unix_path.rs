//! Unix paths as byte strings: components, prefixes, parents and joining.

use vstd::prelude::*;
use vstd::slice::slice_subrange;

use crate::bytes::bytes_before;
use crate::bytes::bytes_contain;
use crate::bytes::bytes_equal;
use crate::bytes::bytes_less;
use crate::bytes::copy_bytes;
use crate::bytes::optional;
use crate::bytes::push_bytes;

verus! {

/// The separator between path components.
pub const SEPARATOR: u8 = 0x2f;

/// The byte of `.`.
pub const DOT: u8 = 0x2e;

/// The contents of a list of byte strings.
pub open spec fn byte_strings(list: Seq<Vec<u8>>) -> Seq<Seq<u8>> {
    Seq::new(list.len(), |i: int| list[i]@)
}

/// The position of the first `byte` in `bytes`, or the length of `bytes`.
pub open spec fn first_byte(bytes: Seq<u8>, byte: u8) -> int
    decreases bytes.len(),
{
    if bytes.len() == 0 || bytes[0] == byte {
        0
    } else {
        1 + first_byte(bytes.drop_first(), byte)
    }
}

/// What holds of `first_byte`.
pub proof fn lemma_first_byte(bytes: Seq<u8>, byte: u8)
    ensures
        0 <= first_byte(bytes, byte) <= bytes.len(),
        forall|k: int| 0 <= k < first_byte(bytes, byte) ==> bytes[k] != byte,
        first_byte(bytes, byte) < bytes.len() ==> bytes[first_byte(bytes, byte)] == byte,
    decreases bytes.len(),
{
    if bytes.len() > 0 && bytes[0] != byte {
        let rest = bytes.drop_first();
        lemma_first_byte(rest, byte);
        assert forall|k: int| 0 <= k < first_byte(bytes, byte) implies bytes[k] != byte by {
            if k > 0 {
                assert(rest[k - 1] == bytes[k]);
            }
        }
    }
}

/// The properties of `first_byte` determine it.
pub proof fn lemma_first_byte_unique(bytes: Seq<u8>, byte: u8, at: int)
    requires
        0 <= at <= bytes.len(),
        forall|k: int| 0 <= k < at ==> bytes[k] != byte,
        at < bytes.len() ==> bytes[at] == byte,
    ensures
        first_byte(bytes, byte) == at,
{
    lemma_first_byte(bytes, byte);
    let found = first_byte(bytes, byte);
    if found < at {
        assert(bytes[found] != byte);
    }
    if at < found {
        assert(bytes[at] != byte);
    }
}

/// The position of the first `byte` in `bytes`, or the length of `bytes`.
pub fn find_first_byte(bytes: &[u8], byte: u8) -> (at: usize)
    ensures
        at == first_byte(bytes@, byte),
        at <= bytes@.len(),
{
    let mut index: usize = 0;
    while index < bytes.len()
        invariant
            index <= bytes@.len(),
            forall|k: int| 0 <= k < index ==> bytes@[k] != byte,
        decreases bytes@.len() - index,
    {
        if bytes[index] == byte {
            proof {
                lemma_first_byte_unique(bytes@, byte, index as int);
            }
            return index;
        }
        index = index + 1;
    }
    proof {
        lemma_first_byte_unique(bytes@, byte, index as int);
    }
    index
}

/// The position of the last `byte` in `bytes`, or `-1`.
pub open spec fn last_byte(bytes: Seq<u8>, byte: u8) -> int
    decreases bytes.len(),
{
    if bytes.len() == 0 {
        -1
    } else if bytes.last() == byte {
        bytes.len() - 1
    } else {
        last_byte(bytes.drop_last(), byte)
    }
}

/// One more than the position of the last `byte` in `bytes`, or zero.
pub fn find_after_last_byte(bytes: &[u8], byte: u8) -> (at: usize)
    ensures
        at == last_byte(bytes@, byte) + 1,
        at <= bytes@.len(),
        at > 0 ==> bytes@[at - 1] == byte,
        forall|k: int| at <= k < bytes@.len() ==> bytes@[k] != byte,
{
    let mut end: usize = bytes.len();
    proof {
        assert(bytes@.take(end as int) =~= bytes@);
    }
    while end > 0
        invariant
            end <= bytes@.len(),
            last_byte(bytes@, byte) == last_byte(bytes@.take(end as int), byte),
            forall|k: int| end <= k < bytes@.len() ==> bytes@[k] != byte,
        decreases end,
    {
        if bytes[end - 1] == byte {
            proof {
                assert(bytes@.take(end as int).last() == byte);
            }
            return end;
        }
        proof {
            assert(bytes@.take(end as int).drop_last() =~= bytes@.take(end - 1));
        }
        end = end - 1;
    }
    0
}

/// The bounds of `last_byte`.
pub proof fn lemma_last_byte(bytes: Seq<u8>, byte: u8)
    ensures
        -1 <= last_byte(bytes, byte) < bytes.len(),
        last_byte(bytes, byte) >= 0 ==> bytes[last_byte(bytes, byte)] == byte,
    decreases bytes.len(),
{
    if bytes.len() > 0 && bytes.last() != byte {
        lemma_last_byte(bytes.drop_last(), byte);
    }
}

/// Whether a piece between separators names nothing: it is empty or `.`.
pub open spec fn is_silent(piece: Seq<u8>) -> bool {
    piece.len() == 0 || piece == seq![DOT]
}

/// Whether a piece between separators names nothing.
fn piece_is_silent(piece: &[u8]) -> (silent: bool)
    ensures
        silent == is_silent(piece@),
{
    if piece.len() == 1 && piece[0] == DOT {
        proof {
            assert(piece@ =~= seq![DOT]);
        }
    }
    piece.len() == 0 || (piece.len() == 1 && piece[0] == DOT)
}

/// Whether a path starts at the root.
pub open spec fn is_absolute(path: Seq<u8>) -> bool {
    path.len() > 0 && path[0] == SEPARATOR
}

/// Whether a path starts at the root.
pub fn path_is_absolute(path: &[u8]) -> (absolute: bool)
    ensures
        absolute == is_absolute(path@),
{
    path.len() > 0 && path[0] == SEPARATOR
}

/// The path after its first piece and the separator behind it.
pub open spec fn after_piece(path: Seq<u8>) -> Seq<u8> {
    let end = first_byte(path, SEPARATOR);
    if end < path.len() {
        path.skip(end + 1)
    } else {
        path.skip(path.len() as int)
    }
}

/// The first piece of a path.
pub open spec fn first_piece(path: Seq<u8>) -> Seq<u8> {
    path.take(first_byte(path, SEPARATOR))
}

/// The pieces of a path that name something.
pub open spec fn names(path: Seq<u8>) -> Seq<Seq<u8>>
    decreases path.len(),
    via names_terminates
{
    if path.len() == 0 {
        Seq::empty()
    } else if is_silent(first_piece(path)) {
        names(after_piece(path))
    } else {
        seq![first_piece(path)] + names(after_piece(path))
    }
}

#[via_fn]
proof fn names_terminates(path: Seq<u8>) {
    lemma_first_byte(path, SEPARATOR);
}

/// Whether a path starts with a `.` component of its own.
pub open spec fn starts_at_dot(path: Seq<u8>) -> bool {
    first_piece(path) == seq![DOT]
}

/// The components of a path. The root is the component `/`; a leading `.` is
/// a component; other `.` pieces, and empty ones, are not.
pub open spec fn components(path: Seq<u8>) -> Seq<Seq<u8>> {
    if is_absolute(path) {
        seq![seq![SEPARATOR]] + names(path)
    } else if starts_at_dot(path) {
        seq![seq![DOT]] + names(path)
    } else {
        names(path)
    }
}

/// Whether two paths have the same components.
pub open spec fn same_path(left: Seq<u8>, right: Seq<u8>) -> bool {
    components(left) == components(right)
}

/// Whether the components of `base` begin those of `path`.
pub open spec fn path_starts_with(path: Seq<u8>, base: Seq<u8>) -> bool {
    components(base).is_prefix_of(components(path))
}

/// The first piece of a path, and the path after it.
fn split_piece(path: &[u8]) -> (parts: (&[u8], &[u8]))
    requires
        path@.len() > 0,
    ensures
        parts.0@ == first_piece(path@),
        parts.1@ == after_piece(path@),
        parts.1@.len() < path@.len(),
{
    let end: usize = find_first_byte(path, SEPARATOR);
    let piece = slice_subrange(path, 0, end);
    let rest = if end < path.len() {
        slice_subrange(path, end + 1, path.len())
    } else {
        slice_subrange(path, path.len(), path.len())
    };
    proof {
        assert(piece@ =~= first_piece(path@));
        assert(rest@ =~= after_piece(path@));
    }
    (piece, rest)
}

/// The components of a path.
pub fn path_components(path: &[u8]) -> (list: Vec<Vec<u8>>)
    ensures
        byte_strings(list@) == components(path@),
{
    let mut list: Vec<Vec<u8>> = Vec::new();
    if path.len() == 0 {
        proof {
            lemma_first_byte(path@, SEPARATOR);
            assert(first_piece(path@).len() == 0);
            assert(seq![DOT].len() == 1);
            assert(byte_strings(list@) =~= components(path@));
        }
        return list;
    }
    let head = split_piece(path);
    if path[0] == SEPARATOR {
        let root: Vec<u8> = vec![SEPARATOR];
        proof {
            assert(root@ =~= seq![SEPARATOR]);
        }
        list.push(root);
    } else if head.0.len() == 1 && head.0[0] == DOT {
        let dot: Vec<u8> = vec![DOT];
        proof {
            assert(dot@ =~= seq![DOT]);
            assert(head.0@ =~= seq![DOT]);
        }
        list.push(dot);
    }
    proof {
        if starts_at_dot(path@) {
            assert(head.0@.len() == 1 && head.0@[0] == DOT);
        }
    }
    let mut rest: &[u8] = path;
    proof {
        assert(byte_strings(list@) + names(path@) =~= components(path@));
    }
    while rest.len() > 0
        invariant
            byte_strings(list@) + names(rest@) == components(path@),
        decreases rest@.len(),
    {
        let ghost before = list@;
        let parts = split_piece(rest);
        if !piece_is_silent(parts.0) {
            list.push(copy_bytes(parts.0));
            proof {
                assert(byte_strings(list@) =~= byte_strings(before) + seq![parts.0@]);
                assert(byte_strings(list@) + names(parts.1@) =~= byte_strings(before) + (seq![
                    parts.0@,
                ] + names(parts.1@)));
            }
        }
        rest = parts.1;
    }
    proof {
        assert(byte_strings(list@) + names(rest@) =~= byte_strings(list@));
    }
    list
}

/// Whether the lists hold the same byte strings up to `length`.
fn lists_agree(left: &Vec<Vec<u8>>, right: &Vec<Vec<u8>>, length: usize) -> (agree: bool)
    requires
        length <= left@.len(),
        length <= right@.len(),
    ensures
        agree == (byte_strings(left@).take(length as int) == byte_strings(right@).take(
            length as int,
        )),
{
    let mut index: usize = 0;
    while index < length
        invariant
            index <= length <= left@.len(),
            length <= right@.len(),
            forall|k: int| 0 <= k < index ==> left@[k]@ == right@[k]@,
        decreases length - index,
    {
        if !bytes_equal(left[index].as_slice(), right[index].as_slice()) {
            proof {
                assert(byte_strings(left@).take(length as int)[index as int] == left@[index as int]@);
                assert(byte_strings(right@).take(length as int)[index as int]
                    == right@[index as int]@);
            }
            return false;
        }
        index = index + 1;
    }
    proof {
        assert(byte_strings(left@).take(length as int) =~= byte_strings(right@).take(
            length as int,
        ));
    }
    true
}

/// Whether two paths have the same components.
pub fn paths_equal(left: &[u8], right: &[u8]) -> (equal: bool)
    ensures
        equal == same_path(left@, right@),
{
    let left_list = path_components(left);
    let right_list = path_components(right);
    proof {
        assert(byte_strings(left_list@).take(left_list@.len() as int) =~= components(left@));
        assert(byte_strings(right_list@).take(right_list@.len() as int) =~= components(right@));
        assert(components(left@).len() == left_list@.len());
        assert(components(right@).len() == right_list@.len());
    }
    left_list.len() == right_list.len() && lists_agree(&left_list, &right_list, left_list.len())
}

/// Whether the components of `base` begin those of `path`.
pub fn path_has_prefix(path: &[u8], base: &[u8]) -> (found: bool)
    ensures
        found == path_starts_with(path@, base@),
{
    let list = path_components(path);
    let base_list = path_components(base);
    proof {
        assert(byte_strings(base_list@).take(base_list@.len() as int) =~= components(base@));
        assert(components(base@).len() == base_list@.len());
        assert(components(path@).len() == list@.len());
        if base_list@.len() <= list@.len() {
            assert(components(path@).subrange(0, base_list@.len() as int) =~= byte_strings(
                list@,
            ).take(base_list@.len() as int));
        }
    }
    base_list.len() <= list.len() && lists_agree(&base_list, &list, base_list.len())
}

/// A path without the silent pieces at its start.
pub open spec fn trim_front(path: Seq<u8>) -> Seq<u8>
    decreases path.len(),
    via trim_front_terminates
{
    if path.len() > 0 && is_silent(first_piece(path)) {
        trim_front(after_piece(path))
    } else {
        path
    }
}

#[via_fn]
proof fn trim_front_terminates(path: Seq<u8>) {
    lemma_first_byte(path, SEPARATOR);
}

/// The length of what stands before the body of a path: its root, or its
/// leading `.`.
pub open spec fn before_body(path: Seq<u8>) -> int {
    if is_absolute(path) || starts_at_dot(path) {
        1
    } else {
        0
    }
}

/// The start of the last piece of a path behind `floor`.
pub open spec fn last_piece_start(path: Seq<u8>, floor: int) -> int {
    floor + last_byte(path.skip(floor), SEPARATOR) + 1
}

/// A path without its last piece behind `floor` and the separator before it.
pub open spec fn without_last_piece(path: Seq<u8>, floor: int) -> Seq<u8> {
    let start = last_piece_start(path, floor);
    if start > floor {
        path.take(start - 1)
    } else {
        path.take(floor)
    }
}

/// A path without the silent pieces at its end, down to length `floor`.
pub open spec fn trim_back(path: Seq<u8>, floor: int) -> Seq<u8>
    decreases path.len(),
    via trim_back_terminates
{
    if 0 <= floor < path.len() && is_silent(path.skip(last_piece_start(path, floor))) {
        trim_back(without_last_piece(path, floor), floor)
    } else {
        path
    }
}

#[via_fn]
proof fn trim_back_terminates(path: Seq<u8>, floor: int) {
    if 0 <= floor < path.len() {
        lemma_last_byte(path.skip(floor), SEPARATOR);
    }
}

/// The body of a path behind `count` of its named pieces.
pub open spec fn skip_names(body: Seq<u8>, count: int) -> Seq<u8>
    decreases count,
{
    if count <= 0 {
        trim_front(body)
    } else {
        skip_names(after_piece(trim_front(body)), count - 1)
    }
}

/// The path below its first `count` components.
pub open spec fn below_components(path: Seq<u8>, count: int) -> Seq<u8> {
    if count == 0 {
        trim_back(path, before_body(path))
    } else if before_body(path) == 1 {
        trim_back(skip_names(path.skip(1), count - 1), 0)
    } else {
        trim_back(skip_names(path, count), 0)
    }
}

/// The path below `base`, where `path` starts with it.
pub open spec fn path_below(path: Seq<u8>, base: Seq<u8>) -> Option<Seq<u8>> {
    if path_starts_with(path, base) {
        Some(below_components(path, components(base).len() as int))
    } else {
        None
    }
}

/// A path without the silent pieces at its start.
fn trim_path_front(path: &[u8]) -> (rest: &[u8])
    ensures
        rest@ == trim_front(path@),
        rest@.len() <= path@.len(),
    decreases path@.len(),
{
    if path.len() == 0 {
        return path;
    }
    let parts = split_piece(path);
    if piece_is_silent(parts.0) {
        trim_path_front(parts.1)
    } else {
        path
    }
}

/// The start of the last piece of a path behind `floor`.
fn find_last_piece(path: &[u8], floor: usize) -> (start: usize)
    requires
        floor <= path@.len(),
    ensures
        start == last_piece_start(path@, floor as int),
        floor <= start <= path@.len(),
{
    let tail = slice_subrange(path, floor, path.len());
    proof {
        assert(tail@ =~= path@.skip(floor as int));
    }
    floor + find_after_last_byte(tail, SEPARATOR)
}

/// A path without its last piece behind `floor` and the separator before it.
fn drop_last_piece(path: &[u8], floor: usize) -> (rest: &[u8])
    requires
        floor < path@.len(),
    ensures
        rest@ == without_last_piece(path@, floor as int),
        floor <= rest@.len() < path@.len(),
{
    let start: usize = find_last_piece(path, floor);
    proof {
        lemma_last_byte(path@.skip(floor as int), SEPARATOR);
    }
    let rest = if start > floor {
        slice_subrange(path, 0, start - 1)
    } else {
        slice_subrange(path, 0, floor)
    };
    proof {
        assert(rest@ =~= without_last_piece(path@, floor as int));
    }
    rest
}

/// A path without the silent pieces at its end, down to length `floor`.
fn trim_path_back(path: &[u8], floor: usize) -> (rest: &[u8])
    requires
        floor <= path@.len(),
    ensures
        rest@ == trim_back(path@, floor as int),
        floor <= rest@.len() <= path@.len(),
    decreases path@.len(),
{
    if floor == path.len() {
        return path;
    }
    let start: usize = find_last_piece(path, floor);
    let piece = slice_subrange(path, start, path.len());
    proof {
        assert(piece@ =~= path@.skip(start as int));
    }
    if piece_is_silent(piece) {
        trim_path_back(drop_last_piece(path, floor), floor)
    } else {
        path
    }
}

/// The length of what stands before the body of a path.
fn find_body(path: &[u8]) -> (length: usize)
    ensures
        length == before_body(path@),
        length <= path@.len(),
{
    if path.len() == 0 {
        proof {
            lemma_first_byte(path@, SEPARATOR);
            assert(first_piece(path@).len() == 0);
            assert(seq![DOT].len() == 1);
        }
        return 0;
    }
    let parts = split_piece(path);
    let dot = parts.0.len() == 1 && parts.0[0] == DOT;
    proof {
        if dot {
            assert(parts.0@ =~= seq![DOT]);
        }
        if starts_at_dot(path@) {
            assert(parts.0@.len() == 1 && parts.0@[0] == DOT);
        }
    }
    if path[0] == SEPARATOR || dot {
        1
    } else {
        0
    }
}

/// The body of a path behind `count` of its named pieces.
fn skip_path_names(body: &[u8], count: usize) -> (rest: &[u8])
    ensures
        rest@ == skip_names(body@, count as int),
    decreases count,
{
    let trimmed = trim_path_front(body);
    if count == 0 {
        return trimmed;
    }
    if trimmed.len() == 0 {
        proof {
            lemma_first_byte(trimmed@, SEPARATOR);
            assert(after_piece(trimmed@) =~= trimmed@);
        }
        return skip_path_names(trimmed, count - 1);
    }
    let parts = split_piece(trimmed);
    skip_path_names(parts.1, count - 1)
}

/// The path below `base`, where `path` starts with it.
pub fn strip_path_prefix(path: &[u8], base: &[u8]) -> (below: Option<Vec<u8>>)
    ensures
        match below {
            Some(below) => path_below(path@, base@) == Some(below@),
            None => path_below(path@, base@) is None,
        },
{
    if !path_has_prefix(path, base) {
        return None;
    }
    let list = path_components(base);
    let count: usize = list.len();
    proof {
        assert(components(base@).len() == list@.len());
    }
    let floor: usize = find_body(path);
    if count == 0 {
        return Some(copy_bytes(trim_path_back(path, floor)));
    }
    if floor == 1 {
        let body = slice_subrange(path, 1, path.len());
        proof {
            assert(body@ =~= path@.skip(1));
        }
        return Some(copy_bytes(trim_path_back(skip_path_names(body, count - 1), 0)));
    }
    Some(copy_bytes(trim_path_back(skip_path_names(path, count), 0)))
}

/// The last component of a path, where it is a name: not the root, `.` or
/// `..`.
pub open spec fn file_name(path: Seq<u8>) -> Option<Seq<u8>> {
    let list = components(path);
    if list.len() > 0 && list.last() != seq![SEPARATOR] && list.last() != seq![DOT] && list.last()
        != seq![DOT, DOT] {
        Some(list.last())
    } else {
        None
    }
}

/// The last component of a path, where it is a name.
pub fn path_file_name(path: &[u8]) -> (name: Option<Vec<u8>>)
    ensures
        match name {
            Some(name) => file_name(path@) == Some(name@),
            None => file_name(path@) is None,
        },
{
    let list = path_components(path);
    proof {
        assert(components(path@).len() == list@.len());
    }
    if list.len() == 0 {
        return None;
    }
    let last = list[list.len() - 1].as_slice();
    proof {
        assert(components(path@).last() == byte_strings(list@)[list@.len() - 1]);
        assert(last@ == components(path@).last());
    }
    let root: [u8; 1] = [SEPARATOR];
    let dot: [u8; 1] = [DOT];
    let parent: [u8; 2] = [DOT, DOT];
    proof {
        assert(root@ =~= seq![SEPARATOR]);
        assert(dot@ =~= seq![DOT]);
        assert(parent@ =~= seq![DOT, DOT]);
    }
    if bytes_equal(last, &root) || bytes_equal(last, &dot) || bytes_equal(last, &parent) {
        None
    } else {
        Some(copy_bytes(last))
    }
}

/// The path above the last component, where there is a component other than
/// the root.
pub open spec fn parent(path: Seq<u8>) -> Option<Seq<u8>> {
    let floor = before_body(path);
    let whole = trim_back(path, floor);
    if whole.len() > floor {
        Some(trim_back(without_last_piece(whole, floor), floor))
    } else if floor == 1 && !is_absolute(path) {
        Some(Seq::empty())
    } else {
        None
    }
}

/// The path above the last component.
pub fn path_parent(path: &[u8]) -> (above: Option<Vec<u8>>)
    ensures
        match above {
            Some(above) => parent(path@) == Some(above@),
            None => parent(path@) is None,
        },
{
    let floor: usize = find_body(path);
    let whole = trim_path_back(path, floor);
    if whole.len() > floor {
        Some(copy_bytes(trim_path_back(drop_last_piece(whole, floor), floor)))
    } else if floor == 1 && !path_is_absolute(path) {
        let empty: Vec<u8> = Vec::new();
        Some(empty)
    } else {
        None
    }
}

/// The path above the last component, or the path itself where there is none.
pub open spec fn parent_or_self(path: Seq<u8>) -> Seq<u8> {
    match parent(path) {
        Some(above) => above,
        None => path,
    }
}

/// The path above the last component, or the path itself where there is none.
pub fn path_parent_or_self(path: &[u8]) -> (above: Vec<u8>)
    ensures
        above@ == parent_or_self(path@),
{
    match path_parent(path) {
        Some(above) => above,
        None => copy_bytes(path),
    }
}

/// `path` taken relative to `base`: an absolute path stands for itself.
pub open spec fn joined(base: Seq<u8>, path: Seq<u8>) -> Seq<u8> {
    if is_absolute(path) {
        path
    } else if base.len() > 0 && base.last() != SEPARATOR {
        base.push(SEPARATOR) + path
    } else {
        base + path
    }
}

/// `path` taken relative to `base`.
pub fn join_path(base: &[u8], path: &[u8]) -> (result: Vec<u8>)
    ensures
        result@ == joined(base@, path@),
{
    if path_is_absolute(path) {
        return copy_bytes(path);
    }
    let mut result = copy_bytes(base);
    if base.len() > 0 && base[base.len() - 1] != SEPARATOR {
        result.push(SEPARATOR);
    }
    push_bytes(&mut result, path);
    result
}

/// The part of a file name behind its last dot, where something stands before
/// that dot.
pub open spec fn extension(path: Seq<u8>) -> Option<Seq<u8>> {
    match file_name(path) {
        Some(name) => {
            let at = last_byte(name, DOT);
            if at > 0 {
                Some(name.skip(at + 1))
            } else {
                None
            }
        },
        None => None,
    }
}

/// The part of a file name behind its last dot.
pub fn path_extension(path: &[u8]) -> (ext: Option<Vec<u8>>)
    ensures
        match ext {
            Some(ext) => extension(path@) == Some(ext@),
            None => extension(path@) is None,
        },
{
    match path_file_name(path) {
        Some(name) => {
            let after: usize = find_after_last_byte(name.as_slice(), DOT);
            if after > 1 {
                let tail = slice_subrange(name.as_slice(), after, name.len());
                proof {
                    assert(tail@ =~= name@.skip(after as int));
                }
                Some(copy_bytes(tail))
            } else {
                None
            }
        },
        None => None,
    }
}

/// The place of a component among the kinds: the root, `.`, `..`, names.
pub open spec fn component_kind(component: Seq<u8>) -> int {
    if component == seq![SEPARATOR] {
        0
    } else if component == seq![DOT] {
        1
    } else if component == seq![DOT, DOT] {
        2
    } else {
        3
    }
}

/// The order of components: by kind, names by their bytes.
pub open spec fn component_less(left: Seq<u8>, right: Seq<u8>) -> bool {
    component_kind(left) < component_kind(right) || (component_kind(left) == 3 && component_kind(
        right,
    ) == 3 && bytes_less(left, right))
}

/// The order of component lists: the first difference decides.
pub open spec fn list_less(left: Seq<Seq<u8>>, right: Seq<Seq<u8>>) -> bool
    decreases left.len(),
{
    if right.len() == 0 {
        false
    } else if left.len() == 0 {
        true
    } else if left[0] != right[0] {
        component_less(left[0], right[0])
    } else {
        list_less(left.drop_first(), right.drop_first())
    }
}

/// The order of paths: component by component.
pub open spec fn path_less(left: Seq<u8>, right: Seq<u8>) -> bool {
    list_less(components(left), components(right))
}

/// The place of a component among the kinds.
fn find_component_kind(component: &[u8]) -> (kind: u8)
    ensures
        kind == component_kind(component@),
{
    let root: [u8; 1] = [SEPARATOR];
    let dot: [u8; 1] = [DOT];
    let above: [u8; 2] = [DOT, DOT];
    proof {
        assert(root@ =~= seq![SEPARATOR]);
        assert(dot@ =~= seq![DOT]);
        assert(above@ =~= seq![DOT, DOT]);
    }
    if bytes_equal(component, &root) {
        0
    } else if bytes_equal(component, &dot) {
        1
    } else if bytes_equal(component, &above) {
        2
    } else {
        3
    }
}

/// Whether `left` comes before `right` in the order of paths.
pub fn path_before(left: &[u8], right: &[u8]) -> (less: bool)
    ensures
        less == path_less(left@, right@),
{
    let left_list = path_components(left);
    let right_list = path_components(right);
    let ghost ls = components(left@);
    let ghost rs = components(right@);
    let mut index: usize = 0;
    proof {
        assert(ls.len() == left_list@.len());
        assert(rs.len() == right_list@.len());
        assert(ls.skip(0) =~= ls);
        assert(rs.skip(0) =~= rs);
    }
    while index < left_list.len() && index < right_list.len()
        invariant
            index <= left_list@.len(),
            index <= right_list@.len(),
            ls == byte_strings(left_list@),
            rs == byte_strings(right_list@),
            ls == components(left@),
            rs == components(right@),
            list_less(ls, rs) == list_less(ls.skip(index as int), rs.skip(index as int)),
        decreases left_list@.len() - index,
    {
        let a = left_list[index].as_slice();
        let b = right_list[index].as_slice();
        proof {
            assert(ls.skip(index as int)[0] == a@);
            assert(rs.skip(index as int)[0] == b@);
            assert(ls.skip(index as int).drop_first() =~= ls.skip(index + 1));
            assert(rs.skip(index as int).drop_first() =~= rs.skip(index + 1));
        }
        if !bytes_equal(a, b) {
            let left_kind: u8 = find_component_kind(a);
            let right_kind: u8 = find_component_kind(b);
            return left_kind < right_kind || (left_kind == 3 && right_kind == 3 && bytes_before(
                a,
                b,
            ));
        }
        index = index + 1;
    }
    proof {
        assert(ls.skip(index as int).len() == ls.len() - index);
        assert(rs.skip(index as int).len() == rs.len() - index);
    }
    index < right_list.len()
}

/// `bytes` cut at every `separator`; the separators are dropped.
pub open spec fn split_all(bytes: Seq<u8>, separator: u8) -> Seq<Seq<u8>>
    decreases bytes.len(),
    via split_all_terminates
{
    let at = first_byte(bytes, separator);
    if 0 <= at < bytes.len() {
        seq![bytes.take(at)] + split_all(bytes.skip(at + 1), separator)
    } else {
        seq![bytes]
    }
}

#[via_fn]
proof fn split_all_terminates(bytes: Seq<u8>, separator: u8) {
}

/// The byte between the paths of a search path.
pub const PATH_LIST_SEPARATOR: u8 = 0x3a;

/// The paths of a search path.
pub fn split_path_list(list: &[u8]) -> (paths: Vec<Vec<u8>>)
    ensures
        byte_strings(paths@) == split_all(list@, PATH_LIST_SEPARATOR),
{
    let mut paths: Vec<Vec<u8>> = Vec::new();
    let mut rest: &[u8] = list;
    proof {
        assert(byte_strings(paths@) + split_all(list@, PATH_LIST_SEPARATOR) =~= split_all(
            list@,
            PATH_LIST_SEPARATOR,
        ));
    }
    loop
        invariant
            byte_strings(paths@) + split_all(rest@, PATH_LIST_SEPARATOR) == split_all(
                list@,
                PATH_LIST_SEPARATOR,
            ),
        decreases rest@.len(),
    {
        let ghost before = paths@;
        let at: usize = find_first_byte(rest, PATH_LIST_SEPARATOR);
        let head = slice_subrange(rest, 0, at);
        paths.push(copy_bytes(head));
        proof {
            assert(byte_strings(paths@) =~= byte_strings(before) + seq![head@]);
        }
        if at == rest.len() {
            proof {
                assert(head@ =~= rest@);
            }
            return paths;
        }
        let tail = slice_subrange(rest, at + 1, rest.len());
        proof {
            assert(tail@ =~= rest@.skip(at + 1));
            assert(head@ =~= rest@.take(at as int));
            assert(byte_strings(paths@) + split_all(tail@, PATH_LIST_SEPARATOR) =~= byte_strings(
                before,
            ) + (seq![head@] + split_all(tail@, PATH_LIST_SEPARATOR)));
        }
        rest = tail;
    }
}

/// The paths with the separator between them.
pub open spec fn joined_list(paths: Seq<Seq<u8>>) -> Seq<u8>
    decreases paths.len(),
{
    if paths.len() == 0 {
        Seq::empty()
    } else if paths.len() == 1 {
        paths[0]
    } else {
        joined_list(paths.drop_last()).push(PATH_LIST_SEPARATOR) + paths.last()
    }
}

/// The search path made of `paths`, where none of them holds the separator.
pub open spec fn path_list(paths: Seq<Seq<u8>>) -> Option<Seq<u8>> {
    if forall|i: int| 0 <= i < paths.len() ==> !(#[trigger] paths[i]).contains(PATH_LIST_SEPARATOR) {
        Some(joined_list(paths))
    } else {
        None
    }
}

/// The search path made of `paths`, where none of them holds the separator.
pub fn join_path_list(paths: &Vec<Vec<u8>>) -> (list: Option<Vec<u8>>)
    ensures
        optional(list) == path_list(byte_strings(paths@)),
{
    let ghost all = byte_strings(paths@);
    let mut list: Vec<u8> = Vec::new();
    let mut index: usize = 0;
    proof {
        assert(joined_list(all.take(0)) =~= Seq::empty());
    }
    while index < paths.len()
        invariant
            index <= paths@.len(),
            all == byte_strings(paths@),
            forall|i: int|
                0 <= i < index ==> !(#[trigger] all[i]).contains(PATH_LIST_SEPARATOR),
            list@ == joined_list(all.take(index as int)),
        decreases paths@.len() - index,
    {
        let path = paths[index].as_slice();
        proof {
            assert(all[index as int] == path@);
            assert(all.take(index + 1).drop_last() =~= all.take(index as int));
            assert(all.take(index + 1).last() == path@);
        }
        if bytes_contain(path, PATH_LIST_SEPARATOR) {
            return None;
        }
        if index > 0 {
            list.push(PATH_LIST_SEPARATOR);
        }
        push_bytes(&mut list, path);
        proof {
            if index == 0 {
                assert(list@ =~= all.take(1)[0]);
            }
        }
        index = index + 1;
    }
    proof {
        assert(all.take(index as int) =~= all);
    }
    Some(list)
}

/// No path of a split list holds the separator.
pub proof fn lemma_split_all_pieces(bytes: Seq<u8>, separator: u8)
    ensures
        split_all(bytes, separator).len() > 0,
        forall|i: int|
            0 <= i < split_all(bytes, separator).len() ==> !(#[trigger] split_all(
                bytes,
                separator,
            )[i]).contains(separator),
    decreases bytes.len(),
{
    lemma_first_byte(bytes, separator);
    let at = first_byte(bytes, separator);
    let pieces = split_all(bytes, separator);
    if at < bytes.len() {
        lemma_split_all_pieces(bytes.skip(at + 1), separator);
        let tail = split_all(bytes.skip(at + 1), separator);
        assert forall|i: int| 0 <= i < pieces.len() implies !(#[trigger] pieces[i]).contains(
            separator,
        ) by {
            if i > 0 {
                assert(pieces[i] == tail[i - 1]);
            }
        }
    }
}

/// Splitting a search path and joining its paths gives the search path back.
pub proof fn law_path_list_round_trip(list: Seq<u8>)
    ensures
        path_list(split_all(list, PATH_LIST_SEPARATOR)) == Some(list),
{
    lemma_split_all_pieces(list, PATH_LIST_SEPARATOR);
    lemma_joined_split(list);
}

/// Joining in front: the first path, a separator, the rest.
proof fn lemma_joined_front(head: Seq<u8>, paths: Seq<Seq<u8>>)
    requires
        paths.len() > 0,
    ensures
        joined_list(seq![head] + paths) == head.push(PATH_LIST_SEPARATOR) + joined_list(paths),
    decreases paths.len(),
{
    let all = seq![head] + paths;
    assert(all.last() == paths.last());
    if paths.len() == 1 {
        assert(all.drop_last() =~= seq![head]);
        assert(joined_list(seq![head]) == head);
        assert(paths.last() == paths[0]);
    } else {
        lemma_joined_front(head, paths.drop_last());
        assert(all.drop_last() =~= seq![head] + paths.drop_last());
        assert((head.push(PATH_LIST_SEPARATOR) + joined_list(paths.drop_last())).push(
            PATH_LIST_SEPARATOR,
        ) + paths.last() =~= head.push(PATH_LIST_SEPARATOR) + (joined_list(paths.drop_last()).push(
            PATH_LIST_SEPARATOR,
        ) + paths.last()));
    }
}

/// Joining the pieces of a list gives the list back.
proof fn lemma_joined_split(list: Seq<u8>)
    ensures
        joined_list(split_all(list, PATH_LIST_SEPARATOR)) == list,
    decreases list.len(),
{
    lemma_first_byte(list, PATH_LIST_SEPARATOR);
    let at = first_byte(list, PATH_LIST_SEPARATOR);
    if at < list.len() {
        let tail = list.skip(at + 1);
        lemma_joined_split(tail);
        lemma_split_all_pieces(tail, PATH_LIST_SEPARATOR);
        lemma_joined_front(list.take(at), split_all(tail, PATH_LIST_SEPARATOR));
        assert(list.take(at).push(PATH_LIST_SEPARATOR) + tail =~= list);
    }
}

} // verus!
