//! How components behave under joining and taking paths apart.

use vstd::prelude::*;

use crate::unix_path::after_piece;
use crate::unix_path::before_body;
use crate::unix_path::below_components;
use crate::unix_path::components;
use crate::unix_path::extension;
use crate::unix_path::file_name;
use crate::unix_path::first_byte;
use crate::unix_path::first_piece;
use crate::unix_path::is_absolute;
use crate::unix_path::is_silent;
use crate::unix_path::joined;
use crate::unix_path::last_byte;
use crate::unix_path::last_piece_start;
use crate::unix_path::lemma_first_byte;
use crate::unix_path::lemma_first_byte_unique;
use crate::unix_path::lemma_last_byte;
use crate::unix_path::names;
use crate::unix_path::parent;
use crate::unix_path::path_below;
use crate::unix_path::skip_names;
use crate::unix_path::starts_at_dot;
use crate::unix_path::trim_back;
use crate::unix_path::trim_front;
use crate::unix_path::without_last_piece;
use crate::unix_path::DOT;
use crate::unix_path::SEPARATOR;

verus! {

/// The named pieces on both sides of a separator.
pub proof fn lemma_names_concat(front: Seq<u8>, back: Seq<u8>)
    ensures
        names(front.push(SEPARATOR) + back) == names(front) + names(back),
    decreases front.len(),
{
    let path = front.push(SEPARATOR) + back;
    let end = first_byte(front, SEPARATOR);
    lemma_first_byte(front, SEPARATOR);
    assert forall|k: int| 0 <= k < end implies path[k] != SEPARATOR by {
        assert(path[k] == front[k]);
    }
    lemma_first_byte_unique(path, SEPARATOR, end);
    assert(first_piece(path) =~= first_piece(front));
    if end < front.len() {
        let rest = front.skip(end + 1);
        lemma_names_concat(rest, back);
        assert(after_piece(path) =~= rest.push(SEPARATOR) + back);
        assert(names(path) =~= names(front) + names(back));
    } else {
        assert(after_piece(path) =~= back);
        if front.len() > 0 {
            assert(after_piece(front) =~= Seq::<u8>::empty());
            assert(names(after_piece(front)) =~= Seq::<Seq<u8>>::empty());
        }
        assert(names(path) =~= names(front) + names(back));
    }
}

/// No named piece holds a separator.
pub proof fn lemma_names_hold_no_separator(path: Seq<u8>)
    ensures
        forall|i: int|
            0 <= i < names(path).len() ==> !(#[trigger] names(path)[i]).contains(SEPARATOR),
    decreases path.len(),
{
    if path.len() > 0 {
        lemma_first_byte(path, SEPARATOR);
        lemma_names_hold_no_separator(after_piece(path));
        let rest = names(after_piece(path));
        assert forall|i: int| 0 <= i < names(path).len() implies !(
        #[trigger] names(path)[i]).contains(SEPARATOR) by {
            if is_silent(first_piece(path)) {
                assert(names(path)[i] == rest[i]);
            } else if i > 0 {
                assert(names(path)[i] == rest[i - 1]);
            }
        }
    }
}

/// Only absolute paths have the root as their first component.
pub proof fn lemma_root_component(path: Seq<u8>)
    requires
        components(path).len() > 0,
        components(path)[0] == seq![SEPARATOR],
    ensures
        is_absolute(path),
{
    lemma_names_hold_no_separator(path);
    if !is_absolute(path) {
        let root = seq![SEPARATOR];
        assert(root[0] == SEPARATOR);
        assert(root.contains(SEPARATOR));
        if !starts_at_dot(path) {
            assert(names(path)[0] == root);
        }
    }
}

/// Whether a path is empty or starts with a named piece.
pub open spec fn starts_with_name(path: Seq<u8>) -> bool {
    path.len() == 0 || !is_silent(first_piece(path))
}

/// Silent pieces at the start name nothing.
proof fn lemma_trim_front(path: Seq<u8>)
    ensures
        names(trim_front(path)) == names(path),
        starts_with_name(trim_front(path)),
    decreases path.len(),
{
    if path.len() > 0 && is_silent(first_piece(path)) {
        lemma_first_byte(path, SEPARATOR);
        lemma_trim_front(after_piece(path));
    }
}

/// What is left behind named pieces.
proof fn lemma_skip_names(body: Seq<u8>, count: int)
    requires
        0 <= count <= names(body).len(),
    ensures
        names(skip_names(body, count)) == names(body).skip(count),
        starts_with_name(skip_names(body, count)),
    decreases count,
{
    lemma_trim_front(body);
    let rest = trim_front(body);
    if count == 0 {
        assert(names(body).skip(0) =~= names(body));
    } else {
        assert(names(rest) == seq![first_piece(rest)] + names(after_piece(rest)));
        lemma_skip_names(after_piece(rest), count - 1);
        assert(names(body).skip(count) =~= names(after_piece(rest)).skip(count - 1));
    }
}

/// Silent pieces at the end name nothing.
proof fn lemma_trim_back(path: Seq<u8>)
    requires
        starts_with_name(path),
    ensures
        names(trim_back(path, 0)) == names(path),
        starts_with_name(trim_back(path, 0)),
    decreases path.len(),
{
    assert(path.skip(0) =~= path);
    let start = last_piece_start(path, 0);
    lemma_last_byte(path, SEPARATOR);
    let last = path.skip(start);
    if path.len() > 0 && is_silent(last) {
        lemma_after_last_byte(path);
        if start == 0 {
            assert(last =~= path);
            lemma_first_byte_unique(path, SEPARATOR, path.len() as int);
            assert(first_piece(path) =~= path);
        } else {
            let shorter = without_last_piece(path, 0);
            assert(path =~= shorter.push(SEPARATOR) + last);
            lemma_names_concat(shorter, last);
            assert(names(last) =~= Seq::<Seq<u8>>::empty()) by {
                if last.len() > 0 {
                    assert forall|k: int| 0 <= k < last.len() implies last[k] != SEPARATOR by {
                        assert(last[k] == path[start + k]);
                    }
                    lemma_first_byte_unique(last, SEPARATOR, last.len() as int);
                    assert(first_piece(last) =~= last);
                    assert(after_piece(last) =~= Seq::<u8>::empty());
                    assert(names(after_piece(last)) =~= Seq::<Seq<u8>>::empty());
                }
            }
            assert(names(path) =~= names(shorter));
            lemma_first_byte(path, SEPARATOR);
            let end = first_byte(path, SEPARATOR);
            assert(end <= start - 1);
            assert forall|k: int| 0 <= k < end implies shorter[k] != SEPARATOR by {
                assert(shorter[k] == path[k]);
            }
            lemma_first_byte_unique(shorter, SEPARATOR, end);
            assert(first_piece(shorter) =~= first_piece(path));
            lemma_trim_back(shorter);
        }
    }
}

/// Nothing behind the last separator is one.
proof fn lemma_after_last_byte(path: Seq<u8>)
    ensures
        forall|k: int| last_byte(path, SEPARATOR) < k < path.len() ==> path[k] != SEPARATOR,
    decreases path.len(),
{
    if path.len() > 0 && path.last() != SEPARATOR {
        lemma_after_last_byte(path.drop_last());
        lemma_last_byte(path, SEPARATOR);
        assert forall|k: int| last_byte(path, SEPARATOR) < k < path.len() implies path[k]
            != SEPARATOR by {
            if k < path.len() - 1 {
                assert(path.drop_last()[k] == path[k]);
            }
        }
    }
}

/// The components of a path that starts with a name.
proof fn lemma_components_from_name(path: Seq<u8>)
    requires
        starts_with_name(path),
    ensures
        components(path) == names(path),
        !is_absolute(path),
{
    lemma_first_byte(path, SEPARATOR);
    if path.len() > 0 {
        if path[0] == SEPARATOR {
            lemma_first_byte_unique(path, SEPARATOR, 0);
            assert(first_piece(path).len() == 0);
        }
    } else {
        assert(first_piece(path).len() == 0);
    }
}

/// The components of an absolute path.
proof fn lemma_absolute_components(path: Seq<u8>)
    requires
        is_absolute(path),
    ensures
        components(path) == seq![seq![SEPARATOR]] + names(path.skip(1)),
{
    lemma_first_byte_unique(path, SEPARATOR, 0);
    assert(first_piece(path).len() == 0);
    assert(after_piece(path) =~= path.skip(1));
}

/// The path below a base has the components that come behind those of the
/// base.
pub proof fn law_paths_below(path: Seq<u8>, base: Seq<u8>)
    requires
        is_absolute(base),
        path_below(path, base) is Some,
    ensures
        is_absolute(path),
        !is_absolute(path_below(path, base)->Some_0),
        components(path) == components(base) + components(path_below(path, base)->Some_0),
{
    let count = components(base).len() as int;
    let all = components(path);
    assert(all[0] == components(base)[0]);
    lemma_root_component(path);
    lemma_absolute_components(path);
    lemma_absolute_components(base);
    let body = path.skip(1);
    lemma_skip_names(body, count - 1);
    let rest = skip_names(body, count - 1);
    lemma_trim_back(rest);
    lemma_components_from_name(trim_back(rest, 0));
    assert(before_body(path) == 1);
    assert(below_components(path, count) == trim_back(rest, 0));
    assert(components(base) =~= all.take(count));
    assert(names(body).skip(count - 1) =~= all.skip(count));
    assert(all =~= components(base) + all.skip(count));
}

/// A path joined to an absolute base has the components of both.
pub proof fn law_joined_components(base: Seq<u8>, path: Seq<u8>)
    requires
        is_absolute(base),
        !is_absolute(path),
        !starts_at_dot(path),
    ensures
        is_absolute(joined(base, path)),
        components(joined(base, path)) == components(base) + components(path),
{
    let whole = joined(base, path);
    assert(whole[0] == base[0]);
    if base.last() != SEPARATOR {
        lemma_names_concat(base, path);
    } else {
        let front = base.drop_last();
        assert(base =~= front.push(SEPARATOR) + Seq::<u8>::empty());
        assert(whole =~= front.push(SEPARATOR) + path);
        lemma_names_concat(front, path);
        lemma_names_concat(front, Seq::empty());
        assert(names(Seq::<u8>::empty()) =~= Seq::<Seq<u8>>::empty());
        assert(names(base) =~= names(front));
    }
    assert(components(whole) =~= components(base) + components(path));
}

/// Whether bytes are the name of a node: they hold no separator, and are neither
/// empty nor one or two dots.
pub open spec fn is_plain_name(name: Seq<u8>) -> bool {
    &&& name.len() > 0
    &&& !name.contains(0x2f)
    &&& name != seq![0x2eu8]
    &&& name != seq![0x2eu8, 0x2eu8]
}

/// A plain name is its own only component.
proof fn lemma_plain_name(name: Seq<u8>)
    requires
        is_plain_name(name),
    ensures
        components(name) == seq![name],
        !is_absolute(name),
        !starts_at_dot(name),
{
    assert forall|k: int| 0 <= k < name.len() implies name[k] != SEPARATOR by {
        assert(name.contains(name[k]));
    }
    lemma_first_byte_unique(name, SEPARATOR, name.len() as int);
    assert(first_piece(name) =~= name);
    assert(after_piece(name) =~= Seq::<u8>::empty());
    assert(names(after_piece(name)) =~= Seq::<Seq<u8>>::empty());
    assert(names(name) =~= seq![name]);
}

/// A byte with none like it behind it is the last of its kind.
pub proof fn lemma_last_byte_at(bytes: Seq<u8>, byte: u8, at: int)
    requires
        -1 <= at < bytes.len(),
        at >= 0 ==> bytes[at] == byte,
        forall|k: int| at < k < bytes.len() ==> bytes[k] != byte,
    ensures
        last_byte(bytes, byte) == at,
    decreases bytes.len(),
{
    if bytes.len() > 0 && at < bytes.len() - 1 {
        assert(bytes[bytes.len() - 1] != byte);
        lemma_last_byte_at(bytes.drop_last(), byte, at);
    }
}

/// A node that is put below a directory has the name that it was put there under,
/// and the extension behind the last dot of that name, unless the name begins
/// with that dot or has none.
pub proof fn law_names_are_read_back(base: Seq<u8>, name: Seq<u8>, stem: Seq<u8>, ending: Seq<u8>)
    requires
        is_absolute(base),
        is_plain_name(name),
    ensures
        file_name(joined(base, name)) == Some(name),
        file_name(name) == Some(name),
        name == stem + seq![0x2eu8] + ending && !ending.contains(0x2e) ==> extension(
            joined(base, name),
        ) == if stem.len() > 0 {
            Some(ending)
        } else {
            None
        },
        !name.contains(0x2e) ==> extension(joined(base, name)) is None,
{
    lemma_plain_name(name);
    law_joined_components(base, name);
    let all = components(joined(base, name));
    assert(all.last() == name);
    assert(name != seq![SEPARATOR]) by {
        if name == seq![SEPARATOR] {
            assert(name[0] == SEPARATOR);
            assert(name.contains(SEPARATOR));
        }
    }
    assert(seq![name].last() == name);
    if name == stem + seq![0x2eu8] + ending && !ending.contains(0x2e) {
        assert forall|k: int| stem.len() < k < name.len() implies name[k] != DOT by {
            assert(name[k] == ending[k - stem.len() - 1]);
            assert(ending.contains(ending[k - stem.len() - 1]));
        }
        assert(name[stem.len() as int] == DOT);
        lemma_last_byte_at(name, DOT, stem.len() as int);
        assert(name.skip(stem.len() + 1 as int) =~= ending);
    }
    if !name.contains(0x2e) {
        assert forall|k: int| -1 < k < name.len() implies name[k] != DOT by {
            assert(name.contains(name[k]));
        }
        lemma_last_byte_at(name, DOT, -1);
    }
}

/// The directory above a node is the one that the node was put below.
pub proof fn law_parents_are_read_back(base: Seq<u8>, name: Seq<u8>)
    requires
        is_absolute(base),
        is_plain_name(name),
        base.len() == 1 || (base.last() != 0x2f && base.last() != 0x2e),
    ensures
        parent(joined(base, name)) == Some(base),
{
    let path = joined(base, name);
    assert(path[0] == base[0]);
    assert forall|k: int| 0 <= k < name.len() implies name[k] != SEPARATOR by {
        assert(name.contains(name[k]));
    }
    let start = path.len() - name.len();
    let body = path.skip(1);
    if base.len() == 1 {
        assert(body =~= name);
        lemma_last_byte_at(body, SEPARATOR, -1);
        assert(path.skip(start) =~= name);
        assert(without_last_piece(path, 1) =~= base);
        assert(trim_back(base, 1) == base);
    } else {
        assert(path == base.push(SEPARATOR) + name);
        assert(body[base.len() - 1] == SEPARATOR);
        assert forall|k: int| base.len() - 1 < k < body.len() implies body[k] != SEPARATOR by {
            assert(body[k] == name[k - base.len()]);
        }
        lemma_last_byte_at(body, SEPARATOR, base.len() - 1);
        assert(path.skip(start) =~= name);
        assert(without_last_piece(path, 1) =~= base);
        lemma_last_byte(base.skip(1), SEPARATOR);
        let last = base.skip(last_piece_start(base, 1));
        assert(base.skip(1)[base.len() - 2] == base.last());
        assert(last.len() > 0);
        assert(last.last() == base.last());
    }
}

} // verus!
