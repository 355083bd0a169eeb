//! Paths in snapshot manifests: relative, in UTF-8, and safe to join.

use vstd::prelude::*;
use vstd::string::*;
use vstd::utf8::*;

use crate::bytes::bytes_equal;
use crate::bytes::copy_bytes;
use crate::bytes::utf8;
use crate::digest::text_from_utf8;
use crate::text::characters;
use crate::text::cut_first;
use crate::text::has_char;
use crate::text::lemma_first_at;
use crate::text::lemma_first_at_unique;
use crate::text::split_once;
use crate::text::text_is;
use crate::text::texts;
use crate::unix_path::after_piece;
use crate::unix_path::byte_strings;
use crate::unix_path::components;
use crate::unix_path::first_piece;
use crate::unix_path::is_absolute;
use crate::unix_path::is_silent;
use crate::unix_path::lemma_first_byte_unique;
use crate::unix_path::names;
use crate::unix_path::path_components;
use crate::unix_path::path_is_absolute;
use crate::unix_path::same_path;
use crate::unix_path::starts_at_dot;
use crate::unix_path::DOT;
use crate::unix_path::SEPARATOR;

verus! {

/// Why a path cannot stand in a manifest.
#[derive(Clone, Copy, Debug, PartialEq, Eq, Structural)]
pub enum PathError {
    /// It is not relative, or has other components than names.
    NotSafeRelative,
    /// It is not text.
    NotText,
    /// A component is empty, `.`, `..`, or holds a separator, a NUL or a colon.
    UnsafeComponent,
    /// It has no components.
    Empty,
    /// It is not absolute.
    NotAbsolute,
    /// It leads through `.` or `..`.
    Traversal,
}

/// Whether a name can be joined to any directory without leaving it.
pub open spec fn is_safe_component(component: Seq<char>) -> bool {
    &&& component.len() > 0
    &&& component != "."@
    &&& component != ".."@
    &&& !component.contains('/')
    &&& !component.contains('\\')
    &&& !component.contains('\0')
    &&& !component.contains(':')
}

/// Whether a name can be joined to any directory without leaving it.
pub fn validate_safe_component(component: &str) -> (result: Result<(), PathError>)
    ensures
        match result {
            Ok(_) => is_safe_component(component@),
            Err(error) => !is_safe_component(component@) && error == PathError::UnsafeComponent,
        },
{
    if component.is_empty() || text_is(component, ".") || text_is(component, "..") || has_char(
        component,
        '/',
    ) || has_char(component, '\\') || has_char(component, '\0') || has_char(component, ':') {
        Err(PathError::UnsafeComponent)
    } else {
        Ok(())
    }
}

/// The pieces of `text` between slashes.
pub open spec fn pieces(text: Seq<char>) -> Seq<Seq<char>>
    decreases text.len(),
    via pieces_terminates
{
    match cut_first(text, '/') {
        Some((head, tail)) => seq![head] + pieces(tail),
        None => seq![text],
    }
}

#[via_fn]
proof fn pieces_terminates(text: Seq<char>) {
    lemma_first_at(text, '/');
}

/// Texts with a slash between them.
pub open spec fn slashed(list: Seq<Seq<char>>) -> Seq<char>
    decreases list.len(),
{
    if list.len() == 0 {
        Seq::empty()
    } else if list.len() == 1 {
        list[0]
    } else {
        list[0] + "/"@ + slashed(list.drop_first())
    }
}

/// The name that a component of a path is in a manifest.
pub open spec fn component_text(component: Seq<u8>) -> Result<Seq<char>, PathError> {
    if component == seq![SEPARATOR] || component == seq![DOT] || component == seq![DOT, DOT] {
        Err(PathError::NotSafeRelative)
    } else if !valid_utf8(component) {
        Err(PathError::NotText)
    } else if !is_safe_component(decode_utf8(component)) {
        Err(PathError::UnsafeComponent)
    } else {
        Ok(decode_utf8(component))
    }
}

/// The names that components of a path are in a manifest: the first that is
/// none gives the error.
pub open spec fn component_texts(list: Seq<Seq<u8>>) -> Result<Seq<Seq<char>>, PathError>
    decreases list.len(),
{
    if list.len() == 0 {
        Ok(Seq::empty())
    } else {
        match component_texts(list.drop_last()) {
            Err(error) => Err(error),
            Ok(before) => match component_text(list.last()) {
                Err(error) => Err(error),
                Ok(text) => Ok(before.push(text)),
            },
        }
    }
}

/// The text of a relative path in a manifest.
pub open spec fn encoded_path(path: Seq<u8>) -> Result<Seq<char>, PathError> {
    match component_texts(components(path)) {
        Err(error) => Err(error),
        Ok(list) => if list.len() == 0 {
            Err(PathError::Empty)
        } else {
            Ok(slashed(list))
        },
    }
}

/// The path that a text in a manifest stands for.
pub open spec fn decoded_path(text: Seq<char>) -> Result<Seq<u8>, PathError> {
    if text.len() == 0 || text[0] == '/' || text.last() == '/' {
        Err(PathError::NotSafeRelative)
    } else if forall|i: int|
        0 <= i < pieces(text).len() ==> is_safe_component(#[trigger] pieces(text)[i]) {
        Ok(utf8(text))
    } else {
        Err(PathError::UnsafeComponent)
    }
}

/// An error among the first components is the error of all.
proof fn lemma_component_texts_error(list: Seq<Seq<u8>>, count: int)
    requires
        0 <= count <= list.len(),
        component_texts(list.take(count)) is Err,
    ensures
        component_texts(list) == component_texts(list.take(count)),
    decreases list.len() - count,
{
    if count < list.len() {
        assert(list.take(count + 1).drop_last() =~= list.take(count));
        lemma_component_texts_error(list, count + 1);
    } else {
        assert(list.take(count) =~= list);
    }
}

/// The name that a file name is in a manifest.
pub fn encode_safe_filename(filename: &[u8]) -> (encoded: Result<String, PathError>)
    ensures
        match encoded {
            Ok(encoded) => valid_utf8(filename@) && encoded@ == decode_utf8(filename@)
                && is_safe_component(encoded@),
            Err(error) => if valid_utf8(filename@) {
                error == PathError::UnsafeComponent && !is_safe_component(decode_utf8(filename@))
            } else {
                error == PathError::NotText
            },
        },
{
    match text_from_utf8(filename) {
        None => Err(PathError::NotText),
        Some(text) => {
            proof {
                encode_utf8_decode_utf8(text@);
            }
            match validate_safe_component(text) {
                Ok(_) => Ok(text.to_owned()),
                Err(error) => Err(error),
            }
        },
    }
}

/// The name that a component of a path is in a manifest.
fn encode_component(component: &[u8]) -> (encoded: Result<String, PathError>)
    ensures
        match (encoded, component_text(component@)) {
            (Ok(encoded), Ok(text)) => encoded@ == text,
            (Err(error), Err(expected)) => error == expected,
            _ => false,
        },
{
    let root: [u8; 1] = [SEPARATOR];
    let dot: [u8; 1] = [DOT];
    let above: [u8; 2] = [DOT, DOT];
    proof {
        assert(root@ =~= seq![SEPARATOR]);
        assert(dot@ =~= seq![DOT]);
        assert(above@ =~= seq![DOT, DOT]);
    }
    if bytes_equal(component, &root) || bytes_equal(component, &dot) || bytes_equal(
        component,
        &above,
    ) {
        return Err(PathError::NotSafeRelative);
    }
    encode_safe_filename(component)
}

/// A slashed list with one more text at its end.
proof fn lemma_slashed_push(list: Seq<Seq<char>>, last: Seq<char>)
    ensures
        slashed(list.push(last)) == if list.len() == 0 {
            last
        } else {
            slashed(list) + "/"@ + last
        },
    decreases list.len(),
{
    let longer = list.push(last);
    if list.len() == 1 {
        assert(longer.drop_first() =~= seq![last]);
        assert(slashed(seq![last]) == last);
    } else if list.len() > 1 {
        lemma_slashed_push(list.drop_first(), last);
        assert(longer.drop_first() =~= list.drop_first().push(last));
        assert(longer[0] == list[0]);
        assert(list[0] + "/"@ + (slashed(list.drop_first()) + "/"@ + last) =~= (list[0] + "/"@
            + slashed(list.drop_first())) + "/"@ + last);
    }
}

/// The text of a relative path in a manifest.
pub fn encode_safe_relative(path: &[u8]) -> (encoded: Result<String, PathError>)
    ensures
        match (encoded, encoded_path(path@)) {
            (Ok(encoded), Ok(text)) => encoded@ == text,
            (Err(error), Err(expected)) => error == expected,
            _ => false,
        },
{
    let list = path_components(path);
    let ghost all = components(path@);
    let mut encoded = String::new();
    let ghost mut done: Seq<Seq<char>> = Seq::empty();
    let mut index: usize = 0;
    proof {
        assert(all.len() == list@.len());
        assert(all.take(0) =~= Seq::empty());
    }
    while index < list.len()
        invariant
            index <= list@.len(),
            all == byte_strings(list@),
            all == components(path@),
            component_texts(all.take(index as int)) == Ok::<Seq<Seq<char>>, PathError>(done),
            done.len() == index,
            encoded@ == slashed(done),
        decreases list@.len() - index,
    {
        proof {
            assert(all.take(index + 1).drop_last() =~= all.take(index as int));
            assert(all.take(index + 1).last() == list@[index as int]@);
        }
        match encode_component(list[index].as_slice()) {
            Err(error) => {
                proof {
                    lemma_component_texts_error(all, index + 1);
                }
                return Err(error);
            },
            Ok(name) => {
                proof {
                    lemma_slashed_push(done, name@);
                    assert(slashed(Seq::<Seq<char>>::empty()) =~= Seq::<char>::empty());
                }
                if index > 0 {
                    encoded.append("/");
                }
                encoded.append(name.as_str());
                proof {
                    assert(encoded@ =~= slashed(done.push(name@)));
                    done = done.push(name@);
                }
            },
        }
        index = index + 1;
    }
    proof {
        assert(all.take(index as int) =~= all);
    }
    if list.len() == 0 {
        return Err(PathError::Empty);
    }
    Ok(encoded)
}

/// Whether all pieces of `text` are safe.
fn pieces_are_safe(text: &str) -> (safe: bool)
    ensures
        safe == forall|i: int|
            0 <= i < pieces(text@).len() ==> is_safe_component(#[trigger] pieces(text@)[i]),
    decreases text@.len(),
{
    proof {
        lemma_first_at(text@, '/');
    }
    match split_once(text, '/') {
        None => {
            proof {
                assert(pieces(text@) =~= seq![text@]);
                assert(pieces(text@)[0] == text@);
            }
            validate_safe_component(text).is_ok()
        },
        Some((head, tail)) => {
            proof {
                assert(pieces(text@) =~= seq![head@] + pieces(tail@));
                assert(pieces(text@)[0] == head@);
                assert forall|i: int| 0 <= i < pieces(tail@).len() implies pieces(tail@)[i]
                    == #[trigger] pieces(text@)[i + 1] by {}
            }
            let first = validate_safe_component(head.as_str()).is_ok();
            let rest = pieces_are_safe(tail.as_str());
            proof {
                if first && rest {
                    assert forall|i: int| 0 <= i < pieces(text@).len() implies is_safe_component(
                        #[trigger] pieces(text@)[i],
                    ) by {
                        if i > 0 {
                            assert(pieces(text@)[i] == pieces(tail@)[i - 1]);
                        }
                    }
                } else if first {
                    let i = choose|i: int|
                        0 <= i < pieces(tail@).len() && !is_safe_component(
                            #[trigger] pieces(tail@)[i],
                        );
                    assert(pieces(text@)[i + 1] == pieces(tail@)[i]);
                }
            }
            first && rest
        },
    }
}

/// The path that a text in a manifest stands for.
pub fn decode_safe_relative(encoded: &str) -> (path: Result<Vec<u8>, PathError>)
    ensures
        match (path, decoded_path(encoded@)) {
            (Ok(path), Ok(expected)) => path@ == expected,
            (Err(error), Err(expected)) => error == expected,
            _ => false,
        },
{
    let chars = characters(encoded);
    if chars.len() == 0 || chars[0] == '/' || chars[chars.len() - 1] == '/' {
        return Err(PathError::NotSafeRelative);
    }
    if pieces_are_safe(encoded) {
        Ok(copy_bytes(encoded.as_bytes()))
    } else {
        Err(PathError::UnsafeComponent)
    }
}

/// The file name that a text in a manifest stands for.
pub fn decode_safe_filename(encoded: &str) -> (name: Result<Vec<u8>, PathError>)
    ensures
        match name {
            Ok(name) => is_safe_component(encoded@) && name@ == utf8(encoded@),
            Err(error) => !is_safe_component(encoded@) && error == PathError::UnsafeComponent,
        },
{
    match validate_safe_component(encoded) {
        Ok(_) => Ok(copy_bytes(encoded.as_bytes())),
        Err(error) => Err(error),
    }
}

/// Why a path cannot be a root of a snapshot.
pub open spec fn root_error(path: Seq<u8>) -> Option<PathError> {
    if !is_absolute(path) {
        Some(PathError::NotAbsolute)
    } else if components(path).contains(seq![DOT]) || components(path).contains(seq![DOT, DOT]) {
        Some(PathError::Traversal)
    } else if !valid_utf8(path) {
        Some(PathError::NotText)
    } else {
        None
    }
}

/// Whether a path can be a root of a snapshot: absolute, without `.` and `..`,
/// and text.
pub fn validate_absolute_root(path: &[u8]) -> (result: Result<(), PathError>)
    ensures
        match result {
            Ok(_) => root_error(path@) is None,
            Err(error) => root_error(path@) == Some(error),
        },
{
    if !path_is_absolute(path) {
        return Err(PathError::NotAbsolute);
    }
    let list = path_components(path);
    let dot: [u8; 1] = [DOT];
    let above: [u8; 2] = [DOT, DOT];
    proof {
        assert(dot@ =~= seq![DOT]);
        assert(above@ =~= seq![DOT, DOT]);
    }
    if crate::admission::list_holds(&list, &dot) || crate::admission::list_holds(&list, &above) {
        return Err(PathError::Traversal);
    }
    match path_as_utf8(path) {
        Ok(_) => Ok(()),
        Err(error) => Err(error),
    }
}

/// The text of a path.
pub fn path_as_utf8(path: &[u8]) -> (text: Result<String, PathError>)
    ensures
        match text {
            Ok(text) => valid_utf8(path@) && text@ == decode_utf8(path@),
            Err(error) => !valid_utf8(path@) && error == PathError::NotText,
        },
{
    match text_from_utf8(path) {
        Some(text) => {
            proof {
                encode_utf8_decode_utf8(text@);
            }
            Ok(text.to_owned())
        },
        None => Err(PathError::NotText),
    }
}

/// The encoding of two texts one behind the other.
pub proof fn lemma_utf8_concat(first: Seq<char>, second: Seq<char>)
    ensures
        utf8(first + second) == utf8(first) + utf8(second),
    decreases first.len(),
{
    if first.len() == 0 {
        assert(first + second =~= second);
        assert(utf8(first) + utf8(second) =~= utf8(second));
    } else {
        lemma_utf8_concat(first.drop_first(), second);
        assert((first + second).drop_first() =~= first.drop_first() + second);
        assert((first + second)[0] == first[0]);
        assert(encode_scalar(first[0] as u32) + (utf8(first.drop_first()) + utf8(second))
            =~= encode_scalar(first[0] as u32) + utf8(first.drop_first()) + utf8(second));
    }
}

/// The encoding of a character other than a slash holds no separator.
proof fn lemma_scalar_without_slash(scalar: u32)
    requires
        is_scalar(scalar),
        scalar != 0x2f,
    ensures
        !encode_scalar(scalar).contains(SEPARATOR),
{
    let bytes = encode_scalar(scalar);
    if has_width_1_encoding(scalar) {
        assert((scalar & 0x7F) as u8 != 0x2fu8) by (bit_vector)
            requires
                scalar <= 0x7f,
                scalar != 0x2f,
        ;
        assert(bytes[0] != SEPARATOR);
    } else {
        assert(0xC0 | ((scalar >> 6) & 0x1F) as u8 != 0x2fu8) by (bit_vector);
        assert(0xE0 | ((scalar >> 12) & 0x0F) as u8 != 0x2fu8) by (bit_vector);
        assert(0xF0 | ((scalar >> 18) & 0x7) as u8 != 0x2fu8) by (bit_vector);
        assert(0x80 | (scalar & 0x3F) as u8 != 0x2fu8) by (bit_vector);
        assert(0x80 | ((scalar >> 6) & 0x3F) as u8 != 0x2fu8) by (bit_vector);
        assert(0x80 | ((scalar >> 12) & 0x3F) as u8 != 0x2fu8) by (bit_vector);
        assert forall|i: int| 0 <= i < bytes.len() implies bytes[i] != SEPARATOR by {}
    }
}

/// The encoding of a character other than a slash holds no separator.
proof fn lemma_char_without_slash(c: char)
    requires
        c != '/',
    ensures
        !encode_scalar(c as u32).contains(SEPARATOR),
{
    char_is_scalar(c);
    lemma_scalar_without_slash(c as u32);
}

/// The encoding of a text without a slash holds no separator.
proof fn lemma_utf8_without_slash(text: Seq<char>)
    requires
        !text.contains('/'),
    ensures
        !utf8(text).contains(SEPARATOR),
    decreases text.len(),
{
    if text.len() > 0 {
        let rest = text.drop_first();
        assert(!rest.contains('/')) by {
            if rest.contains('/') {
                let i = choose|i: int| 0 <= i < rest.len() && rest[i] == '/';
                assert(text[i + 1] == '/');
            }
        }
        lemma_utf8_without_slash(rest);
        assert(text[0] != '/') by {
            if text[0] == '/' {
                assert(text.contains('/'));
            }
        }
        lemma_char_without_slash(text[0]);
        let head = encode_scalar(text[0] as u32);
        let bytes = utf8(text);
        assert(bytes == head + utf8(rest));
        assert forall|i: int| 0 <= i < bytes.len() implies bytes[i] != SEPARATOR by {
            if i < head.len() {
                assert(bytes[i] == head[i]);
                assert(head.contains(head[i]));
            } else {
                assert(bytes[i] == utf8(rest)[i - head.len()]);
                assert(utf8(rest).contains(utf8(rest)[i - head.len()]));
            }
        }
    }
}

/// The encoding of the texts of a list.
pub open spec fn encoded_list(list: Seq<Seq<char>>) -> Seq<Seq<u8>> {
    Seq::new(list.len(), |i: int| utf8(list[i]))
}

/// Texts with the same encoding are equal.
proof fn lemma_utf8_injective(left: Seq<char>, right: Seq<char>)
    requires
        utf8(left) == utf8(right),
    ensures
        left == right,
{
    encode_utf8_decode_utf8(left);
    encode_utf8_decode_utf8(right);
}

/// The encoding of `.`.
proof fn lemma_utf8_dots()
    ensures
        utf8("."@) == seq![DOT],
        utf8(".."@) == seq![DOT, DOT],
        utf8("/"@) == seq![SEPARATOR],
{
    reveal_strlit(".");
    reveal_strlit("..");
    reveal_strlit("/");
    is_ascii_chars_encode_utf8("."@);
    is_ascii_chars_encode_utf8(".."@);
    is_ascii_chars_encode_utf8("/"@);
    assert(utf8("."@) =~= seq![DOT]);
    assert(utf8(".."@) =~= seq![DOT, DOT]);
    assert(utf8("/"@) =~= seq![SEPARATOR]);
}

/// The encoding of a safe name is one named piece of a path.
pub proof fn lemma_safe_piece(name: Seq<char>)
    requires
        is_safe_component(name),
    ensures
        utf8(name).len() > 0,
        !is_silent(utf8(name)),
        utf8(name) != seq![DOT, DOT],
        utf8(name) != seq![SEPARATOR],
        !utf8(name).contains(SEPARATOR),
{
    lemma_utf8_dots();
    lemma_utf8_without_slash(name);
    if utf8(name) == seq![DOT] {
        lemma_utf8_injective(name, "."@);
    }
    if utf8(name) == seq![DOT, DOT] {
        lemma_utf8_injective(name, ".."@);
    }
    if utf8(name) == seq![SEPARATOR] {
        assert(utf8(name)[0] == SEPARATOR);
    }
    if utf8(name).len() == 0 {
        assert(utf8(name) =~= utf8(Seq::<char>::empty()));
        lemma_utf8_injective(name, Seq::<char>::empty());
    }
}

/// The named pieces of the encoding of safe names with slashes between them
/// are the encodings of the names.
proof fn lemma_names_of_slashed(list: Seq<Seq<char>>)
    requires
        list.len() > 0,
        forall|i: int| 0 <= i < list.len() ==> is_safe_component(#[trigger] list[i]),
    ensures
        names(utf8(slashed(list))) == encoded_list(list),
        first_piece(utf8(slashed(list))) == utf8(list[0]),
        utf8(slashed(list)).len() > 0,
        utf8(slashed(list))[0] != SEPARATOR,
    decreases list.len(),
{
    let head = utf8(list[0]);
    lemma_safe_piece(list[0]);
    assert(head[0] != SEPARATOR) by {
        assert(head.contains(head[0]));
    }
    let path = utf8(slashed(list));
    if list.len() == 1 {
        assert(path == head);
        assert forall|k: int| 0 <= k < head.len() implies head[k] != SEPARATOR by {
            assert(head.contains(head[k]));
        }
        lemma_first_byte_unique(path, SEPARATOR, head.len() as int);
        assert(first_piece(path) =~= head);
        assert(after_piece(path) =~= Seq::<u8>::empty());
        assert(names(after_piece(path)) =~= Seq::<Seq<u8>>::empty());
        assert(names(path) =~= encoded_list(list));
    } else {
        let rest = list.drop_first();
        assert forall|i: int| 0 <= i < rest.len() implies is_safe_component(#[trigger] rest[i]) by {
            assert(rest[i] == list[i + 1]);
        }
        lemma_names_of_slashed(rest);
        lemma_utf8_dots();
        let tail = utf8(slashed(rest));
        lemma_utf8_concat(list[0] + "/"@, slashed(rest));
        lemma_utf8_concat(list[0], "/"@);
        assert(path =~= head + seq![SEPARATOR] + tail);
        assert forall|k: int| 0 <= k < head.len() implies path[k] != SEPARATOR by {
            assert(path[k] == head[k]);
            assert(head.contains(head[k]));
        }
        lemma_first_byte_unique(path, SEPARATOR, head.len() as int);
        assert(first_piece(path) =~= head);
        assert(after_piece(path) =~= tail);
        assert(names(path) == seq![head] + names(tail));
        assert(names(path) =~= encoded_list(list));
    }
}

/// The components of the encoding of safe names with slashes between them are
/// the encodings of the names.
proof fn lemma_components_of_slashed(list: Seq<Seq<char>>)
    requires
        list.len() > 0,
        forall|i: int| 0 <= i < list.len() ==> is_safe_component(#[trigger] list[i]),
    ensures
        components(utf8(slashed(list))) == encoded_list(list),
{
    lemma_names_of_slashed(list);
    lemma_safe_piece(list[0]);
    let path = utf8(slashed(list));
    assert(!is_absolute(path));
    assert(!starts_at_dot(path));
}

/// The pieces of safe names with slashes between them are the names.
proof fn lemma_pieces_of_slashed(list: Seq<Seq<char>>)
    requires
        list.len() > 0,
        forall|i: int| 0 <= i < list.len() ==> is_safe_component(#[trigger] list[i]),
    ensures
        pieces(slashed(list)) == list,
        slashed(list).len() > 0,
        slashed(list)[0] != '/',
        slashed(list).last() != '/',
    decreases list.len(),
{
    reveal_strlit("/");
    let head = list[0];
    let text = slashed(list);
    assert forall|k: int| 0 <= k < head.len() implies head[k] != '/' by {
        assert(head.contains(head[k]));
    }
    if list.len() == 1 {
        lemma_first_at_unique(text, '/', head.len() as int);
        assert(pieces(text) =~= list);
    } else {
        let rest = list.drop_first();
        assert forall|i: int| 0 <= i < rest.len() implies is_safe_component(#[trigger] rest[i]) by {
            assert(rest[i] == list[i + 1]);
        }
        lemma_pieces_of_slashed(rest);
        assert forall|k: int| 0 <= k < head.len() implies text[k] != '/' by {
            assert(text[k] == head[k]);
        }
        lemma_first_at_unique(text, '/', head.len() as int);
        assert(text.take(head.len() as int) =~= head);
        assert(text.skip(head.len() as int + 1) =~= slashed(rest));
        assert(pieces(text) == seq![head] + pieces(slashed(rest)));
        assert(pieces(text) =~= list);
        assert(text.last() == slashed(rest).last());
    }
}

/// Slashes between the pieces of a text give the text.
proof fn lemma_slashed_pieces(text: Seq<char>)
    ensures
        slashed(pieces(text)) == text,
        pieces(text).len() > 0,
    decreases text.len(),
{
    reveal_strlit("/");
    lemma_first_at(text, '/');
    match cut_first(text, '/') {
        None => {},
        Some((head, tail)) => {
            lemma_slashed_pieces(tail);
            let list = pieces(text);
            assert(list.drop_first() =~= pieces(tail));
            assert(head + "/"@ + tail =~= text);
        },
    }
}

/// The names of components are safe, and their encodings are the components.
pub proof fn lemma_component_texts(list: Seq<Seq<u8>>)
    requires
        component_texts(list) is Ok,
    ensures
        component_texts(list)->Ok_0.len() == list.len(),
        forall|i: int|
            0 <= i < list.len() ==> is_safe_component(
                #[trigger] component_texts(list)->Ok_0[i],
            ) && utf8(component_texts(list)->Ok_0[i]) == list[i],
    decreases list.len(),
{
    if list.len() > 0 {
        let before = list.drop_last();
        lemma_component_texts(before);
        let texts = component_texts(list)->Ok_0;
        let earlier = component_texts(before)->Ok_0;
        assert forall|i: int| 0 <= i < list.len() implies is_safe_component(#[trigger] texts[i])
            && utf8(texts[i]) == list[i] by {
            if i < before.len() {
                assert(texts[i] == earlier[i]);
                assert(before[i] == list[i]);
            } else {
                decode_utf8_encode_utf8(list.last());
            }
        }
    }
}

/// The encodings of safe names have the names as their texts.
proof fn lemma_texts_of_encoded(list: Seq<Seq<char>>)
    requires
        forall|i: int| 0 <= i < list.len() ==> is_safe_component(#[trigger] list[i]),
    ensures
        component_texts(encoded_list(list)) == Ok::<Seq<Seq<char>>, PathError>(list),
    decreases list.len(),
{
    let encoded = encoded_list(list);
    if list.len() == 0 {
        assert(component_texts(encoded)->Ok_0 =~= list);
    } else {
        let before = list.drop_last();
        assert forall|i: int| 0 <= i < before.len() implies is_safe_component(
            #[trigger] before[i],
        ) by {
            assert(before[i] == list[i]);
        }
        lemma_texts_of_encoded(before);
        assert(encoded.drop_last() =~= encoded_list(before));
        let last = list.last();
        assert(last == list[list.len() - 1]);
        lemma_safe_piece(last);
        encode_utf8_valid_utf8(last);
        encode_utf8_decode_utf8(last);
        assert(encoded.last() == utf8(last));
        assert(before.push(last) =~= list);
    }
}

/// A path that was written to a manifest is read back as the same path.
pub proof fn law_encoded_paths_decode(path: Seq<u8>)
    requires
        encoded_path(path) is Ok,
    ensures
        decoded_path(encoded_path(path)->Ok_0) is Ok,
        same_path(decoded_path(encoded_path(path)->Ok_0)->Ok_0, path),
{
    let all = components(path);
    lemma_component_texts(all);
    let list = component_texts(all)->Ok_0;
    let text = slashed(list);
    lemma_pieces_of_slashed(list);
    lemma_components_of_slashed(list);
    assert(decoded_path(text) == Ok::<Seq<u8>, PathError>(utf8(text)));
    assert(encoded_list(list) =~= all);
}

/// A path that is read from a manifest starts with a name.
pub proof fn lemma_decoded_start(text: Seq<char>)
    requires
        decoded_path(text) is Ok,
    ensures
        !is_absolute(decoded_path(text)->Ok_0),
        !starts_at_dot(decoded_path(text)->Ok_0),
{
    lemma_slashed_pieces(text);
    let list = pieces(text);
    lemma_names_of_slashed(list);
    lemma_safe_piece(list[0]);
}

/// A path that was read from a manifest is written as the same text.
pub proof fn law_decoded_paths_encode(text: Seq<char>)
    requires
        decoded_path(text) is Ok,
    ensures
        encoded_path(decoded_path(text)->Ok_0) == Ok::<Seq<char>, PathError>(text),
{
    lemma_slashed_pieces(text);
    let list = pieces(text);
    lemma_components_of_slashed(list);
    lemma_texts_of_encoded(list);
}

/// A path that is read from a manifest has only names as components: it does
/// not lead out of the directory that it is joined to.
pub proof fn law_decoded_paths_do_not_escape(text: Seq<char>)
    requires
        decoded_path(text) is Ok,
    ensures
        ({
            let path = decoded_path(text)->Ok_0;
            &&& !is_absolute(path)
            &&& !components(path).contains(seq![DOT, DOT])
            &&& !components(path).contains(seq![DOT])
        }),
{
    lemma_slashed_pieces(text);
    let list = pieces(text);
    lemma_components_of_slashed(list);
    lemma_names_of_slashed(list);
    let path = utf8(text);
    assert forall|i: int| 0 <= i < components(path).len() implies components(path)[i] != seq![
        DOT,
        DOT,
    ] && components(path)[i] != seq![DOT] by {
        assert(components(path)[i] == utf8(list[i]));
        lemma_safe_piece(list[i]);
    }
}

} // verus!
