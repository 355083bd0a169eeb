//! Byte-string helpers shared by the encoders, parsers and hash framings.

use vstd::prelude::*;
use vstd::slice::slice_subrange;
use vstd::slice::slice_to_vec;
use vstd::string::*;
use vstd::utf8::*;

verus! {

/// The UTF-8 bytes of a text literal or parameter.
pub open spec fn utf8(text: Seq<char>) -> Seq<u8> {
    encode_utf8(text)
}

/// The contents of an optional byte string.
pub open spec fn optional(value: Option<Vec<u8>>) -> Option<Seq<u8>> {
    match value {
        Some(value) => Some(value@),
        None => None,
    }
}

/// The contents of an optional text.
pub open spec fn optional_text(value: Option<String>) -> Option<Seq<char>> {
    match value {
        Some(value) => Some(value@),
        None => None,
    }
}

/// An owned copy of `bytes`.
pub fn copy_bytes(bytes: &[u8]) -> (copy: Vec<u8>)
    ensures
        copy@ == bytes@,
{
    slice_to_vec(bytes)
}

/// Appends `bytes` to `out`.
pub fn push_bytes(out: &mut Vec<u8>, bytes: &[u8])
    ensures
        final(out)@ == old(out)@ + bytes@,
{
    let ghost before = out@;
    let mut index: usize = 0;
    while index < bytes.len()
        invariant
            index <= bytes@.len(),
            out@ == before + bytes@.subrange(0, index as int),
        decreases bytes@.len() - index,
    {
        out.push(bytes[index]);
        proof {
            assert(bytes@.subrange(0, index + 1) =~= bytes@.subrange(0, index as int).push(
                bytes@[index as int],
            ));
        }
        index = index + 1;
    }
    proof {
        assert(bytes@.subrange(0, bytes@.len() as int) =~= bytes@);
    }
}

/// Appends the UTF-8 bytes of `text` to `out`.
pub fn push_text(out: &mut Vec<u8>, text: &str)
    ensures
        final(out)@ == old(out)@ + utf8(text@),
{
    push_bytes(out, text.as_bytes());
}

/// Whether two byte strings are equal.
pub fn bytes_equal(left: &[u8], right: &[u8]) -> (equal: bool)
    ensures
        equal == (left@ == right@),
{
    if left.len() != right.len() {
        return false;
    }
    let mut index: usize = 0;
    while index < left.len()
        invariant
            index <= left@.len(),
            left@.len() == right@.len(),
            forall|k: int| 0 <= k < index ==> left@[k] == right@[k],
        decreases left@.len() - index,
    {
        if left[index] != right[index] {
            return false;
        }
        index = index + 1;
    }
    proof {
        assert(left@ =~= right@);
    }
    true
}

/// Whether `bytes` begins with `prefix`.
pub fn bytes_start_with(bytes: &[u8], prefix: &[u8]) -> (found: bool)
    ensures
        found == prefix@.is_prefix_of(bytes@),
{
    if prefix.len() > bytes.len() {
        return false;
    }
    bytes_equal(prefix, slice_subrange(bytes, 0, prefix.len()))
}

/// Whether `bytes` holds `byte`.
pub fn bytes_contain(bytes: &[u8], byte: u8) -> (found: bool)
    ensures
        found == bytes@.contains(byte),
{
    let mut index: usize = 0;
    while index < bytes.len()
        invariant
            index <= bytes@.len(),
            forall|k: int| 0 <= k < index ==> bytes@[k] != byte,
        decreases bytes@.len() - index,
    {
        if bytes[index] == byte {
            proof {
                assert(bytes@[index as int] == byte);
            }
            return true;
        }
        index = index + 1;
    }
    false
}

/// The order of two byte strings: the first differing byte decides, and a
/// proper prefix comes first.
pub open spec fn bytes_less(left: Seq<u8>, right: Seq<u8>) -> bool
    decreases left.len(),
{
    if right.len() == 0 {
        false
    } else if left.len() == 0 {
        true
    } else if left[0] != right[0] {
        left[0] < right[0]
    } else {
        bytes_less(left.drop_first(), right.drop_first())
    }
}

/// Whether `left` comes strictly before `right`.
pub fn bytes_before(left: &[u8], right: &[u8]) -> (less: bool)
    ensures
        less == bytes_less(left@, right@),
{
    let mut index: usize = 0;
    proof {
        assert(left@.subrange(0, left@.len() as int) =~= left@);
        assert(right@.subrange(0, right@.len() as int) =~= right@);
    }
    while index < left.len() && index < right.len()
        invariant
            index <= left@.len(),
            index <= right@.len(),
            bytes_less(left@, right@) == bytes_less(
                left@.subrange(index as int, left@.len() as int),
                right@.subrange(index as int, right@.len() as int),
            ),
        decreases left@.len() - index,
    {
        if left[index] != right[index] {
            return left[index] < right[index];
        }
        proof {
            assert(left@.subrange(index as int, left@.len() as int).drop_first() =~= left@.subrange(
                index + 1,
                left@.len() as int,
            ));
            assert(right@.subrange(index as int, right@.len() as int).drop_first()
                =~= right@.subrange(index + 1, right@.len() as int));
        }
        index = index + 1;
    }
    index < right.len()
}

/// The order of byte strings is strict.
pub proof fn lemma_bytes_less_strict(left: Seq<u8>, right: Seq<u8>)
    ensures
        !bytes_less(left, left),
        bytes_less(left, right) ==> !bytes_less(right, left),
    decreases left.len(),
{
    if left.len() > 0 {
        lemma_bytes_less_strict(left.drop_first(), left.drop_first());
        if right.len() > 0 {
            lemma_bytes_less_strict(left.drop_first(), right.drop_first());
        }
    }
}

/// The order of byte strings is total.
pub proof fn lemma_bytes_less_total(left: Seq<u8>, right: Seq<u8>)
    ensures
        left == right || bytes_less(left, right) || bytes_less(right, left),
    decreases left.len(),
{
    if left.len() > 0 && right.len() > 0 && left[0] == right[0] {
        lemma_bytes_less_total(left.drop_first(), right.drop_first());
        if left.drop_first() == right.drop_first() {
            assert(left =~= seq![left[0]] + left.drop_first());
            assert(right =~= seq![right[0]] + right.drop_first());
        }
    } else if left.len() == 0 && right.len() == 0 {
        assert(left =~= right);
    }
}

/// The order of byte strings is transitive.
pub proof fn lemma_bytes_less_transitive(left: Seq<u8>, middle: Seq<u8>, right: Seq<u8>)
    requires
        bytes_less(left, middle),
        bytes_less(middle, right),
    ensures
        bytes_less(left, right),
    decreases left.len(),
{
    if left.len() > 0 && middle.len() > 0 && right.len() > 0 {
        if left[0] == middle[0] && middle[0] == right[0] {
            lemma_bytes_less_transitive(
                left.drop_first(),
                middle.drop_first(),
                right.drop_first(),
            );
        }
    }
}

/// Two parts of the same length, one behind the other, are read back.
pub proof fn lemma_split_parts(a: Seq<u8>, b: Seq<u8>, c: Seq<u8>, d: Seq<u8>)
    requires
        a.len() == c.len(),
        a + b == c + d,
    ensures
        a == c,
        b == d,
{
    let text = a + b;
    assert(a =~= text.take(a.len() as int));
    assert(c =~= text.take(a.len() as int));
    assert(b =~= text.skip(a.len() as int));
    assert(d =~= text.skip(a.len() as int));
}

} // verus!
