//! BLAKE3 digests and their lower-case hexadecimal notation.

use vstd::prelude::*;
use vstd::string::*;
use vstd::utf8::*;

use crate::text::characters;

verus! {

/// The 32 bytes that BLAKE3 computes for `input`.
pub uninterp spec fn blake3_digest(input: Seq<u8>) -> Seq<u8>;

/// `blake3::hash`: the default-mode BLAKE3 hash of the whole input, which
/// depends on nothing but the input. The bytes are named by `blake3_digest`.
#[verifier::external_body]
pub(crate) fn blake3_of(input: &[u8]) -> (digest: [u8; 32])
    ensures
        digest@ == blake3_digest(input@),
{
    *blake3::hash(input).as_bytes()
}

/// `std::str::from_utf8`: the text that `bytes` encode, or `None` where they
/// are not well-formed UTF-8.
#[verifier::external_body]
pub(crate) fn text_from_utf8(bytes: &[u8]) -> (text: Option<&str>)
    ensures
        text is Some <==> valid_utf8(bytes@),
        text is Some ==> text->0.spec_bytes() == bytes@,
{
    std::str::from_utf8(bytes).ok()
}

/// The text that `String::from_utf8_lossy` makes of bytes that need not be
/// well-formed UTF-8.
pub uninterp spec fn lossy_text(bytes: Seq<u8>) -> Seq<char>;

/// `String::from_utf8_lossy`: the text of `bytes`, with replacement characters
/// in the place of ill-formed sequences. Well-formed bytes are kept as they
/// are. The result is named by `lossy_text`.
#[verifier::external_body]
pub(crate) fn text_from_utf8_lossy(bytes: &[u8]) -> (text: String)
    ensures
        text@ == lossy_text(bytes@),
        valid_utf8(bytes@) ==> encode_utf8(text@) == bytes@,
{
    String::from_utf8_lossy(bytes).into_owned()
}

/// The lower-case hexadecimal digit with value `value`.
pub open spec fn hex_digit(value: int) -> char {
    if value < 10 {
        (0x30 + value) as char
    } else {
        (0x61 + value - 10) as char
    }
}

/// Two lower-case hexadecimal digits for each byte, high half first.
pub open spec fn hex(bytes: Seq<u8>) -> Seq<char> {
    Seq::new(
        bytes.len() * 2,
        |i: int|
            if i % 2 == 0 {
                hex_digit(bytes[i / 2] as int / 16)
            } else {
                hex_digit(bytes[i / 2] as int % 16)
            },
    )
}

/// Whether `character` is a lower-case hexadecimal digit.
pub open spec fn is_hex_digit(character: char) -> bool {
    0x30 <= character as u32 <= 0x39 || 0x61 <= character as u32 <= 0x66
}

/// Whether `text` is 64 lower-case hexadecimal digits.
pub open spec fn is_hex_digest(text: Seq<char>) -> bool {
    text.len() == 64 && forall|i: int| 0 <= i < text.len() ==> is_hex_digit(#[trigger] text[i])
}

/// The lower-case hexadecimal digit with value `value`.
fn hex_char(value: u8) -> (digit: char)
    requires
        value < 16,
    ensures
        digit == hex_digit(value as int),
{
    match value {
        0 => '0',
        1 => '1',
        2 => '2',
        3 => '3',
        4 => '4',
        5 => '5',
        6 => '6',
        7 => '7',
        8 => '8',
        9 => '9',
        10 => 'a',
        11 => 'b',
        12 => 'c',
        13 => 'd',
        14 => 'e',
        _ => 'f',
    }
}

/// The hexadecimal notation of a digest.
pub fn render_blake3_digest(digest: &[u8]) -> (text: String)
    ensures
        text@ == hex(digest@),
{
    let mut text = String::new();
    let mut index: usize = 0;
    proof {
        assert(text@ =~= hex(digest@.take(0)));
    }
    while index < digest.len()
        invariant
            index <= digest@.len(),
            text@ == hex(digest@.take(index as int)),
        decreases digest@.len() - index,
    {
        let byte: u8 = digest[index];
        let ghost before = text@;
        text.push(hex_char(byte / 16));
        text.push(hex_char(byte % 16));
        proof {
            let longer = hex(digest@.take(index + 1));
            assert forall|i: int| 0 <= i < longer.len() implies longer[i] == text@[i] by {
                if i < before.len() {
                    assert(digest@.take(index + 1)[i / 2] == digest@.take(index as int)[i / 2]);
                    assert(before[i] == text@[i]);
                }
            }
            assert(text@ =~= longer);
        }
        index = index + 1;
    }
    proof {
        assert(digest@.take(index as int) =~= digest@);
    }
    text
}

/// Whether `digest` is 64 lower-case hexadecimal digits.
pub fn is_blake3_hex_digest(digest: &str) -> (valid: bool)
    ensures
        valid == is_hex_digest(digest@),
{
    let chars = characters(digest);
    if chars.len() != 64 {
        return false;
    }
    let mut index: usize = 0;
    while index < chars.len()
        invariant
            chars@ == digest@,
            index <= chars@.len(),
            forall|i: int| 0 <= i < index ==> is_hex_digit(#[trigger] chars@[i]),
        decreases chars@.len() - index,
    {
        let code: u32 = chars[index] as u32;
        if !((0x30 <= code && code <= 0x39) || (0x61 <= code && code <= 0x66)) {
            proof {
                assert(!is_hex_digit(digest@[index as int]));
            }
            return false;
        }
        index = index + 1;
    }
    true
}

/// The hexadecimal BLAKE3 digest of `input`.
pub open spec fn hex_digest(input: Seq<u8>) -> Seq<char> {
    hex(blake3_digest(input))
}

/// The hexadecimal BLAKE3 digest of `input`.
pub fn blake3_hex(input: &[u8]) -> (text: String)
    ensures
        text@ == hex_digest(input@),
        is_hex_digest(text@),
{
    let digest = blake3_of(input);
    proof {
        law_rendered_digest_is_valid(digest@);
    }
    render_blake3_digest(&digest)
}

/// The notation of any 32 bytes is a valid hexadecimal digest.
pub proof fn law_rendered_digest_is_valid(bytes: Seq<u8>)
    requires
        bytes.len() == 32,
    ensures
        is_hex_digest(hex(bytes)),
{
    let text = hex(bytes);
    assert forall|i: int| 0 <= i < text.len() implies is_hex_digit(#[trigger] text[i]) by {
        assert(0 <= bytes[i / 2] as int / 16 < 16);
        assert(0 <= bytes[i / 2] as int % 16 < 16);
    }
}

/// Byte strings with the same hexadecimal notation are equal.
pub proof fn law_hex_is_injective(left: Seq<u8>, right: Seq<u8>)
    requires
        hex(left) == hex(right),
    ensures
        left == right,
{
    assert(hex(left).len() == left.len() * 2);
    assert(hex(right).len() == right.len() * 2);
    assert forall|k: int| 0 <= k < left.len() implies left[k] == right[k] by {
        let high = left[k] as int / 16;
        let low = left[k] as int % 16;
        let other_high = right[k] as int / 16;
        let other_low = right[k] as int % 16;
        assert((2 * k) % 2 == 0 && (2 * k) / 2 == k);
        assert((2 * k + 1) % 2 == 1 && (2 * k + 1) / 2 == k);
        assert(hex(left)[2 * k] == hex_digit(high));
        assert(hex(right)[2 * k] == hex_digit(other_high));
        assert(hex(left)[2 * k + 1] == hex_digit(low));
        assert(hex(right)[2 * k + 1] == hex_digit(other_low));
        assert(high == other_high);
        assert(low == other_low);
    }
    assert(left =~= right);
}

} // verus!
