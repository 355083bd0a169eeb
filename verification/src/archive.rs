//! Archives with the timestamps of their members blanked out.

use vstd::prelude::*;
use vstd::slice::slice_subrange;
use vstd::string::*;
use vstd::utf8::*;

use crate::bytes::bytes_start_with;
use crate::bytes::copy_bytes;
use crate::bytes::utf8;
use crate::digest::text_from_utf8;
use crate::text::decimal;
use crate::text::digit_of;
use crate::text::is_digit;
use crate::text::law_decimal_round_trip;
use crate::text::lemma_decimal_digits;
use crate::text::parse_u64;
use crate::text::parsed;
use crate::text::trim;
use crate::text::trimmed;
use crate::text_laws::is_blank;
use crate::text_laws::law_blanks_are_trimmed;

verus! {

/// The length of the header of a member.
pub const MEMBER_HEADER_LEN: usize = 60;

/// The size that the header of a member at `offset` gives, where there is a
/// whole header with its end mark and a size.
pub open spec fn member_size(bytes: Seq<u8>, offset: int) -> Option<nat> {
    if !(0 <= offset && offset + MEMBER_HEADER_LEN <= bytes.len()) {
        None
    } else if bytes[offset + 58] != 0x60 || bytes[offset + 59] != 0x0a {
        None
    } else {
        let field = bytes.subrange(offset + 48, offset + 58);
        if valid_utf8(field) {
            parsed(trimmed(decode_utf8(field)), usize::MAX as nat)
        } else {
            None
        }
    }
}

/// `bytes` with the timestamp of the member at `offset` blanked out.
pub open spec fn blanked(bytes: Seq<u8>, offset: int) -> Seq<u8> {
    Seq::new(
        bytes.len(),
        |i: int|
            if offset + 16 <= i < offset + 28 {
                0x30u8
            } else {
                bytes[i]
            },
    )
}

/// Where the member behind one at `offset` of `size` bytes stands.
pub open spec fn next_member(offset: int, size: nat) -> int {
    offset + MEMBER_HEADER_LEN + size + size % 2
}

/// `bytes` with the timestamps of all members from `offset` on blanked out,
/// where the members end with the bytes.
pub open spec fn blanked_from(bytes: Seq<u8>, offset: int) -> Option<Seq<u8>>
    decreases bytes.len() - offset,
{
    if offset == bytes.len() {
        Some(bytes)
    } else {
        match member_size(bytes, offset) {
            None => None,
            Some(size) => if next_member(offset, size) <= bytes.len() {
                blanked_from(blanked(bytes, offset), next_member(offset, size))
            } else {
                None
            },
        }
    }
}

/// What an archive starts with.
pub open spec fn archive_mark() -> Seq<u8> {
    utf8("!<arch>\n"@)
}

/// An archive with the timestamps of its members blanked out. Anything else is
/// left as it is.
pub open spec fn normalized_archive(bytes: Seq<u8>) -> Seq<u8> {
    if archive_mark().is_prefix_of(bytes) {
        match blanked_from(bytes, archive_mark().len() as int) {
            Some(result) => result,
            None => bytes,
        }
    } else {
        bytes
    }
}

/// The size that the header of a member at `offset` gives.
fn read_member_size(bytes: &Vec<u8>, offset: usize) -> (size: Option<usize>)
    ensures
        match size {
            Some(size) => member_size(bytes@, offset as int) == Some(size as nat),
            None => member_size(bytes@, offset as int) is None,
        },
{
    if offset > bytes.len() || bytes.len() - offset < MEMBER_HEADER_LEN {
        return None;
    }
    if bytes[offset + 58] != 0x60 || bytes[offset + 59] != 0x0a {
        return None;
    }
    let field = slice_subrange(bytes.as_slice(), offset + 48, offset + 58);
    match text_from_utf8(field) {
        Some(text) => {
            proof {
                encode_utf8_decode_utf8(text@);
            }
            match parse_u64(trim(text).as_str()) {
                Some(size) => {
                    if size <= usize::MAX as u64 {
                        Some(size as usize)
                    } else {
                        None
                    }
                },
                None => None,
            }
        },
        None => None,
    }
}

/// Blanks out the timestamp of the member at `offset`.
fn blank_timestamp(bytes: &mut Vec<u8>, offset: usize)
    requires
        offset + MEMBER_HEADER_LEN <= old(bytes)@.len(),
    ensures
        final(bytes)@ == blanked(old(bytes)@, offset as int),
{
    let ghost before = bytes@;
    let mut index: usize = 0;
    while index < 12
        invariant
            index <= 12,
            offset + MEMBER_HEADER_LEN <= before.len(),
            bytes@.len() == before.len(),
            forall|i: int|
                0 <= i < bytes@.len() ==> #[trigger] bytes@[i] == if offset + 16 <= i < offset + 16
                    + index {
                    0x30u8
                } else {
                    before[i]
                },
        decreases 12 - index,
    {
        proof {
            assert(offset + MEMBER_HEADER_LEN <= bytes.len());
        }
        bytes.set(offset + 16 + index, 0x30);
        index = index + 1;
    }
    proof {
        assert(bytes@ =~= blanked(before, offset as int));
    }
}

/// An archive with the timestamps of its members blanked out. Anything else is
/// left as it is.
pub fn normalize_ar_timestamps(bytes: &[u8]) -> (result: Vec<u8>)
    ensures
        result@ == normalized_archive(bytes@),
{
    let mark = "!<arch>\n".as_bytes();
    if !bytes_start_with(bytes, mark) {
        return copy_bytes(bytes);
    }
    let mut result = copy_bytes(bytes);
    let mut offset: usize = mark.len();
    while offset < result.len()
        invariant
            offset <= result@.len(),
            archive_mark().is_prefix_of(bytes@),
            blanked_from(bytes@, archive_mark().len() as int) == blanked_from(
                result@,
                offset as int,
            ),
        decreases result@.len() - offset,
    {
        let size: usize = match read_member_size(&result, offset) {
            Some(size) => size,
            None => {
                return copy_bytes(bytes);
            },
        };
        let body: usize = result.len() - offset - MEMBER_HEADER_LEN;
        let padding: usize = size % 2;
        if size > body || padding > body - size {
            return copy_bytes(bytes);
        }
        blank_timestamp(&mut result, offset);
        offset = offset + MEMBER_HEADER_LEN + size + padding;
    }
    result
}

/// The timestamps of the members do not change what the other parts of the
/// headers say.
proof fn lemma_blanked_keeps_sizes(bytes: Seq<u8>, offset: int, other: int)
    requires
        0 <= offset,
        offset + MEMBER_HEADER_LEN <= other || other == offset || other + MEMBER_HEADER_LEN
            <= offset,
    ensures
        member_size(blanked(bytes, offset), other) == member_size(bytes, other),
{
    let result = blanked(bytes, offset);
    if 0 <= other && other + MEMBER_HEADER_LEN <= bytes.len() {
        assert(result.subrange(other + 48, other + 58) =~= bytes.subrange(other + 48, other + 58));
    }
}

/// Bytes that are blanked from `offset` on agree before it, and are blanked
/// already.
proof fn lemma_blanked_from(bytes: Seq<u8>, offset: int)
    requires
        0 <= offset <= bytes.len(),
    ensures
        match blanked_from(bytes, offset) {
            Some(result) => {
                &&& result.len() == bytes.len()
                &&& result.take(offset) == bytes.take(offset)
                &&& blanked_from(result, offset) == Some(result)
            },
            None => true,
        },
    decreases bytes.len() - offset,
{
    if offset < bytes.len() {
        match member_size(bytes, offset) {
            None => {},
            Some(size) => {
                let next = next_member(offset, size);
                let first = blanked(bytes, offset);
                if next <= bytes.len() {
                    lemma_blanked_from(first, next);
                    match blanked_from(first, next) {
                        Some(result) => {
                            assert forall|i: int| 0 <= i < next implies result[i] == first[i] by {
                                assert(result.take(next)[i] == first.take(next)[i]);
                            }
                            assert(result.take(offset) =~= bytes.take(offset));
                            lemma_blanked_keeps_sizes(bytes, offset, offset);
                            assert(member_size(result, offset) == member_size(first, offset)) by {
                                assert(result.subrange(offset + 48, offset + 58)
                                    =~= first.subrange(offset + 48, offset + 58));
                            }
                            assert(blanked(result, offset) =~= result);
                        },
                        None => {},
                    }
                }
            },
        }
    }
}

/// Normalizing twice is the same as normalizing once.
pub proof fn law_normalization_is_idempotent(bytes: Seq<u8>)
    ensures
        normalized_archive(normalized_archive(bytes)) == normalized_archive(bytes),
{
    let mark = archive_mark();
    if mark.is_prefix_of(bytes) {
        let offset = mark.len() as int;
        lemma_blanked_from(bytes, offset);
        match blanked_from(bytes, offset) {
            Some(result) => {
                assert(mark.is_prefix_of(result)) by {
                    assert(result.take(offset) == bytes.take(offset));
                    assert(bytes.take(offset) =~= mark);
                    assert(result.subrange(0, offset) =~= result.take(offset));
                }
            },
            None => {},
        }
    }
}

/// Whether a walk over members from `start` comes by `offset`.
pub open spec fn is_member_boundary(bytes: Seq<u8>, start: int, offset: int) -> bool
    decreases bytes.len() - start,
{
    if start == offset {
        true
    } else if start + MEMBER_HEADER_LEN > offset {
        false
    } else {
        match member_size(bytes, start) {
            None => false,
            Some(size) => next_member(start, size) <= bytes.len() && is_member_boundary(
                bytes,
                next_member(start, size),
                offset,
            ),
        }
    }
}

/// Blanking out a timestamp keeps the boundaries of the members behind it.
proof fn lemma_boundary_after_blanking(bytes: Seq<u8>, blank: int, start: int, offset: int)
    requires
        0 <= blank,
        blank + MEMBER_HEADER_LEN <= start,
        is_member_boundary(bytes, start, offset),
    ensures
        is_member_boundary(blanked(bytes, blank), start, offset),
    decreases bytes.len() - start,
{
    if start != offset {
        lemma_blanked_keeps_sizes(bytes, blank, start);
        let size = member_size(bytes, start)->0;
        lemma_boundary_after_blanking(bytes, blank, next_member(start, size), offset);
    }
}

/// Whether a byte belongs to the timestamp of a member from `start` on.
pub open spec fn is_timestamp(bytes: Seq<u8>, start: int, i: int) -> bool {
    exists|offset: int| #[trigger]
        is_member_boundary(bytes, start, offset) && offset + 16 <= i < offset + 28
}

/// Whether two byte strings agree but for the timestamps of members from
/// `start` on.
pub open spec fn agree_but_for_timestamps(left: Seq<u8>, right: Seq<u8>, start: int) -> bool {
    left.len() == right.len() && forall|i: int|
        0 <= i < left.len() && !is_timestamp(left, start, i) ==> #[trigger] left[i] == right[i]
}

/// A boundary that a walk comes by is where it starts or behind the header
/// there.
proof fn lemma_boundaries_are_apart(bytes: Seq<u8>, start: int, offset: int)
    requires
        is_member_boundary(bytes, start, offset),
    ensures
        start == offset || start + MEMBER_HEADER_LEN <= offset,
{
}

/// The timestamps of members from `start` on do not show once they are blanked
/// out.
proof fn lemma_timestamps_are_ignored(left: Seq<u8>, right: Seq<u8>, start: int)
    requires
        0 <= start <= left.len(),
        agree_but_for_timestamps(left, right, start),
        blanked_from(left, start) is Some,
    ensures
        blanked_from(left, start) == blanked_from(right, start),
    decreases left.len() - start,
{
    if start == left.len() {
        assert forall|i: int| 0 <= i < left.len() implies left[i] == right[i] by {
            if is_timestamp(left, start, i) {
                let offset = choose|offset: int| #[trigger]
                    is_member_boundary(left, start, offset) && offset + 16 <= i < offset + 28;
                lemma_boundaries_are_apart(left, start, offset);
            }
        }
        assert(left =~= right);
    } else {
        let size = member_size(left, start)->0;
        let next = next_member(start, size);
        assert forall|i: int|
            0 <= i < start + MEMBER_HEADER_LEN && !(start + 16 <= i < start + 28) implies left[i]
            == right[i] by {
            if is_timestamp(left, start, i) {
                let offset = choose|offset: int| #[trigger]
                    is_member_boundary(left, start, offset) && offset + 16 <= i < offset + 28;
                lemma_boundaries_are_apart(left, start, offset);
            }
        }
        assert(left.subrange(start + 48, start + 58) =~= right.subrange(start + 48, start + 58));
        assert(member_size(left, start) == member_size(right, start));
        let l = blanked(left, start);
        let r = blanked(right, start);
        assert forall|i: int| 0 <= i < l.len() && !is_timestamp(l, next, i) implies #[trigger] l[i]
            == r[i] by {
            if !(start + 16 <= i < start + 28) && is_timestamp(left, start, i) {
                let offset = choose|offset: int| #[trigger]
                    is_member_boundary(left, start, offset) && offset + 16 <= i < offset + 28;
                assert(is_member_boundary(left, next, offset));
                lemma_boundary_after_blanking(left, start, next, offset);
                assert(is_member_boundary(l, next, offset));
            }
        }
        lemma_timestamps_are_ignored(l, r, next);
    }
}

/// Archives that agree but for the timestamps of their members, however many of
/// them differ, normalize to the same bytes.
pub proof fn law_timestamps_are_ignored(left: Seq<u8>, right: Seq<u8>)
    requires
        archive_mark().is_prefix_of(left),
        agree_but_for_timestamps(left, right, archive_mark().len() as int),
        blanked_from(left, archive_mark().len() as int) is Some,
    ensures
        normalized_archive(left) == normalized_archive(right),
{
    let start = archive_mark().len() as int;
    assert forall|i: int| 0 <= i < start implies left[i] == right[i] by {
        if is_timestamp(left, start, i) {
            let offset = choose|offset: int| #[trigger]
                is_member_boundary(left, start, offset) && offset + 16 <= i < offset + 28;
            lemma_boundaries_are_apart(left, start, offset);
        }
    }
    assert(archive_mark().is_prefix_of(right)) by {
        assert(left.subrange(0, start) =~= right.subrange(0, start));
    }
    lemma_timestamps_are_ignored(left, right, start);
}

/// A member of an archive: its name, its timestamp, its owner and mode, and its
/// contents.
pub struct Member {
    pub name: Seq<u8>,
    pub timestamp: Seq<u8>,
    pub owner: Seq<u8>,
    pub contents: Seq<u8>,
}

/// Whether the fields of a member fit into a header.
pub open spec fn is_member(member: Member) -> bool {
    &&& member.name.len() == 16
    &&& member.timestamp.len() == 12
    &&& member.owner.len() == 20
    &&& decimal(member.contents.len()).len() <= 10
    &&& member.contents.len() <= usize::MAX
}

/// The size of a member, as its header writes it: decimal digits, and spaces up to
/// the end of the field.
pub open spec fn size_text(member: Member) -> Seq<char> {
    let digits = decimal(member.contents.len());
    digits + Seq::new((10 - digits.len()) as nat, |i: int| ' ')
}

/// A member as an archive holds it: the header, the contents, and a byte more
/// where their length is odd.
pub open spec fn member_bytes(member: Member) -> Seq<u8> {
    member.name + member.timestamp + member.owner + utf8(size_text(member)) + seq![0x60u8, 0x0au8]
        + member.contents + if member.contents.len() % 2 == 1 {
        seq![0x0au8]
    } else {
        Seq::empty()
    }
}

/// Members one behind the other.
pub open spec fn members_bytes(members: Seq<Member>) -> Seq<u8>
    decreases members.len(),
{
    if members.len() == 0 {
        Seq::empty()
    } else {
        member_bytes(members[0]) + members_bytes(members.drop_first())
    }
}

/// A member without its timestamp.
pub open spec fn without_timestamp(member: Member) -> Member {
    Member { timestamp: Seq::new(12, |i: int| 0x30u8), ..member }
}

/// Numbers are written with the digits.
proof fn lemma_decimal_characters(number: nat)
    ensures
        forall|i: int|
            0 <= i < decimal(number).len() ==> '0' <= #[trigger] decimal(number)[i] <= '9',
    decreases number,
{
    let text = decimal(number);
    if number >= 10 {
        lemma_decimal_characters(number / 10);
        let front = decimal(number / 10);
        assert forall|i: int| 0 <= i < text.len() implies '0' <= #[trigger] text[i] <= '9' by {
            if i < front.len() {
                assert(text[i] == front[i]);
            } else {
                assert(text[i] == digit_of(number % 10));
            }
        }
    }
}

/// The header of a member tells its size.
proof fn lemma_size_text(member: Member)
    requires
        is_member(member),
    ensures
        utf8(size_text(member)).len() == 10,
        valid_utf8(utf8(size_text(member))),
        parsed(trimmed(decode_utf8(utf8(size_text(member)))), usize::MAX as nat) == Some(
            member.contents.len(),
        ),
{
    let digits = decimal(member.contents.len());
    let spaces = Seq::new((10 - digits.len()) as nat, |i: int| ' ');
    let text = size_text(member);
    lemma_decimal_digits(member.contents.len());
    lemma_decimal_characters(member.contents.len());
    assert forall|i: int| 0 <= i < text.len() implies '\0' <= #[trigger] text[i] <= '\u{7f}' by {
        if i < digits.len() {
            assert(text[i] == digits[i]);
        } else {
            assert(spaces[i - digits.len()] == ' ');
            assert(text[i] == ' ');
        }
    }
    assert(is_ascii_chars(text));
    is_ascii_chars_encode_utf8(text);
    encode_utf8_valid_utf8(text);
    encode_utf8_decode_utf8(text);
    assert forall|i: int| 0 <= i < spaces.len() implies is_blank(#[trigger] spaces[i]) by {}
    assert(is_digit(digits[0]));
    assert(is_digit(digits[digits.len() - 1]));
    law_blanks_are_trimmed(Seq::empty(), digits, spaces);
    assert(text =~= digits + spaces);
    assert(Seq::<char>::empty() + digits + spaces =~= text);
    law_decimal_round_trip(member.contents.len(), usize::MAX as nat);
}

/// The timestamps of members are blanked out, one behind the other.
proof fn lemma_members_blanked(front: Seq<u8>, members: Seq<Member>)
    requires
        forall|i: int| 0 <= i < members.len() ==> is_member(#[trigger] members[i]),
    ensures
        blanked_from(front + members_bytes(members), front.len() as int) == Some(
            front + members_bytes(members.map_values(|member: Member| without_timestamp(member))),
        ),
    decreases members.len(),
{
    let blank = |member: Member| without_timestamp(member);
    let bytes = front + members_bytes(members);
    let offset = front.len() as int;
    if members.len() == 0 {
        assert(members.map_values(blank) =~= Seq::empty());
    } else {
        let member = members[0];
        let rest = members.drop_first();
        assert(is_member(member));
        lemma_size_text(member);
        let one = member_bytes(member);
        let field = utf8(size_text(member));
        assert(bytes =~= front + one + members_bytes(rest));
        assert(bytes.subrange(offset + 48, offset + 58) =~= field);
        assert(bytes[offset + 58] == 0x60);
        assert(bytes[offset + 59] == 0x0a);
        let size = member.contents.len();
        assert(member_size(bytes, offset) == Some(size));
        assert(next_member(offset, size) == offset + one.len());
        let bare = member_bytes(without_timestamp(member));
        assert(size_text(without_timestamp(member)) == size_text(member));
        assert(bare.len() == one.len());
        assert(blanked(bytes, offset) =~= front + bare + members_bytes(rest));
        assert forall|i: int| 0 <= i < rest.len() implies is_member(#[trigger] rest[i]) by {
            assert(rest[i] == members[i + 1]);
        }
        lemma_members_blanked(front + bare, rest);
        let others = members.map_values(blank);
        assert(others[0] == without_timestamp(member));
        assert(others.drop_first() =~= rest.map_values(blank));
        assert(front + bare + members_bytes(rest.map_values(blank)) =~= front + members_bytes(
            others,
        ));
    }
}

/// An archive is normalized to the archive of the same members without their
/// timestamps: names, owners, sizes and contents stay, in the same order.
pub proof fn law_only_timestamps_are_blanked(members: Seq<Member>)
    requires
        forall|i: int| 0 <= i < members.len() ==> is_member(#[trigger] members[i]),
    ensures
        normalized_archive(utf8("!<arch>\n"@) + members_bytes(members)) == utf8("!<arch>\n"@)
            + members_bytes(members.map_values(|member: Member| without_timestamp(member))),
{
    let mark = utf8("!<arch>\n"@);
    let bytes = mark + members_bytes(members);
    assert(mark.is_prefix_of(bytes)) by {
        assert(bytes.take(mark.len() as int) =~= mark);
    }
    lemma_members_blanked(mark, members);
}

/// What is no archive is left as it is.
pub proof fn law_other_files_are_not_normalized(bytes: Seq<u8>)
    requires
        !utf8("!<arch>\n"@).is_prefix_of(bytes),
    ensures
        normalized_archive(bytes) == bytes,
{
}

} // verus!
