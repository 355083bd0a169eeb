//! The metadata that an archive keeps for linking: which of its members are
//! object files, and digests of them.

use vstd::bytes::lemma_auto_spec_u64_to_from_le_bytes;
use vstd::bytes::spec_u64_from_le_bytes;
use vstd::bytes::spec_u64_to_le_bytes;
use vstd::bytes::spec_u64_to_le_bytes_to_open;
use vstd::bytes::u64_from_le_bytes;
use vstd::bytes::u64_to_le_bytes;
use vstd::prelude::*;
use vstd::slice::slice_subrange;
use vstd::string::*;
use vstd::utf8::*;

use crate::bytes::bytes_equal;
use crate::bytes::copy_bytes;
use crate::bytes::optional;
use crate::bytes::optional_text;
use crate::bytes::push_bytes;
use crate::bytes::push_text;
use crate::bytes::utf8;
use crate::digest::blake3_hex;
use crate::digest::hex_digest;
use crate::digest::is_blake3_hex_digest;
use crate::digest::is_hex_digest;
use crate::digest::text_from_utf8;
use crate::input_laws::held;
use crate::input_laws::lemma_held;
use crate::input_laws::lemma_held_self;
use crate::text::texts;

verus! {

/// The name of the archive member.
pub const FILENAME: &'static str = "lib.rmeta-link";

/// The section of the member that holds the metadata.
pub const SECTION: &'static str = ".rmeta-link";

/// The mark before the digest of the link contents.
pub open spec fn link_content_mark() -> Seq<u8> {
    utf8("rustc-rlib-link-content-v1:"@)
}

/// The mark before the digests of object files.
pub open spec fn raw_object_mark() -> Seq<u8> {
    utf8("rustc-rlib-raw-object-digests-v1:"@)
}

/// The mark at the end.
pub open spec fn end_mark() -> Seq<u8> {
    utf8("rust-end-file"@)
}

/// The byte behind every text.
pub const TEXT_END: u8 = 0xc1;

/// The digest of an object file of an archive.
#[derive(Clone, Debug, PartialEq, Eq)]
pub struct RawObjectDigest {
    pub member_name: String,
    pub digest: String,
}

/// A name and a digest.
pub type Named = (Seq<char>, Seq<char>);

/// Digests as plain texts.
pub open spec fn named(list: Seq<RawObjectDigest>) -> Seq<Named> {
    list.map_values(|object: RawObjectDigest| (object.member_name@, object.digest@))
}

/// Metadata for linking.
pub struct RmetaLink {
    pub rust_object_files: Vec<String>,
    pub raw_object_digests: Option<Vec<RawObjectDigest>>,
    pub link_content_digest: Option<String>,
}

/// Metadata for linking, as plain values.
#[verifier::ext_equal]
pub struct Link {
    pub files: Seq<Seq<char>>,
    pub objects: Option<Seq<Named>>,
    pub digest: Option<Seq<char>>,
}

/// Digests of object files, as plain values.
pub open spec fn named_objects(objects: Option<Vec<RawObjectDigest>>) -> Option<Seq<Named>> {
    match objects {
        Some(objects) => Some(named(objects@)),
        None => None,
    }
}

impl View for RmetaLink {
    type V = Link;

    open spec fn view(&self) -> Link {
        Link {
            files: texts(self.rust_object_files@),
            objects: named_objects(self.raw_object_digests),
            digest: optional_text(self.link_content_digest),
        }
    }
}

/// A number in groups of seven bits, the lowest first. All but the last have
/// their highest bit set.
pub open spec fn groups(value: nat) -> Seq<u8>
    decreases value,
{
    if value < 128 {
        seq![value as u8]
    } else {
        seq![(value % 128 + 128) as u8] + groups(value / 128)
    }
}

/// The number that starts `bytes`, and how many bytes it takes, where it ends
/// within `limit` bytes and fits.
pub open spec fn number_at(bytes: Seq<u8>, limit: nat) -> Option<(int, int)>
    decreases limit,
{
    if limit == 0 || bytes.len() == 0 {
        None
    } else if bytes[0] < 128 {
        Some((bytes[0] as int, 1))
    } else {
        match number_at(bytes.drop_first(), (limit - 1) as nat) {
            None => None,
            Some((high, length)) => if bytes[0] - 128 + 128 * high <= u64::MAX {
                Some((bytes[0] - 128 + 128 * high, length + 1))
            } else {
                None
            },
        }
    }
}

/// How many bytes a number takes at most.
pub const NUMBER_LIMIT: usize = 10;

/// A text in the list of object files: its length, its bytes, and a byte that
/// is in no text.
pub open spec fn text_item(text: Seq<char>) -> Seq<u8> {
    groups(utf8(text).len()) + utf8(text) + seq![TEXT_END]
}

/// Texts one behind the other.
pub open spec fn text_items(list: Seq<Seq<char>>) -> Seq<u8>
    decreases list.len(),
{
    if list.len() == 0 {
        Seq::empty()
    } else {
        text_items(list.drop_last()) + text_item(list.last())
    }
}

/// The list of object files: how many there are, and their names.
pub open spec fn text_list(list: Seq<Seq<char>>) -> Seq<u8> {
    groups(list.len()) + text_items(list)
}

/// The text that starts `bytes`, and what is behind it.
pub open spec fn text_at(bytes: Seq<u8>) -> Option<(Seq<char>, Seq<u8>)> {
    match number_at(bytes, NUMBER_LIMIT as nat) {
        None => None,
        Some((count, length)) => {
            let rest = bytes.skip(length);
            if count >= rest.len() || rest[count] != TEXT_END || !valid_utf8(rest.take(count)) {
                None
            } else {
                Some((decode_utf8(rest.take(count)), rest.skip(count + 1)))
            }
        },
    }
}

/// The texts that start `bytes`.
pub open spec fn texts_at(bytes: Seq<u8>, count: nat) -> Option<Seq<Seq<char>>>
    decreases count,
{
    if count == 0 {
        Some(Seq::empty())
    } else {
        match text_at(bytes) {
            None => None,
            Some((text, rest)) => match texts_at(rest, (count - 1) as nat) {
                None => None,
                Some(list) => Some(seq![text] + list),
            },
        }
    }
}

/// The list of texts that starts `bytes`.
pub open spec fn list_at(bytes: Seq<u8>) -> Option<Seq<Seq<char>>> {
    match number_at(bytes, NUMBER_LIMIT as nat) {
        None => None,
        Some((count, length)) => texts_at(bytes.skip(length), count as nat),
    }
}

/// Appends a number.
fn push_number(out: &mut Vec<u8>, value: usize)
    ensures
        final(out)@ == old(out)@ + groups(value as nat),
{
    let ghost before = out@;
    let mut rest: usize = value;
    while rest >= 128
        invariant
            before + groups(value as nat) == out@ + groups(rest as nat),
        decreases rest,
    {
        let ghost so_far = out@;
        let group: u8 = (rest % 128 + 128) as u8;
        out.push(group);
        proof {
            assert(so_far + (seq![group] + groups((rest / 128) as nat)) =~= out@ + groups(
                (rest / 128) as nat,
            ));
        }
        rest = rest / 128;
    }
    let group: u8 = rest as u8;
    out.push(group);
    proof {
        assert(out@ =~= before + groups(value as nat));
    }
}

/// The number that starts `bytes` at `at`, and the position behind it.
fn read_number(bytes: &[u8], at: usize, limit: usize) -> (number: Option<(u64, usize)>)
    requires
        at <= bytes@.len(),
    ensures
        match (number, number_at(bytes@.skip(at as int), limit as nat)) {
            (Some((value, end)), Some((expected, length))) => value == expected && end == at
                + length && at < end <= bytes@.len(),
            (None, None) => true,
            _ => false,
        },
    decreases limit,
{
    if limit == 0 || at == bytes.len() {
        return None;
    }
    let ghost rest = bytes@.skip(at as int);
    let byte: u8 = bytes[at];
    proof {
        assert(rest[0] == byte);
        assert(rest.drop_first() =~= bytes@.skip(at + 1));
    }
    if byte < 128 {
        return Some((byte as u64, at + 1));
    }
    match read_number(bytes, at + 1, limit - 1) {
        None => None,
        Some((high, end)) => {
            let low: u64 = (byte - 128) as u64;
            if high > (u64::MAX - low) / 128 {
                proof {
                    assert(low + 128 * high > u64::MAX) by (nonlinear_arith)
                        requires
                            high > (u64::MAX - low) / 128,
                            low < 128,
                    ;
                }
                None
            } else {
                proof {
                    assert(low + 128 * high <= u64::MAX) by (nonlinear_arith)
                        requires
                            high <= (u64::MAX - low) / 128,
                            low < 128,
                    ;
                }
                Some((low + 128 * high, end))
            }
        },
    }
}

/// Appends a list of texts.
fn push_text_list(out: &mut Vec<u8>, list: &Vec<String>)
    ensures
        final(out)@ == old(out)@ + text_list(texts(list@)),
{
    let ghost before = out@;
    let ghost all = texts(list@);
    push_number(out, list.len());
    let ghost start = out@;
    let mut index: usize = 0;
    proof {
        assert(all.take(0) =~= Seq::empty());
        assert(start + text_items(all.take(0)) =~= start);
    }
    while index < list.len()
        invariant
            index <= list@.len(),
            all == texts(list@),
            out@ == start + text_items(all.take(index as int)),
        decreases list@.len() - index,
    {
        let ghost so_far = out@;
        let bytes = list[index].as_str().as_bytes();
        push_number(out, bytes.len());
        push_bytes(out, bytes);
        out.push(TEXT_END);
        proof {
            assert(all.take(index + 1).drop_last() =~= all.take(index as int));
            assert(all.take(index + 1).last() == list@[index as int]@);
            assert(out@ =~= so_far + text_item(list@[index as int]@));
            assert(out@ =~= start + text_items(all.take(index + 1)));
        }
        index = index + 1;
    }
    proof {
        assert(all.take(index as int) =~= all);
        assert(out@ =~= before + text_list(all));
    }
}

/// The list of texts that starts `bytes`.
fn read_text_list(bytes: &[u8]) -> (list: Option<Vec<String>>)
    ensures
        match (list, list_at(bytes@)) {
            (Some(list), Some(expected)) => texts(list@) == expected,
            (None, None) => true,
            _ => false,
        },
{
    proof {
        assert(bytes@.skip(0) =~= bytes@);
    }
    let (count, start) = match read_number(bytes, 0, NUMBER_LIMIT) {
        Some(number) => number,
        None => {
            return None;
        },
    };
    let ghost expected = list_at(bytes@);
    let mut list: Vec<String> = Vec::new();
    let mut at: usize = start;
    let mut done: u64 = 0;
    proof {
        assert(texts(list@) =~= Seq::<Seq<char>>::empty());
        match texts_at(bytes@.skip(at as int), count as nat) {
            Some(rest) => {
                assert(texts(list@) + rest =~= rest);
            },
            None => {},
        }
    }
    while done < count
        invariant
            done <= count,
            at <= bytes@.len(),
            expected == list_at(bytes@),
            match texts_at(bytes@.skip(at as int), (count - done) as nat) {
                Some(rest) => expected == Some(texts(list@) + rest),
                None => expected is None,
            },
        decreases count - done,
    {
        let ghost rest = bytes@.skip(at as int);
        let (length, text_start) = match read_number(bytes, at, NUMBER_LIMIT) {
            Some(number) => number,
            None => {
                return None;
            },
        };
        let left: usize = bytes.len() - text_start;
        proof {
            assert(rest.skip(text_start - at) =~= bytes@.skip(text_start as int));
        }
        if length >= left as u64 {
            return None;
        }
        let end: usize = text_start + length as usize;
        proof {
            assert(bytes@.skip(text_start as int)[length as int] == bytes@[end as int]);
        }
        if bytes[end] != TEXT_END {
            return None;
        }
        let piece = slice_subrange(bytes, text_start, end);
        proof {
            assert(piece@ =~= bytes@.skip(text_start as int).take(length as int));
        }
        match text_from_utf8(piece) {
            None => {
                return None;
            },
            Some(text) => {
                let ghost before = texts(list@);
                proof {
                    encode_utf8_decode_utf8(text@);
                    assert(bytes@.skip(text_start as int).skip(length + 1) =~= bytes@.skip(
                        end + 1,
                    ));
                    assert(text_at(rest) == Some((text@, bytes@.skip(end + 1))));
                }
                list.push(text.to_owned());
                at = end + 1;
                done = done + 1;
                proof {
                    assert(texts(list@) =~= before.push(text@));
                    match texts_at(bytes@.skip(at as int), (count - done) as nat) {
                        Some(tail) => {
                            assert(before + (seq![text@] + tail) =~= texts(list@) + tail);
                        },
                        None => {},
                    }
                }
            },
        }
    }
    proof {
        assert(texts(list@) + Seq::<Seq<char>>::empty() =~= texts(list@));
    }
    Some(list)
}

/// What vouches for an object file: its name and its digest.
pub open spec fn object_item(object: Named) -> Seq<u8> {
    spec_u64_to_le_bytes(utf8(object.0).len() as u64) + utf8(object.0) + utf8(object.1)
}

/// What vouches for object files, one behind the other.
pub open spec fn object_items(list: Seq<Named>) -> Seq<u8>
    decreases list.len(),
{
    if list.len() == 0 {
        Seq::empty()
    } else {
        object_items(list.drop_last()) + object_item(list.last())
    }
}

/// Object files, counted, one behind the other.
pub open spec fn object_list(list: Seq<Named>) -> Seq<u8> {
    spec_u64_to_le_bytes(list.len() as u64) + object_items(list)
}

/// Whether an object file can be vouched for: it has a name and a digest.
pub open spec fn is_named_object(object: Named) -> bool {
    object.0.len() > 0 && is_hex_digest(object.1)
}

/// Whether all object files can be vouched for.
pub open spec fn are_named_objects(list: Seq<Named>) -> bool {
    forall|i: int| 0 <= i < list.len() ==> is_named_object(#[trigger] list[i])
}

/// Whether all digests of objects are digests.
pub open spec fn have_digests(list: Seq<Named>) -> bool {
    forall|i: int| 0 <= i < list.len() ==> is_hex_digest((#[trigger] list[i]).1)
}

/// Appends a name and a digest.
fn push_object(out: &mut Vec<u8>, name: &str, digest: &str)
    ensures
        final(out)@ == old(out)@ + object_item((name@, digest@)),
{
    let ghost before = out@;
    let bytes = name.as_bytes();
    let length = u64_to_le_bytes(bytes.len() as u64);
    push_bytes(out, length.as_slice());
    push_bytes(out, bytes);
    push_bytes(out, digest.as_bytes());
    proof {
        assert(out@ =~= before + object_item((name@, digest@)));
    }
}

/// The digests of object files as bytes, where all can be vouched for.
pub fn encode_raw_object_digests(list: &Vec<RawObjectDigest>) -> (encoded: Option<Vec<u8>>)
    ensures
        optional(encoded) == if are_named_objects(named(list@)) {
            Some(object_list(named(list@)))
        } else {
            None
        },
{
    let ghost all = named(list@);
    let count = u64_to_le_bytes(list.len() as u64);
    let mut out = copy_bytes(count.as_slice());
    let ghost start = out@;
    let mut index: usize = 0;
    proof {
        assert(all.take(0) =~= Seq::empty());
        assert(start + object_items(all.take(0)) =~= start);
    }
    while index < list.len()
        invariant
            index <= list@.len(),
            all == named(list@),
            start == spec_u64_to_le_bytes(all.len() as u64),
            out@ == start + object_items(all.take(index as int)),
            forall|i: int| 0 <= i < index ==> is_named_object(#[trigger] all[i]),
        decreases list@.len() - index,
    {
        let ghost so_far = out@;
        let name = list[index].member_name.as_str();
        let digest = list[index].digest.as_str();
        proof {
            assert(all[index as int] == (name@, digest@));
            assert(all.take(index + 1).drop_last() =~= all.take(index as int));
            assert(all.take(index + 1).last() == all[index as int]);
        }
        if name.is_empty() || !is_blake3_hex_digest(digest) {
            return None;
        }
        push_object(&mut out, name, digest);
        proof {
            assert(out@ =~= start + object_items(all.take(index + 1)));
        }
        index = index + 1;
    }
    proof {
        assert(all.take(index as int) =~= all);
    }
    Some(out)
}

/// The contents that the digest of the link contents is taken of.
pub open spec fn link_contents(objects: Seq<Named>) -> Seq<u8> {
    utf8("rustc-rlib-link-content-v1"@) + object_list(objects)
}

/// The digest of the object files of an archive, in their order, where each has
/// a digest.
pub fn link_content_digest(objects: &Vec<(&str, &str)>) -> (digest: Option<String>)
    ensures
        ({
            let list = objects@.map_values(|object: (&str, &str)| (object.0@, object.1@));
            optional_text(digest) == if have_digests(list) {
                Some(hex_digest(link_contents(list)))
            } else {
                None
            }
        }),
{
    let ghost all = objects@.map_values(|object: (&str, &str)| (object.0@, object.1@));
    let mut contents: Vec<u8> = Vec::new();
    push_text(&mut contents, "rustc-rlib-link-content-v1");
    let count = u64_to_le_bytes(objects.len() as u64);
    push_bytes(&mut contents, count.as_slice());
    let ghost start = contents@;
    let mut index: usize = 0;
    proof {
        assert(all.take(0) =~= Seq::empty());
        assert(start + object_items(all.take(0)) =~= start);
    }
    while index < objects.len()
        invariant
            index <= objects@.len(),
            all == objects@.map_values(|object: (&str, &str)| (object.0@, object.1@)),
            contents@ == start + object_items(all.take(index as int)),
            forall|i: int| 0 <= i < index ==> is_hex_digest((#[trigger] all[i]).1),
        decreases objects@.len() - index,
    {
        let (name, digest) = objects[index];
        proof {
            assert(all[index as int] == (name@, digest@));
            assert(all.take(index + 1).drop_last() =~= all.take(index as int));
            assert(all.take(index + 1).last() == all[index as int]);
        }
        if !is_blake3_hex_digest(digest) {
            return None;
        }
        push_object(&mut contents, name, digest);
        proof {
            assert(contents@ =~= start + object_items(all.take(index + 1)));
        }
        index = index + 1;
    }
    proof {
        assert(all.take(index as int) =~= all);
        assert(contents@ =~= link_contents(all));
    }
    Some(blake3_hex(contents.as_slice()))
}

/// The digest that ends `data` behind its mark.
pub open spec fn digest_suffix(data: Seq<u8>) -> Option<Seq<char>> {
    let start = data.len() - link_content_mark().len() - 64;
    let digest = data.skip(data.len() - 64);
    if start < 0 || data.subrange(start, data.len() - 64) != link_content_mark() || !valid_utf8(
        digest,
    ) || !is_hex_digest(decode_utf8(digest)) {
        None
    } else {
        Some(decode_utf8(digest))
    }
}

/// `data` without the digest that ends it.
pub open spec fn before_digest(data: Seq<u8>) -> Seq<u8> {
    if digest_suffix(data) is Some {
        data.take(data.len() - link_content_mark().len() - 64)
    } else {
        data
    }
}

/// `data` without the mark that ends it.
pub open spec fn before_end(data: Seq<u8>) -> Option<Seq<u8>> {
    let start = data.len() - end_mark().len();
    if start >= 0 && data.skip(start) == end_mark() {
        Some(data.take(start))
    } else {
        None
    }
}

/// The digest that ends `data` behind its mark.
fn read_digest_suffix(data: &[u8]) -> (digest: Option<String>)
    ensures
        optional_text(digest) == digest_suffix(data@),
{
    let mark = "rustc-rlib-link-content-v1:".as_bytes();
    if data.len() < 64 || data.len() - 64 < mark.len() {
        return None;
    }
    let digest_start: usize = data.len() - 64;
    let start: usize = digest_start - mark.len();
    let found = slice_subrange(data, start, digest_start);
    if !bytes_equal(found, mark) {
        return None;
    }
    let digest = slice_subrange(data, digest_start, data.len());
    proof {
        assert(digest@ =~= data@.skip(data@.len() - 64));
    }
    match text_from_utf8(digest) {
        None => None,
        Some(text) => {
            proof {
                encode_utf8_decode_utf8(text@);
            }
            if is_blake3_hex_digest(text) {
                Some(text.to_owned())
            } else {
                None
            }
        },
    }
}

/// `data` without the digest that ends it.
fn strip_link_content_digest_suffix(data: &[u8]) -> (rest: &[u8])
    ensures
        rest@ == before_digest(data@),
{
    let mark = "rustc-rlib-link-content-v1:".as_bytes();
    match read_digest_suffix(data) {
        None => data,
        Some(_) => {
            let rest = slice_subrange(data, 0, data.len() - 64 - mark.len());
            proof {
                assert(rest@ =~= before_digest(data@));
            }
            rest
        },
    }
}

/// `data` without the mark that ends it.
fn strip_end(data: &[u8]) -> (rest: Option<&[u8]>)
    ensures
        match (rest, before_end(data@)) {
            (Some(rest), Some(expected)) => rest@ == expected,
            (None, None) => true,
            _ => false,
        },
{
    let mark = "rust-end-file".as_bytes();
    if data.len() < mark.len() {
        return None;
    }
    let start: usize = data.len() - mark.len();
    let found = slice_subrange(data, start, data.len());
    proof {
        assert(found@ =~= data@.skip(start as int));
    }
    if !bytes_equal(found, mark) {
        return None;
    }
    let rest = slice_subrange(data, 0, start);
    proof {
        assert(rest@ =~= data@.take(start as int));
    }
    Some(rest)
}

/// The digest of the link contents that `data` holds.
pub fn decode_link_content_digest(data: &[u8]) -> (digest: Option<String>)
    ensures
        optional_text(digest) == match before_end(data@) {
            Some(body) => digest_suffix(body),
            None => None,
        },
{
    match strip_end(data) {
        Some(body) => read_digest_suffix(body),
        None => None,
    }
}

/// The name and digest that start `payload`, and what is behind them.
pub open spec fn object_at(payload: Seq<u8>) -> Option<(Named, Seq<u8>)> {
    let length = spec_u64_from_le_bytes(payload.take(8)) as int;
    let rest = payload.skip(8);
    let name = rest.take(length);
    let digest = rest.subrange(length, length + 64);
    if payload.len() < 8 || length + 64 > rest.len() || !valid_utf8(name) || !valid_utf8(digest)
        || !is_named_object((decode_utf8(name), decode_utf8(digest))) {
        None
    } else {
        Some(((decode_utf8(name), decode_utf8(digest)), rest.skip(length + 64)))
    }
}

/// The names and digests that `payload` is made of.
pub open spec fn objects_at(payload: Seq<u8>, count: nat) -> Option<Seq<Named>>
    decreases count,
{
    if count == 0 {
        if payload.len() == 0 {
            Some(Seq::empty())
        } else {
            None
        }
    } else {
        match object_at(payload) {
            None => None,
            Some((object, rest)) => match objects_at(rest, (count - 1) as nat) {
                None => None,
                Some(list) => Some(seq![object] + list),
            },
        }
    }
}

/// The digests of object files that a counted list holds. A count that cannot
/// be right is refused at once.
pub open spec fn counted_objects(payload: Seq<u8>) -> Option<Seq<Named>> {
    let count = spec_u64_from_le_bytes(payload.take(8)) as int;
    if payload.len() < 8 || count > (payload.len() - 8) / 72 {
        None
    } else {
        objects_at(payload.skip(8), count as nat)
    }
}

/// The digests of object files that end `data`: their mark, the counted list,
/// and its length.
pub open spec fn object_trailer(data: Seq<u8>) -> Option<Seq<Named>> {
    let end = data.len() - 8;
    let length = spec_u64_from_le_bytes(data.skip(end)) as int;
    let start = end - length - raw_object_mark().len();
    if end < 0 || start < 0 || data.subrange(start, end - length) != raw_object_mark() {
        None
    } else {
        counted_objects(data.subrange(end - length, end))
    }
}

/// The digests of object files that `data` holds before its end and the digest
/// of the link contents.
pub open spec fn raw_objects(data: Seq<u8>) -> Option<Seq<Named>> {
    match before_end(data) {
        Some(body) => object_trailer(before_digest(body)),
        None => None,
    }
}

/// The name and digest at `at`, and the position behind them.
fn read_object(payload: &[u8], at: usize) -> (object: Option<(RawObjectDigest, usize)>)
    requires
        at <= payload@.len(),
    ensures
        match (object, object_at(payload@.skip(at as int))) {
            (Some((object, end)), Some((expected, rest))) => (
                object.member_name@,
                object.digest@,
            ) == expected && end <= payload@.len() && payload@.skip(end as int) == rest,
            (None, None) => true,
            _ => false,
        },
{
    let ghost whole = payload@.skip(at as int);
    if payload.len() - at < 8 {
        return None;
    }
    let head = slice_subrange(payload, at, at + 8);
    proof {
        assert(head@ =~= whole.take(8));
        assert(whole.skip(8) =~= payload@.skip(at + 8));
    }
    let length: u64 = u64_from_le_bytes(head);
    let start: usize = at + 8;
    let left: usize = payload.len() - start;
    if left < 64 || length > (left - 64) as u64 {
        return None;
    }
    let middle: usize = start + length as usize;
    let name = slice_subrange(payload, start, middle);
    let digest = slice_subrange(payload, middle, middle + 64);
    let ghost rest = whole.skip(8);
    proof {
        assert(name@ =~= rest.take(length as int));
        assert(digest@ =~= rest.subrange(length as int, length + 64));
        assert(rest.skip(length + 64) =~= payload@.skip(middle + 64));
    }
    match (text_from_utf8(name), text_from_utf8(digest)) {
        (Some(name_text), Some(digest_text)) => {
            proof {
                encode_utf8_decode_utf8(name_text@);
                encode_utf8_decode_utf8(digest_text@);
            }
            if name_text.is_empty() || !is_blake3_hex_digest(digest_text) {
                return None;
            }
            Some(
                (
                    RawObjectDigest {
                        member_name: name_text.to_owned(),
                        digest: digest_text.to_owned(),
                    },
                    middle + 64,
                ),
            )
        },
        _ => None,
    }
}

/// The digests of object files that a counted list holds.
fn read_counted_objects(payload: &[u8]) -> (list: Option<Vec<RawObjectDigest>>)
    ensures
        named_objects(list) == counted_objects(payload@),
{
    if payload.len() < 8 {
        return None;
    }
    let head = slice_subrange(payload, 0, 8);
    proof {
        assert(head@ =~= payload@.take(8));
    }
    let count: u64 = u64_from_le_bytes(head);
    if count > ((payload.len() - 8) / 72) as u64 {
        return None;
    }
    let ghost expected = counted_objects(payload@);
    let mut list: Vec<RawObjectDigest> = Vec::new();
    let mut at: usize = 8;
    let mut done: u64 = 0;
    proof {
        assert(named(list@) =~= Seq::<Named>::empty());
        match objects_at(payload@.skip(at as int), count as nat) {
            Some(rest) => {
                assert(named(list@) + rest =~= rest);
            },
            None => {},
        }
    }
    while done < count
        invariant
            done <= count,
            at <= payload@.len(),
            expected == counted_objects(payload@),
            match objects_at(payload@.skip(at as int), (count - done) as nat) {
                Some(rest) => expected == Some(named(list@) + rest),
                None => expected is None,
            },
        decreases count - done,
    {
        match read_object(payload, at) {
            None => {
                return None;
            },
            Some((object, end)) => {
                let ghost before = named(list@);
                let ghost plain = (object.member_name@, object.digest@);
                list.push(object);
                at = end;
                done = done + 1;
                proof {
                    assert(named(list@) =~= before.push(plain));
                    match objects_at(payload@.skip(at as int), (count - done) as nat) {
                        Some(tail) => {
                            assert(before + (seq![plain] + tail) =~= named(list@) + tail);
                        },
                        None => {},
                    }
                }
            },
        }
    }
    proof {
        assert(named(list@) + Seq::<Named>::empty() =~= named(list@));
    }
    if at == payload.len() {
        Some(list)
    } else {
        None
    }
}

/// The digests of object files that `data` holds.
pub fn decode_raw_object_digests(data: &[u8]) -> (list: Option<Vec<RawObjectDigest>>)
    ensures
        named_objects(list) == raw_objects(data@),
{
    let body = match strip_end(data) {
        Some(body) => strip_link_content_digest_suffix(body),
        None => {
            return None;
        },
    };
    let mark = "rustc-rlib-raw-object-digests-v1:".as_bytes();
    if body.len() < 8 {
        return None;
    }
    let end: usize = body.len() - 8;
    let tail = slice_subrange(body, end, body.len());
    proof {
        assert(tail@ =~= body@.skip(end as int));
    }
    let length: u64 = u64_from_le_bytes(tail);
    if length > end as u64 || end - (length as usize) < mark.len() {
        return None;
    }
    let middle: usize = end - length as usize;
    let start: usize = middle - mark.len();
    if !bytes_equal(slice_subrange(body, start, middle), mark) {
        return None;
    }
    read_counted_objects(slice_subrange(body, middle, end))
}

/// The digests of object files with their mark and their length, where all can
/// be vouched for.
pub open spec fn object_part(objects: Option<Seq<Named>>) -> Seq<u8> {
    match objects {
        Some(list) => if are_named_objects(list) {
            raw_object_mark() + object_list(list) + spec_u64_to_le_bytes(
                object_list(list).len() as u64,
            )
        } else {
            Seq::empty()
        },
        None => Seq::empty(),
    }
}

/// The digest of the link contents with its mark, where it is a digest.
pub open spec fn digest_part(digest: Option<Seq<char>>) -> Seq<u8> {
    match digest {
        Some(digest) => if is_hex_digest(digest) {
            link_content_mark() + utf8(digest)
        } else {
            Seq::empty()
        },
        None => Seq::empty(),
    }
}

/// Metadata for linking as bytes.
pub open spec fn encoded_link(link: Link) -> Seq<u8> {
    text_list(link.files) + object_part(link.objects) + digest_part(link.digest) + end_mark()
}

/// The metadata for linking that bytes hold, where they end in the mark and
/// start with a list of object files.
pub open spec fn decoded_link(data: Seq<u8>) -> Option<Link> {
    match before_end(data) {
        None => None,
        Some(body) => Some(
            Link {
                files: list_at(body)->Some_0,
                objects: object_trailer(before_digest(body)),
                digest: digest_suffix(body),
            },
        ),
    }
}

/// Whether bytes that end in the mark start with a list of object files.
pub open spec fn lists_files(data: Seq<u8>) -> bool {
    match before_end(data) {
        None => true,
        Some(body) => list_at(body) is Some,
    }
}

/// Whether bytes that end in the mark start with a list of object files.
pub fn lists_object_files(data: &[u8]) -> (listed: bool)
    ensures
        listed == lists_files(data@),
{
    match strip_end(data) {
        None => true,
        Some(body) => read_text_list(body).is_some(),
    }
}

impl RmetaLink {
    /// The metadata as bytes. Digests that are none are left out.
    pub fn encode(&self) -> (data: Vec<u8>)
        ensures
            data@ == encoded_link(self@),
    {
        let mut data: Vec<u8> = Vec::new();
        push_text_list(&mut data, &self.rust_object_files);
        let ghost first = data@;
        if let Some(list) = &self.raw_object_digests {
            if let Some(encoded) = encode_raw_object_digests(list) {
                push_text(&mut data, "rustc-rlib-raw-object-digests-v1:");
                push_bytes(&mut data, encoded.as_slice());
                let length = u64_to_le_bytes(encoded.len() as u64);
                push_bytes(&mut data, length.as_slice());
            }
        }
        proof {
            assert(data@ =~= first + object_part(self@.objects));
        }
        let ghost second = data@;
        if let Some(digest) = &self.link_content_digest {
            if is_blake3_hex_digest(digest.as_str()) {
                push_text(&mut data, "rustc-rlib-link-content-v1:");
                push_bytes(&mut data, digest.as_str().as_bytes());
            }
        }
        proof {
            assert(data@ =~= second + digest_part(self@.digest));
        }
        push_text(&mut data, "rust-end-file");
        proof {
            assert(data@ =~= encoded_link(self@));
        }
        data
    }

    /// The metadata that bytes hold. There are none where the bytes do not end
    /// in the mark.
    pub fn decode(data: &[u8]) -> (link: Option<RmetaLink>)
        requires
            lists_files(data@),
        ensures
            match link {
                Some(link) => decoded_link(data@) == Some(link@),
                None => decoded_link(data@) is None,
            },
    {
        let body = match strip_end(data) {
            Some(body) => body,
            None => {
                return None;
            },
        };
        match read_text_list(body) {
            None => None,
            Some(rust_object_files) => {
                let raw_object_digests = decode_raw_object_digests(data);
                let link_content_digest = decode_link_content_digest(data);
                Some(RmetaLink { rust_object_files, raw_object_digests, link_content_digest })
            },
        }
    }
}

/// A member of an archive: its name, and its data where they can be read.
pub struct ArchiveMember {
    pub name: Vec<u8>,
    pub data: Option<Vec<u8>>,
}

/// A member as plain values. A member whose header cannot be read is `None`.
pub type Member = Option<(Seq<u8>, Option<Seq<u8>>)>;

/// Members as plain values.
pub open spec fn plain_members(list: Seq<Option<ArchiveMember>>) -> Seq<Member> {
    list.map_values(
        |member: Option<ArchiveMember>|
            match member {
                Some(member) => Some((member.name@, optional(member.data))),
                None => None,
            },
    )
}

/// The members of an archive as `object::read::archive::ArchiveFile` gives
/// them, in their order. `None` where the archive itself cannot be read.
pub uninterp spec fn archive_members(archive: Seq<u8>) -> Option<
    Seq<Option<(Seq<u8>, Option<Seq<u8>>)>>,
>;

/// Calls `object::read::archive::ArchiveFile::parse` and hands out what its
/// `members` gives: the name of each member, its data, or that the member cannot
/// be read. Both depend on the bytes of the archive alone.
#[verifier::external_body]
fn members_of(archive: &[u8]) -> (members: Option<Vec<Option<ArchiveMember>>>)
    ensures
        match members {
            Some(members) => archive_members(archive@) == Some(plain_members(members@)),
            None => archive_members(archive@) is None,
        },
{
    let file = object::read::archive::ArchiveFile::parse(archive).ok()?;
    Some(
        file.members().map(
            |member|
                member.ok().map(
                    |member|
                        ArchiveMember {
                            name: member.name().to_vec(),
                            data: member.data(archive).ok().map(|data| data.to_vec()),
                        },
                ),
        ).collect(),
    )
}

/// The data of the first member with the metadata. There are none where a
/// member before it cannot be read.
pub open spec fn link_member(members: Seq<Member>) -> Option<Seq<u8>>
    decreases members.len(),
{
    if members.len() == 0 {
        None
    } else {
        match members[0] {
            None => None,
            Some((name, data)) => if name == utf8(FILENAME@) {
                data
            } else {
                link_member(members.drop_first())
            },
        }
    }
}

/// The data of the first member with the metadata.
fn find_link_member(members: &Vec<Option<ArchiveMember>>) -> (data: Option<Vec<u8>>)
    ensures
        optional(data) == link_member(plain_members(members@)),
{
    let ghost all = plain_members(members@);
    let mut index: usize = 0;
    proof {
        assert(all.skip(0) =~= all);
    }
    while index < members.len()
        invariant
            index <= members@.len(),
            all == plain_members(members@),
            link_member(all) == link_member(all.skip(index as int)),
        decreases members@.len() - index,
    {
        proof {
            assert(all.skip(index as int)[0] == all[index as int]);
            assert(all.skip(index as int).drop_first() =~= all.skip(index + 1));
        }
        match &members[index] {
            None => {
                return None;
            },
            Some(member) => {
                if bytes_equal(member.name.as_slice(), FILENAME.as_bytes()) {
                    return match &member.data {
                        Some(data) => Some(copy_bytes(data.as_slice())),
                        None => None,
                    };
                }
            },
        }
        index = index + 1;
    }
    proof {
        assert(all.skip(index as int).len() == 0);
    }
    None
}

/// The data of the first member of an archive with the metadata.
pub open spec fn archive_link_member(archive: Seq<u8>) -> Option<Seq<u8>> {
    match archive_members(archive) {
        Some(members) => link_member(members),
        None => None,
    }
}

/// Whether `link` is the metadata of an archive: what the section of its member
/// with the metadata holds, where there is one.
pub open spec fn is_link_of(link: Option<RmetaLink>, archive: Seq<u8>, section: Option<&[u8]>) -> bool {
    match link {
        Some(link) => archive_link_member(archive) is Some && section is Some && decoded_link(
            section->Some_0@,
        ) == Some(link@),
        None => archive_link_member(archive) is None || section is None || decoded_link(
            section->Some_0@,
        ) is None,
    }
}

/// The object file in an archive whose section holds the metadata.
pub fn link_object(archive: &[u8]) -> (data: Option<Vec<u8>>)
    ensures
        optional(data) == archive_link_member(archive@),
{
    match members_of(archive) {
        Some(members) => find_link_member(&members),
        None => None,
    }
}

/// The metadata of an archive with the given members. `section` are the
/// contents of the section of the member with the metadata, where it has one.
pub fn read(members: &Vec<Option<ArchiveMember>>, section: Option<&[u8]>) -> (link: Option<
    RmetaLink,
>)
    requires
        link_member(plain_members(members@)) is Some && section is Some ==> lists_files(
            section->Some_0@,
        ),
    ensures
        match link {
            Some(link) => link_member(plain_members(members@)) is Some && section is Some
                && decoded_link(section->Some_0@) == Some(link@),
            None => link_member(plain_members(members@)) is None || section is None
                || decoded_link(section->Some_0@) is None,
        },
{
    match (find_link_member(members), section) {
        (Some(_), Some(data)) => RmetaLink::decode(data),
        _ => None,
    }
}

/// The metadata of an archive. `section` are the contents of the section of the
/// member with the metadata, where it has one.
pub fn read_from_data(archive: &[u8], section: Option<&[u8]>) -> (link: Option<RmetaLink>)
    requires
        archive_link_member(archive@) is Some && section is Some ==> lists_files(
            section->Some_0@,
        ),
    ensures
        is_link_of(link, archive@, section),
{
    match members_of(archive) {
        Some(members) => read(&members, section),
        None => None,
    }
}

/// The metadata of an archive, where the section of a member with the metadata
/// lists files. `Err` where it does not.
pub fn read_listed_from_data(archive: &[u8], section: Option<&[u8]>) -> (link: Result<
    Option<RmetaLink>,
    (),
>)
    ensures
        match link {
            Ok(link) => is_link_of(link, archive@, section) && (archive_link_member(
                archive@,
            ) is Some && section is Some ==> lists_files(section->Some_0@)),
            Err(_) => archive_link_member(archive@) is Some && section is Some && !lists_files(
                section->Some_0@,
            ),
        },
{
    if let Some(data) = section {
        if link_object(archive).is_some() && !lists_object_files(data) {
            return Err(());
        }
    }
    Ok(read_from_data(archive, section))
}

/// Metadata whose digests are all in order.
pub open spec fn is_sound(link: Link) -> bool {
    &&& link.objects is Some ==> are_named_objects(link.objects->Some_0)
    &&& link.digest is Some ==> is_hex_digest(link.digest->Some_0)
}

/// How many groups a number takes.
proof fn lemma_groups_length(value: nat, limit: nat)
    requires
        value < vstd::arithmetic::power::pow(128, limit),
        limit > 0,
    ensures
        1 <= groups(value).len() <= limit,
    decreases limit,
{
    vstd::arithmetic::power::lemma_pow1(128);
    if value >= 128 {
        if limit == 1 {
            assert(false);
        }
        vstd::arithmetic::power::lemma_pow_adds(128, 1, (limit - 1) as nat);
        let p = vstd::arithmetic::power::pow(128, (limit - 1) as nat);
        assert(value / 128 < p) by (nonlinear_arith)
            requires
                value < 128 * p,
        ;
        lemma_groups_length(value / 128, (limit - 1) as nat);
    }
}

/// A number is read back.
proof fn lemma_number_round_trip(value: nat, rest: Seq<u8>, limit: nat)
    requires
        value <= u64::MAX,
        groups(value).len() <= limit,
    ensures
        number_at(groups(value) + rest, limit) == Some((value as int, groups(value).len() as int)),
    decreases value,
{
    let bytes = groups(value) + rest;
    if value >= 128 {
        let tail = groups(value / 128) + rest;
        assert(bytes.drop_first() =~= tail);
        lemma_number_round_trip(value / 128, rest, (limit - 1) as nat);
        assert(bytes[0] == (value % 128 + 128) as u8);
    } else {
        assert(bytes[0] == value as u8);
        assert(groups(value).len() == 1);
    }
}

/// A number that fits is read back.
proof fn lemma_number(value: nat, rest: Seq<u8>)
    requires
        value <= u64::MAX,
    ensures
        number_at(groups(value) + rest, NUMBER_LIMIT as nat) == Some(
            (value as int, groups(value).len() as int),
        ),
        groups(value).len() >= 1,
{
    reveal_with_fuel(vstd::arithmetic::power::pow, 11);
    assert(vstd::arithmetic::power::pow(128, 10) > u64::MAX);
    lemma_groups_length(value, 10);
    lemma_number_round_trip(value, rest, 10);
}

/// A text is read back.
proof fn lemma_text_round_trip(text: Seq<char>, rest: Seq<u8>)
    requires
        utf8(text).len() <= u64::MAX,
    ensures
        text_at(text_item(text) + rest) == Some((text, rest)),
{
    let bytes = text_item(text) + rest;
    let count = utf8(text).len();
    let tail = utf8(text) + seq![TEXT_END] + rest;
    assert(bytes =~= groups(count) + tail);
    lemma_number(count, tail);
    let length = groups(count).len() as int;
    assert(bytes.skip(length) =~= tail);
    assert(tail.take(count as int) =~= utf8(text));
    assert(tail.skip(count as int + 1) =~= rest);
    encode_utf8_valid_utf8(text);
    encode_utf8_decode_utf8(text);
}

/// Texts, taken from the front.
proof fn lemma_text_items_front(list: Seq<Seq<char>>)
    requires
        list.len() > 0,
    ensures
        text_items(list) == text_item(list[0]) + text_items(list.drop_first()),
    decreases list.len(),
{
    if list.len() == 1 {
        assert(list.drop_last() =~= Seq::empty());
        assert(list.drop_first() =~= Seq::empty());
        assert(Seq::<u8>::empty() + text_item(list[0]) =~= text_item(list[0]) + Seq::<u8>::empty());
    } else {
        let before = list.drop_last();
        lemma_text_items_front(before);
        assert(before.drop_first() =~= list.drop_first().drop_last());
        assert(text_item(list[0]) + text_items(before.drop_first()) + text_item(list.last())
            =~= text_item(list[0]) + (text_items(before.drop_first()) + text_item(list.last())));
    }
}

/// Texts are read back.
proof fn lemma_texts_round_trip(list: Seq<Seq<char>>, rest: Seq<u8>)
    requires
        text_items(list).len() <= u64::MAX,
    ensures
        texts_at(text_items(list) + rest, list.len()) == Some(list),
    decreases list.len(),
{
    if list.len() > 0 {
        lemma_text_items_front(list);
        let tail = text_items(list.drop_first()) + rest;
        assert(text_items(list) + rest =~= text_item(list[0]) + tail);
        lemma_text_round_trip(list[0], tail);
        lemma_texts_round_trip(list.drop_first(), rest);
        assert(seq![list[0]] + list.drop_first() =~= list);
    } else {
        assert(list =~= Seq::empty());
    }
}

/// Every text takes at least a byte.
proof fn lemma_text_items_length(list: Seq<Seq<char>>)
    ensures
        text_items(list).len() >= list.len(),
        list.len() > 0 ==> text_items(list).last() == TEXT_END,
    decreases list.len(),
{
    if list.len() > 0 {
        lemma_text_items_length(list.drop_last());
    }
}

/// A list of texts is read back.
proof fn lemma_list_round_trip(list: Seq<Seq<char>>, rest: Seq<u8>)
    requires
        text_list(list).len() <= u64::MAX,
    ensures
        list_at(text_list(list) + rest) == Some(list),
{
    lemma_text_items_length(list);
    let tail = text_items(list) + rest;
    assert(text_list(list) + rest =~= groups(list.len()) + tail);
    lemma_number(list.len(), tail);
    assert((text_list(list) + rest).skip(groups(list.len()).len() as int) =~= tail);
    lemma_texts_round_trip(list, rest);
}

/// A digit is one byte.
proof fn lemma_digit_byte(digit: char)
    requires
        crate::digest::is_hex_digit(digit),
    ensures
        '\0' <= digit <= '\u{7f}',
        0x30 <= (digit as u8) <= 0x66,
        (digit as u8) != 0x3a,
{
}

/// The encoding of a digest: a byte for each digit.
proof fn lemma_digest_bytes(digest: Seq<char>)
    requires
        is_hex_digest(digest),
    ensures
        utf8(digest).len() == 64,
        valid_utf8(utf8(digest)),
        decode_utf8(utf8(digest)) == digest,
        forall|i: int| 0 <= i < 64 ==> #[trigger] utf8(digest)[i] == digest[i] as u8,
{
    assert forall|i: int| 0 <= i < digest.len() implies '\0' <= #[trigger] digest[i] <= '\u{7f}' by {
        lemma_digit_byte(digest[i]);
    }
    assert(is_ascii_chars(digest));
    is_ascii_chars_encode_utf8(digest);
    encode_utf8_valid_utf8(digest);
    encode_utf8_decode_utf8(digest);
}

/// A digest suffix ends in a digit.
proof fn lemma_digest_suffix_end(data: Seq<u8>)
    requires
        digest_suffix(data) is Some,
    ensures
        data.len() > 0,
        0x30 <= data.last() <= 0x66,
{
    let bytes = data.skip(data.len() - 64);
    let digest = decode_utf8(bytes);
    decode_utf8_encode_utf8(bytes);
    lemma_digest_bytes(digest);
    assert(bytes[63] == digest[63] as u8);
    lemma_digit_byte(digest[63]);
    assert(data.last() == bytes[63]);
}

/// The last byte of a number of eight bytes is its highest.
proof fn lemma_highest_byte(value: u64)
    ensures
        spec_u64_to_le_bytes(value).len() == 8,
        value <= 0x0fff_ffff_ffff_ffff ==> spec_u64_to_le_bytes(value)[7] < 0x10,
        spec_u64_to_le_bytes(value)[7] == TEXT_END ==> value >= 0xc100_0000_0000_0000,
{
    spec_u64_to_le_bytes_to_open(value);
    assert(value <= 0x0fff_ffff_ffff_ffff ==> ((value >> 56) & 0xff) as u8 <= 0x0f) by (bit_vector);
    assert(((value >> 56) & 0xff) as u8 == 0xc1 ==> value >= 0xc100_0000_0000_0000)
        by (bit_vector);
}

/// A name and a digest are read back.
proof fn lemma_object_round_trip(object: Named, rest: Seq<u8>)
    requires
        is_named_object(object),
        utf8(object.0).len() <= u64::MAX,
    ensures
        object_at(object_item(object) + rest) == Some((object, rest)),
        object_item(object).len() >= 72,
{
    lemma_auto_spec_u64_to_from_le_bytes();
    lemma_digest_bytes(object.1);
    encode_utf8_valid_utf8(object.0);
    encode_utf8_decode_utf8(object.0);
    let payload = object_item(object) + rest;
    let head = spec_u64_to_le_bytes(utf8(object.0).len() as u64);
    let tail = utf8(object.0) + utf8(object.1) + rest;
    let length = utf8(object.0).len() as int;
    assert(payload.take(8) =~= head);
    assert(payload.skip(8) =~= tail);
    assert(tail.take(length) =~= utf8(object.0));
    assert(tail.subrange(length, length + 64) =~= utf8(object.1));
    assert(tail.skip(length + 64) =~= rest);
    assert((decode_utf8(utf8(object.0)), decode_utf8(utf8(object.1))) == object);
}

/// Names and digests, taken from the front.
proof fn lemma_object_items_front(list: Seq<Named>)
    requires
        list.len() > 0,
    ensures
        object_items(list) == object_item(list[0]) + object_items(list.drop_first()),
    decreases list.len(),
{
    if list.len() == 1 {
        assert(list.drop_last() =~= Seq::empty());
        assert(list.drop_first() =~= Seq::empty());
        assert(Seq::<u8>::empty() + object_item(list[0]) =~= object_item(list[0]) + Seq::<
            u8,
        >::empty());
    } else {
        let before = list.drop_last();
        lemma_object_items_front(before);
        assert(before.drop_first() =~= list.drop_first().drop_last());
        assert(object_item(list[0]) + object_items(before.drop_first()) + object_item(list.last())
            =~= object_item(list[0]) + (object_items(before.drop_first()) + object_item(
            list.last(),
        )));
    }
}

/// Names and digests are read back.
proof fn lemma_objects_round_trip(list: Seq<Named>)
    requires
        are_named_objects(list),
        object_items(list).len() <= u64::MAX,
    ensures
        objects_at(object_items(list), list.len()) == Some(list),
        object_items(list).len() >= 72 * list.len(),
    decreases list.len(),
{
    if list.len() > 0 {
        lemma_object_items_front(list);
        let rest = list.drop_first();
        assert(is_named_object(list[0]));
        assert(are_named_objects(rest)) by {
            assert forall|i: int| 0 <= i < rest.len() implies is_named_object(
                #[trigger] rest[i],
            ) by {
                assert(rest[i] == list[i + 1]);
            }
        }
        lemma_object_round_trip(list[0], object_items(rest));
        lemma_objects_round_trip(rest);
        assert(seq![list[0]] + rest =~= list);
    } else {
        assert(list =~= Seq::empty());
    }
}

/// Digests of object files behind anything are read back.
proof fn lemma_trailer_round_trip(front: Seq<u8>, list: Seq<Named>)
    requires
        are_named_objects(list),
        object_list(list).len() <= u64::MAX,
    ensures
        object_trailer(front + object_part(Some(list))) == Some(list),
{
    lemma_auto_spec_u64_to_from_le_bytes();
    let payload = object_list(list);
    let data = front + object_part(Some(list));
    let end = data.len() - 8;
    let tail = spec_u64_to_le_bytes(payload.len() as u64);
    assert(data.skip(end) =~= tail);
    let length = payload.len() as int;
    assert(data.subrange(end - length, end) =~= payload);
    assert(data.subrange(end - length - raw_object_mark().len(), end - length)
        =~= raw_object_mark());
    lemma_objects_round_trip(list);
    assert(payload.take(8) =~= spec_u64_to_le_bytes(list.len() as u64));
    assert(payload.skip(8) =~= object_items(list));
    assert(list.len() <= (payload.len() - 8) / 72) by (nonlinear_arith)
        requires
            payload.len() - 8 >= 72 * list.len(),
    ;
}

/// Metadata whose digests are in order are read back as they were written.
/// They have to be of a size that a machine can hold.
pub proof fn law_link_round_trip(link: Link)
    requires
        is_sound(link),
        encoded_link(link).len() <= 0x7fff_ffff_ffff_ffff,
    ensures
        lists_files(encoded_link(link)),
        decoded_link(encoded_link(link)) == Some(link),
{
    let data = encoded_link(link);
    let files = text_list(link.files);
    let core = files + object_part(link.objects);
    let body = core + digest_part(link.digest);
    assert(data.skip(data.len() - end_mark().len()) =~= end_mark());
    assert(data.take(data.len() - end_mark().len()) =~= body);
    let behind = object_part(link.objects) + digest_part(link.digest);
    assert(body =~= files + behind);
    lemma_list_round_trip(link.files, behind);
    lemma_core_end(link.files, link.objects);
    match link.digest {
        Some(digest) => {
            lemma_digest_bytes(digest);
            assert(body.skip(body.len() - 64) =~= utf8(digest));
            assert(body.subrange(
                body.len() - link_content_mark().len() - 64,
                body.len() - 64,
            ) =~= link_content_mark());
            assert(digest_suffix(body) == Some(digest));
            assert(before_digest(body) =~= core);
        },
        None => {
            assert(body =~= core);
        },
    }
    assert(before_digest(body) == core);
    match link.objects {
        Some(list) => {
            lemma_trailer_round_trip(files, list);
        },
        None => {
            assert(core =~= files);
            if core.len() >= 8 {
                let tail = core.skip(core.len() - 8);
                lemma_auto_spec_u64_to_from_le_bytes();
                lemma_highest_byte(spec_u64_from_le_bytes(tail));
                assert(tail[7] == core.last());
                assert(spec_u64_to_le_bytes(spec_u64_from_le_bytes(tail)) == tail);
                lemma_groups_of_zero(link.files);
            }
        },
    }
    assert(decoded_link(data)->Some_0 =~= link);
}

/// What a name and a digest were read from is what they are written as.
proof fn lemma_object_written(payload: Seq<u8>)
    requires
        object_at(payload) is Some,
    ensures
        is_named_object(object_at(payload)->Some_0.0),
        payload == object_item(object_at(payload)->Some_0.0) + object_at(payload)->Some_0.1,
{
    lemma_auto_spec_u64_to_from_le_bytes();
    let head = payload.take(8);
    let length = spec_u64_from_le_bytes(head) as int;
    let rest = payload.skip(8);
    let name = rest.take(length);
    let digest = rest.subrange(length, length + 64);
    decode_utf8_encode_utf8(name);
    decode_utf8_encode_utf8(digest);
    assert(utf8(decode_utf8(name)) == name);
    assert(utf8(decode_utf8(digest)) == digest);
    assert(name.len() == length);
    assert(spec_u64_to_le_bytes(length as u64) == head);
    assert(payload =~= head + name + digest + rest.skip(length + 64));
}

/// What names and digests were read from is what they are written as.
proof fn lemma_objects_written(payload: Seq<u8>, count: nat)
    requires
        objects_at(payload, count) is Some,
    ensures
        objects_at(payload, count)->Some_0.len() == count,
        are_named_objects(objects_at(payload, count)->Some_0),
        payload == object_items(objects_at(payload, count)->Some_0),
    decreases count,
{
    let list = objects_at(payload, count)->Some_0;
    if count == 0 {
        assert(payload =~= object_items(list));
    } else {
        let (object, rest) = object_at(payload)->Some_0;
        lemma_object_written(payload);
        lemma_objects_written(rest, (count - 1) as nat);
        let tail = objects_at(rest, (count - 1) as nat)->Some_0;
        assert(list == seq![object] + tail);
        assert(list.drop_first() =~= tail);
        lemma_object_items_front(list);
        assert forall|i: int| 0 <= i < list.len() implies is_named_object(#[trigger] list[i]) by {
            if i > 0 {
                assert(list[i] == tail[i - 1]);
            }
        }
    }
}

/// Whether `data` ends in the encoded digests of object files.
pub open spec fn ends_in_objects(data: Seq<u8>, list: Seq<Named>) -> bool {
    are_named_objects(list) && object_part(Some(list)).is_suffix_of(data)
}

/// Digests of object files are read from what ends in their encoding.
proof fn lemma_trailer_is_exact(data: Seq<u8>, list: Seq<Named>)
    requires
        data.len() <= u64::MAX,
    ensures
        object_trailer(data) == Some(list) <==> ends_in_objects(data, list),
{
    let part = object_part(Some(list));
    if ends_in_objects(data, list) {
        let front = data.take(data.len() - part.len());
        assert(data =~= front + data.subrange(data.len() - part.len(), data.len() as int));
        assert(data == front + part);
        lemma_trailer_round_trip(front, list);
    }
    if object_trailer(data) == Some(list) {
        lemma_auto_spec_u64_to_from_le_bytes();
        let end = data.len() - 8;
        let tail = data.skip(end);
        let length = spec_u64_from_le_bytes(tail) as int;
        let start = end - length - raw_object_mark().len();
        let payload = data.subrange(end - length, end);
        let head = payload.take(8);
        let count = spec_u64_from_le_bytes(head);
        lemma_objects_written(payload.skip(8), count as nat);
        assert(spec_u64_to_le_bytes(count) == head);
        assert(payload =~= head + payload.skip(8));
        assert(payload == object_list(list));
        assert(spec_u64_to_le_bytes(length as u64) == tail);
        assert(data.subrange(start, data.len() as int) =~= part);
        assert(data.subrange(data.len() - part.len(), data.len() as int) =~= part);
    }
}

/// Digests of object files are decoded exactly where they were encoded: the
/// data ends in its mark, and what is before that, without the digest of the
/// link contents where there is one, ends in their encoding. The data has to be
/// of a size that a machine can hold.
pub proof fn law_raw_objects_are_exact(data: Seq<u8>, list: Seq<Named>)
    requires
        data.len() <= u64::MAX,
    ensures
        raw_objects(data) == Some(list) <==> end_mark().is_suffix_of(data) && ends_in_objects(
            before_digest(data.take(data.len() - end_mark().len())),
            list,
        ),
{
    let start = data.len() - end_mark().len();
    if start >= 0 {
        assert(data.skip(start) =~= data.subrange(start, data.len() as int));
        lemma_trailer_is_exact(before_digest(data.take(start)), list);
    }
}

/// A list of no texts is one byte.
proof fn lemma_groups_of_zero(list: Seq<Seq<char>>)
    ensures
        list.len() == 0 ==> text_list(list) =~= seq![0u8],
        list.len() > 0 ==> text_list(list).last() == TEXT_END,
{
    lemma_text_items_length(list);
}

/// What stands before the digest of the link contents does not end in one.
proof fn lemma_core_end(files: Seq<Seq<char>>, objects: Option<Seq<Named>>)
    requires
        (text_list(files) + object_part(objects)).len() <= u64::MAX,
    ensures
        ({
            let core = text_list(files) + object_part(objects);
            core.len() > 0 && digest_suffix(core) is None
        }),
{
    let core = text_list(files) + object_part(objects);
    lemma_groups_of_zero(files);
    match objects {
        Some(list) => {
            if are_named_objects(list) {
                let length = object_list(list).len() as u64;
                lemma_highest_byte(length);
                assert(core.last() == spec_u64_to_le_bytes(length)[7]);
                if list.len() == 0 {
                    lemma_highest_byte(list.len() as u64);
                    assert(length == 8);
                    if digest_suffix(core) is Some {
                        lemma_digest_suffix_end(core);
                    }
                } else {
                    lemma_objects_end(core, text_list(files), list);
                }
            } else {
                assert(core =~= text_list(files));
                if digest_suffix(core) is Some {
                    lemma_digest_suffix_end(core);
                }
            }
        },
        None => {
            assert(core =~= text_list(files));
            if digest_suffix(core) is Some {
                lemma_digest_suffix_end(core);
            }
        },
    }
}

/// The digest of the last object file stands where a mark would have to end.
proof fn lemma_objects_end(core: Seq<u8>, front: Seq<u8>, list: Seq<Named>)
    requires
        are_named_objects(list),
        list.len() > 0,
        core == front + object_part(Some(list)),
    ensures
        digest_suffix(core) is None,
{
    lemma_auto_spec_u64_to_from_le_bytes();
    let last = list.last();
    assert(is_named_object(list[list.len() - 1]));
    lemma_digest_bytes(last.1);
    lemma_digit_byte(last.1[7]);
    let n = core.len() as int;
    let part = object_part(Some(list));
    let items = object_items(list);
    assert(items[items.len() - 57] == utf8(last.1)[7]);
    assert(object_list(list)[object_list(list).len() - 57] == utf8(last.1)[7]);
    assert(core[n - 65] == utf8(last.1)[7]);
    if digest_suffix(core) is Some {
        reveal_strlit("rustc-rlib-link-content-v1:");
        is_ascii_chars_encode_utf8("rustc-rlib-link-content-v1:"@);
        let mark = link_content_mark();
        let start = n - mark.len() - 64;
        assert(core.subrange(start, n - 64) == mark);
        assert(mark.len() == 27);
        assert(mark[26] == 0x3a);
        assert(core.subrange(start, n - 64)[26] == core[n - 65]);
    }
}

/// The number that groups of seven bits stand for, the lowest first.
pub open spec fn grouped_value(bytes: Seq<u8>) -> int
    decreases bytes.len(),
{
    if bytes.len() == 0 {
        0
    } else {
        bytes[0] as int % 128 + 128 * grouped_value(bytes.drop_first())
    }
}

/// Numbers are written in groups of seven bits, the lowest first, and every group but
/// the last has its highest bit set.
pub proof fn law_numbers_are_written_in_groups(value: nat)
    ensures
        groups(value).len() > 0,
        grouped_value(groups(value)) == value,
        groups(value).last() < 0x80,
        forall|i: int| 0 <= i < groups(value).len() - 1 ==> (#[trigger] groups(value)[i]) >= 0x80,
    decreases value,
{
    let bytes = groups(value);
    if value >= 128 {
        let rest = groups(value / 128);
        law_numbers_are_written_in_groups(value / 128);
        assert(bytes.drop_first() =~= rest);
        assert(bytes[0] as int % 128 == value % 128);
        assert(bytes.last() == rest.last());
        assert forall|i: int| 0 <= i < bytes.len() - 1 implies (#[trigger] bytes[i]) >= 0x80 by {
            if i > 0 {
                assert(bytes[i] == rest[i - 1]);
            }
        }
    } else {
        assert(bytes.drop_first() =~= Seq::<u8>::empty());
        assert(grouped_value(bytes.drop_first()) == 0);
    }
}

/// Metadata end in their mark, and the digest of the link contents stands right before
/// it, behind a mark of its own.
pub proof fn law_links_end_in_their_digest(link: Link)
    requires
        link.digest is Some,
        is_hex_digest(link.digest->Some_0),
    ensures
        (utf8("rustc-rlib-link-content-v1:"@) + utf8(link.digest->Some_0) + utf8(
            "rust-end-file"@,
        )).is_suffix_of(encoded_link(link)),
        utf8("rust-end-file"@).is_suffix_of(encoded_link(link)),
{
    let data = encoded_link(link);
    let tail = utf8("rustc-rlib-link-content-v1:"@) + utf8(link.digest->Some_0) + utf8(
        "rust-end-file"@,
    );
    let end = utf8("rust-end-file"@);
    let front = text_list(link.files) + object_part(link.objects);
    assert(data =~= front + tail);
    assert(data.skip(front.len() as int) =~= tail);
    assert(data.skip(data.len() - end.len()) =~= end);
}

/// Every file name stands in metadata behind its length and before the end of a text.
pub proof fn law_file_names_stand_in_links(link: Link, at: int)
    requires
        0 <= at < link.files.len(),
    ensures
        held(
            encoded_link(link),
            groups(utf8(link.files[at]).len()) + utf8(link.files[at]) + seq![0xc1u8],
        ),
{
    let front = groups(link.files.len());
    let items = text_items(link.files);
    let back = object_part(link.objects) + digest_part(link.digest) + end_mark();
    lemma_text_items_hold(link.files, at);
    lemma_held(front, items, back, text_item(link.files[at]));
    assert(encoded_link(link) =~= front + items + back);
}

/// Every text stands among the texts.
proof fn lemma_text_items_hold(list: Seq<Seq<char>>, at: int)
    requires
        0 <= at < list.len(),
    ensures
        held(text_items(list), text_item(list[at])),
    decreases list.len(),
{
    let front = text_items(list.drop_last());
    if at == list.len() - 1 {
        lemma_held_self(text_item(list[at]));
        lemma_held(front, text_item(list[at]), Seq::empty(), text_item(list[at]));
        assert(front + text_item(list[at]) + Seq::<u8>::empty() =~= text_items(list));
    } else {
        lemma_text_items_hold(list.drop_last(), at);
        lemma_held(Seq::empty(), front, text_item(list.last()), text_item(list[at]));
        assert(Seq::<u8>::empty() + front + text_item(list.last()) =~= text_items(list));
    }
}

} // verus!
