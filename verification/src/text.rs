//! Text helpers: comparison, searching, splitting, trimming and numbers.

use vstd::prelude::*;
use vstd::slice::slice_subrange;
use vstd::string::*;

verus! {

/// `String::push` appends the given character.
pub assume_specification[ String::push ](text: &mut String, character: char)
    ensures
        final(text)@ == old(text)@.push(character),
;

/// The characters of `text`.
pub fn characters(text: &str) -> (chars: Vec<char>)
    ensures
        chars@ == text@,
{
    let mut chars: Vec<char> = Vec::new();
    let mut remaining = text.chars();
    loop
        invariant
            chars@ + vstd::std_specs::iter::IteratorSpec::remaining(&remaining) == text@,
            vstd::std_specs::iter::IteratorSpec::decrease(&remaining) is Some,
        ensures
            chars@ == text@,
        decreases vstd::std_specs::iter::IteratorSpec::decrease(&remaining)->0,
    {
        let ghost before = vstd::std_specs::iter::IteratorSpec::remaining(&remaining);
        match remaining.next() {
            Some(character) => {
                let ghost collected = chars@;
                chars.push(character);
                proof {
                    assert(collected.push(before[0]) + before.drop_first() =~= collected + before);
                }
            },
            None => {
                proof {
                    assert(before.len() == 0);
                    assert(chars@ + before =~= chars@);
                }
                break;
            },
        }
    }
    chars
}


/// The text made of `chars`.
pub fn text_of(chars: &[char]) -> (text: String)
    ensures
        text@ == chars@,
{
    let mut text = String::new();
    let mut index: usize = 0;
    while index < chars.len()
        invariant
            index <= chars@.len(),
            text@ == chars@.subrange(0, index as int),
        decreases chars@.len() - index,
    {
        text.push(chars[index]);
        proof {
            assert(chars@.subrange(0, index + 1) =~= chars@.subrange(0, index as int).push(
                chars@[index as int],
            ));
        }
        index = index + 1;
    }
    proof {
        assert(chars@.subrange(0, chars@.len() as int) =~= chars@);
    }
    text
}

/// The texts of a list of strings.
pub open spec fn texts(strings: Seq<String>) -> Seq<Seq<char>> {
    Seq::new(strings.len(), |i: int| strings[i]@)
}

/// Whether two character strings are equal.
pub fn chars_equal(left: &[char], right: &[char]) -> (equal: bool)
    ensures
        equal == (left@ == right@),
{
    if left.len() != right.len() {
        return false;
    }
    let mut index: usize = 0;
    while index < left.len()
        invariant
            index <= left@.len(),
            left@.len() == right@.len(),
            forall|k: int| 0 <= k < index ==> left@[k] == right@[k],
        decreases left@.len() - index,
    {
        if left[index] != right[index] {
            return false;
        }
        index = index + 1;
    }
    proof {
        assert(left@ =~= right@);
    }
    true
}

/// Whether two texts are equal.
pub fn text_is(left: &str, right: &str) -> (equal: bool)
    ensures
        equal == (left@ == right@),
{
    chars_equal(characters(left).as_slice(), characters(right).as_slice())
}

/// Whether `text` is one of `choices`.
pub fn text_in(text: &str, choices: &[&str]) -> (found: bool)
    ensures
        found == exists|i: int| 0 <= i < choices@.len() && text@ == #[trigger] choices@[i]@,
{
    let mut index: usize = 0;
    while index < choices.len()
        invariant
            index <= choices@.len(),
            forall|k: int| 0 <= k < index ==> text@ != #[trigger] choices@[k]@,
        decreases choices@.len() - index,
    {
        if text_is(text, choices[index]) {
            proof {
                assert(text@ == choices@[index as int]@);
            }
            return true;
        }
        index = index + 1;
    }
    false
}

/// Whether `text` begins with `prefix`.
pub fn has_prefix(text: &str, prefix: &str) -> (found: bool)
    ensures
        found == prefix@.is_prefix_of(text@),
{
    let text = characters(text);
    let prefix = characters(prefix);
    if prefix.len() > text.len() {
        return false;
    }
    chars_equal(prefix.as_slice(), slice_subrange(text.as_slice(), 0, prefix.len()))
}

/// Whether `text` ends with `suffix`.
pub fn has_suffix(text: &str, suffix: &str) -> (found: bool)
    ensures
        found == suffix@.is_suffix_of(text@),
{
    let text = characters(text);
    let suffix = characters(suffix);
    if suffix.len() > text.len() {
        return false;
    }
    chars_equal(
        suffix.as_slice(),
        slice_subrange(text.as_slice(), text.len() - suffix.len(), text.len()),
    )
}

/// What follows `prefix` in `text`, where `text` begins with it.
pub open spec fn after_prefix(text: Seq<char>, prefix: Seq<char>) -> Option<Seq<char>> {
    if prefix.is_prefix_of(text) {
        Some(text.skip(prefix.len() as int))
    } else {
        None
    }
}

/// What follows `prefix` in `text`, where `text` begins with it.
pub fn without_prefix(text: &str, prefix: &str) -> (rest: Option<String>)
    ensures
        match rest {
            Some(rest) => after_prefix(text@, prefix@) == Some(rest@),
            None => after_prefix(text@, prefix@) is None,
        },
{
    if !has_prefix(text, prefix) {
        return None;
    }
    let text = characters(text);
    let prefix = characters(prefix);
    Some(text_of(slice_subrange(text.as_slice(), prefix.len(), text.len())))
}

/// Whether `pattern` stands in `text` at position `at`.
pub open spec fn stands_at(text: Seq<char>, pattern: Seq<char>, at: int) -> bool {
    0 <= at <= text.len() && pattern.is_prefix_of(text.skip(at))
}

/// Whether `pattern` stands anywhere in `text`.
pub open spec fn stands_in(text: Seq<char>, pattern: Seq<char>) -> bool {
    exists|at: int| stands_at(text, pattern, at)
}

/// Whether `pattern` stands in `text` at position `at`.
fn chars_stand_at(text: &[char], pattern: &[char], at: usize) -> (found: bool)
    requires
        at <= text@.len(),
    ensures
        found == stands_at(text@, pattern@, at as int),
{
    if pattern.len() > text.len() - at {
        return false;
    }
    proof {
        assert(text@.skip(at as int).subrange(0, pattern@.len() as int) =~= text@.subrange(
            at as int,
            at + pattern@.len(),
        ));
    }
    chars_equal(pattern, slice_subrange(text, at, at + pattern.len()))
}

/// Whether `pattern` stands anywhere in `text`.
pub fn has_text(text: &str, pattern: &str) -> (found: bool)
    ensures
        found == stands_in(text@, pattern@),
{
    let chars = characters(text);
    let wanted = characters(pattern);
    let mut at: usize = 0;
    loop
        invariant
            chars@ == text@,
            wanted@ == pattern@,
            at <= text@.len(),
            forall|k: int| 0 <= k < at ==> !stands_at(text@, pattern@, k),
        decreases text@.len() - at,
    {
        if chars_stand_at(chars.as_slice(), wanted.as_slice(), at) {
            return true;
        }
        if at == chars.len() {
            return false;
        }
        at = at + 1;
    }
}

/// Whether `text` holds `character`.
pub fn has_char(text: &str, character: char) -> (found: bool)
    ensures
        found == text@.contains(character),
{
    let chars = characters(text);
    let mut index: usize = 0;
    while index < chars.len()
        invariant
            chars@ == text@,
            index <= text@.len(),
            forall|k: int| 0 <= k < index ==> text@[k] != character,
        decreases text@.len() - index,
    {
        if chars[index] == character {
            proof {
                assert(text@[index as int] == character);
            }
            return true;
        }
        index = index + 1;
    }
    false
}

/// The position of the first `character` in `text`, or the length of `text`.
pub open spec fn first_at(text: Seq<char>, character: char) -> int
    decreases text.len(),
{
    if text.len() == 0 || text[0] == character {
        0
    } else {
        1 + first_at(text.drop_first(), character)
    }
}

/// `first_at` is within the text, nothing before it matches, and it matches
/// where it is not the end.
pub proof fn lemma_first_at(text: Seq<char>, character: char)
    ensures
        0 <= first_at(text, character) <= text.len(),
        forall|k: int| 0 <= k < first_at(text, character) ==> text[k] != character,
        first_at(text, character) < text.len() ==> text[first_at(text, character)] == character,
    decreases text.len(),
{
    if text.len() > 0 && text[0] != character {
        let rest = text.drop_first();
        lemma_first_at(rest, character);
        assert forall|k: int| 0 <= k < first_at(text, character) implies text[k] != character by {
            if k > 0 {
                assert(rest[k - 1] == text[k]);
            }
        }
    }
}

/// A position with the properties of `first_at` is `first_at`.
pub proof fn lemma_first_at_unique(text: Seq<char>, character: char, at: int)
    requires
        0 <= at <= text.len(),
        forall|k: int| 0 <= k < at ==> text[k] != character,
        at < text.len() ==> text[at] == character,
    ensures
        first_at(text, character) == at,
{
    lemma_first_at(text, character);
    let found = first_at(text, character);
    if found < at {
        assert(text[found] != character);
    }
    if at < found {
        assert(text[at] != character);
    }
}

/// The position of the first `character` in `text`, or the length of `text`.
fn chars_first_at(text: &[char], character: char) -> (at: usize)
    ensures
        at == first_at(text@, character),
        at <= text@.len(),
{
    let mut index: usize = 0;
    while index < text.len()
        invariant
            index <= text@.len(),
            forall|k: int| 0 <= k < index ==> text@[k] != character,
        decreases text@.len() - index,
    {
        if text[index] == character {
            proof {
                lemma_first_at_unique(text@, character, index as int);
            }
            return index;
        }
        index = index + 1;
    }
    proof {
        lemma_first_at_unique(text@, character, index as int);
    }
    index
}

/// `text` cut at the first `separator`, which is dropped.
pub open spec fn cut_first(text: Seq<char>, separator: char) -> Option<(Seq<char>, Seq<char>)> {
    let at = first_at(text, separator);
    if at < text.len() {
        Some((text.take(at), text.skip(at + 1)))
    } else {
        None
    }
}

/// `text` cut at the first `separator`, which is dropped.
pub fn split_once(text: &str, separator: char) -> (parts: Option<(String, String)>)
    ensures
        match parts {
            Some((before, after)) => cut_first(text@, separator) == Some((before@, after@)),
            None => cut_first(text@, separator) is None,
        },
{
    let text = characters(text);
    let at: usize = chars_first_at(text.as_slice(), separator);
    if at == text.len() {
        return None;
    }
    let before = text_of(slice_subrange(text.as_slice(), 0, at));
    let after = text_of(slice_subrange(text.as_slice(), at + 1, text.len()));
    Some((before, after))
}

/// The position of the last `character` in `text`, or `-1`.
pub open spec fn last_at(text: Seq<char>, character: char) -> int
    decreases text.len(),
{
    if text.len() == 0 {
        -1
    } else if text.last() == character {
        text.len() - 1
    } else {
        last_at(text.drop_last(), character)
    }
}

/// `text` cut at the last `separator`, which is dropped.
pub open spec fn cut_last(text: Seq<char>, separator: char) -> Option<(Seq<char>, Seq<char>)> {
    let at = last_at(text, separator);
    if at >= 0 {
        Some((text.take(at), text.skip(at + 1)))
    } else {
        None
    }
}

/// `text` cut at the last `separator`, which is dropped.
pub fn rsplit_once(text: &str, separator: char) -> (parts: Option<(String, String)>)
    ensures
        match parts {
            Some((before, after)) => cut_last(text@, separator) == Some((before@, after@)),
            None => cut_last(text@, separator) is None,
        },
{
    let chars = characters(text);
    let mut end: usize = chars.len();
    proof {
        assert(text@.take(end as int) =~= text@);
    }
    while end > 0
        invariant
            chars@ == text@,
            end <= text@.len(),
            last_at(text@, separator) == last_at(text@.take(end as int), separator),
        decreases end,
    {
        if chars[end - 1] == separator {
            proof {
                assert(text@.take(end as int).last() == separator);
            }
            let before = text_of(slice_subrange(chars.as_slice(), 0, end - 1));
            let after = text_of(slice_subrange(chars.as_slice(), end, chars.len()));
            return Some((before, after));
        }
        proof {
            assert(text@.take(end as int).drop_last() =~= text@.take(end - 1));
        }
        end = end - 1;
    }
    None
}

/// `filler` before, between and after the characters of `text`.
pub open spec fn interleaved(text: Seq<char>, filler: Seq<char>) -> Seq<char>
    decreases text.len(),
{
    if text.len() == 0 {
        filler
    } else {
        interleaved(text.drop_last(), filler).push(text.last()) + filler
    }
}

/// `text` with every occurrence of `pattern` replaced, scanning from the left
/// and resuming after each replaced occurrence. An empty pattern matches
/// around every character.
pub open spec fn replaced(text: Seq<char>, pattern: Seq<char>, filler: Seq<char>) -> Seq<char>
    decreases text.len(),
{
    if pattern.len() == 0 {
        interleaved(text, filler)
    } else if text.len() == 0 {
        text
    } else if pattern.is_prefix_of(text) {
        filler + replaced(text.skip(pattern.len() as int), pattern, filler)
    } else {
        seq![text[0]] + replaced(text.drop_first(), pattern, filler)
    }
}

/// Appends `chars` to `out`.
fn push_chars(out: &mut Vec<char>, chars: &[char])
    ensures
        final(out)@ == old(out)@ + chars@,
{
    let ghost before = out@;
    let mut index: usize = 0;
    while index < chars.len()
        invariant
            index <= chars@.len(),
            out@ == before + chars@.subrange(0, index as int),
        decreases chars@.len() - index,
    {
        out.push(chars[index]);
        proof {
            assert(chars@.subrange(0, index + 1) =~= chars@.subrange(0, index as int).push(
                chars@[index as int],
            ));
        }
        index = index + 1;
    }
    proof {
        assert(chars@.subrange(0, chars@.len() as int) =~= chars@);
    }
}

/// `text` with every occurrence of `pattern` replaced by `filler`.
pub fn replace(text: &str, pattern: &str, filler: &str) -> (result: String)
    ensures
        result@ == replaced(text@, pattern@, filler@),
{
    let text = characters(text);
    let pattern = characters(pattern);
    let filler = characters(filler);
    let mut out: Vec<char> = Vec::new();
    let mut at: usize = 0;
    if pattern.len() == 0 {
        push_chars(&mut out, filler.as_slice());
        while at < text.len()
            invariant
                at <= text@.len(),
                out@ == interleaved(text@.take(at as int), filler@),
            decreases text@.len() - at,
        {
            out.push(text[at]);
            push_chars(&mut out, filler.as_slice());
            proof {
                assert(text@.take(at + 1).drop_last() =~= text@.take(at as int));
                assert(text@.take(at + 1).last() == text@[at as int]);
            }
            at = at + 1;
        }
        proof {
            assert(text@.take(at as int) =~= text@);
        }
        return text_of(out.as_slice());
    }
    proof {
        assert(text@.skip(0) =~= text@);
        assert(out@ + replaced(text@, pattern@, filler@) =~= replaced(text@, pattern@, filler@));
    }
    while at < text.len()
        invariant
            at <= text@.len(),
            pattern@.len() > 0,
            replaced(text@, pattern@, filler@) == out@ + replaced(
                text@.skip(at as int),
                pattern@,
                filler@,
            ),
        decreases text@.len() - at,
    {
        let ghost before = out@;
        let ghost rest = text@.skip(at as int);
        if chars_stand_at(text.as_slice(), pattern.as_slice(), at) {
            push_chars(&mut out, filler.as_slice());
            proof {
                assert(rest.skip(pattern@.len() as int) =~= text@.skip(at + pattern@.len()));
                assert(replaced(rest, pattern@, filler@) == filler@ + replaced(
                    text@.skip(at + pattern@.len()),
                    pattern@,
                    filler@,
                ));
                assert(before + (filler@ + replaced(
                    text@.skip(at + pattern@.len()),
                    pattern@,
                    filler@,
                )) =~= out@ + replaced(text@.skip(at + pattern@.len()), pattern@, filler@));
            }
            at = at + pattern.len();
        } else {
            out.push(text[at]);
            proof {
                assert(rest.drop_first() =~= text@.skip(at + 1));
                assert(before + (seq![rest[0]] + replaced(rest.drop_first(), pattern@, filler@))
                    =~= out@ + replaced(text@.skip(at + 1), pattern@, filler@));
            }
            at = at + 1;
        }
    }
    proof {
        assert(text@.skip(at as int).len() == 0);
        assert(out@ + text@.skip(at as int) =~= out@);
    }
    text_of(out.as_slice())
}

/// A line ended by a line feed, without a carriage return before it.
pub open spec fn without_carriage_return(line: Seq<char>) -> Seq<char> {
    if line.len() > 0 && line.last() == '\r' {
        line.drop_last()
    } else {
        line
    }
}

/// The lines of `text`. A line ends at a line feed, or at a carriage return
/// followed by one; what follows the last line feed is a line where it is not
/// empty.
pub open spec fn lines_of(text: Seq<char>) -> Seq<Seq<char>>
    decreases text.len(),
{
    let at = first_at(text, '\n');
    if text.len() == 0 {
        Seq::empty()
    } else if 0 <= at < text.len() {
        seq![without_carriage_return(text.take(at))] + lines_of(text.skip(at + 1))
    } else {
        seq![text]
    }
}

/// The lines of `text`.
pub fn lines(text: &str) -> (list: Vec<String>)
    ensures
        texts(list@) == lines_of(text@),
{
    let chars = characters(text);
    let mut list: Vec<String> = Vec::new();
    let mut at: usize = 0;
    proof {
        assert(chars@.skip(0) =~= chars@);
        assert(texts(list@) + lines_of(chars@) =~= lines_of(chars@));
    }
    while at < chars.len()
        invariant
            at <= chars@.len(),
            texts(list@) + lines_of(chars@.skip(at as int)) == lines_of(chars@),
        decreases chars@.len() - at,
    {
        let ghost rest = chars@.skip(at as int);
        let ghost before = list@;
        let tail = slice_subrange(chars.as_slice(), at, chars.len());
        proof {
            assert(tail@ =~= rest);
            lemma_first_at(rest, '\n');
        }
        let length: usize = chars_first_at(tail, '\n');
        if length == tail.len() {
            list.push(text_of(tail));
            proof {
                assert(texts(list@) =~= texts(before) + seq![rest]);
                assert(chars@.skip(chars@.len() as int) =~= Seq::<char>::empty());
                assert(texts(list@) + lines_of(chars@.skip(chars@.len() as int)) =~= texts(list@));
            }
            at = chars.len();
        } else {
            let ghost line = rest.take(length as int);
            let end: usize = if length > 0 && tail[length - 1] == '\r' {
                length - 1
            } else {
                length
            };
            list.push(text_of(slice_subrange(tail, 0, end)));
            proof {
                if end < length {
                    assert(line.last() == '\r');
                    assert(line.drop_last() =~= rest.subrange(0, end as int));
                } else {
                    assert(line =~= rest.subrange(0, end as int));
                }
                assert(texts(list@) =~= texts(before) + seq![without_carriage_return(line)]);
                assert(rest.skip(length + 1) =~= chars@.skip(at + length + 1));
                assert((texts(before) + seq![without_carriage_return(line)]) + lines_of(
                    chars@.skip(at + length + 1),
                ) =~= texts(before) + (seq![without_carriage_return(line)] + lines_of(
                    chars@.skip(at + length + 1),
                )));
            }
            at = at + length + 1;
        }
    }
    proof {
        assert(chars@.skip(at as int).len() == 0);
        assert(texts(list@) + lines_of(chars@.skip(at as int)) =~= texts(list@));
    }
    list
}

/// The characters with the Unicode `White_Space` property.
pub open spec fn is_space(character: char) -> bool {
    let code = character as u32;
    ||| 0x09 <= code <= 0x0d
    ||| code == 0x20
    ||| code == 0x85
    ||| code == 0xa0
    ||| code == 0x1680
    ||| 0x2000 <= code <= 0x200a
    ||| code == 0x2028
    ||| code == 0x2029
    ||| code == 0x202f
    ||| code == 0x205f
    ||| code == 0x3000
}

/// Whether `character` has the Unicode `White_Space` property.
fn char_is_space(character: char) -> (space: bool)
    ensures
        space == is_space(character),
{
    let code: u32 = character as u32;
    (0x09 <= code && code <= 0x0d) || code == 0x20 || code == 0x85 || code == 0xa0 || code == 0x1680
        || (0x2000 <= code && code <= 0x200a) || code == 0x2028 || code == 0x2029 || code == 0x202f
        || code == 0x205f || code == 0x3000
}

/// `text` without the white space at its end.
pub open spec fn trimmed_end(text: Seq<char>) -> Seq<char>
    decreases text.len(),
{
    if text.len() > 0 && is_space(text.last()) {
        trimmed_end(text.drop_last())
    } else {
        text
    }
}

/// `text` without the white space at its start.
pub open spec fn trimmed_start(text: Seq<char>) -> Seq<char>
    decreases text.len(),
{
    if text.len() > 0 && is_space(text[0]) {
        trimmed_start(text.drop_first())
    } else {
        text
    }
}

/// `text` without the white space at its start and its end.
pub open spec fn trimmed(text: Seq<char>) -> Seq<char> {
    trimmed_start(trimmed_end(text))
}

/// `text` without the white space at its end.
pub fn trim_end(text: &str) -> (result: String)
    ensures
        result@ == trimmed_end(text@),
{
    let chars = characters(text);
    let mut end: usize = chars.len();
    proof {
        assert(chars@.take(end as int) =~= chars@);
    }
    while end > 0 && char_is_space(chars[end - 1])
        invariant
            end <= chars@.len(),
            trimmed_end(chars@) == trimmed_end(chars@.take(end as int)),
        decreases end,
    {
        proof {
            assert(chars@.take(end as int).drop_last() =~= chars@.take(end - 1));
        }
        end = end - 1;
    }
    text_of(slice_subrange(chars.as_slice(), 0, end))
}

/// `text` without the white space at its start and its end.
pub fn trim(text: &str) -> (result: String)
    ensures
        result@ == trimmed(text@),
{
    let cut = trim_end(text);
    let chars = characters(cut.as_str());
    let mut start: usize = 0;
    proof {
        assert(chars@.skip(0) =~= chars@);
    }
    while start < chars.len() && char_is_space(chars[start])
        invariant
            start <= chars@.len(),
            trimmed_start(chars@) == trimmed_start(chars@.skip(start as int)),
        decreases chars@.len() - start,
    {
        proof {
            assert(chars@.skip(start as int).drop_first() =~= chars@.skip(start + 1));
        }
        start = start + 1;
    }
    let tail = slice_subrange(chars.as_slice(), start, chars.len());
    proof {
        assert(tail@ =~= chars@.skip(start as int));
    }
    text_of(tail)
}

/// The value of a decimal digit.
pub open spec fn digit_value(digit: char) -> nat {
    (digit as u32 - 0x30) as nat
}

/// Whether `character` is a decimal digit.
pub open spec fn is_digit(character: char) -> bool {
    0x30 <= character as u32 <= 0x39
}

/// The number that `digits` write.
pub open spec fn digits_value(digits: Seq<char>) -> nat
    decreases digits.len(),
{
    if digits.len() == 0 {
        0
    } else {
        digits_value(digits.drop_last()) * 10 + digit_value(digits.last())
    }
}

/// `text` without one leading plus sign.
pub open spec fn without_plus(text: Seq<char>) -> Seq<char> {
    if text.len() > 0 && text[0] == '+' {
        text.drop_first()
    } else {
        text
    }
}

/// The number that `text` writes: decimal digits, at least one, after an
/// optional plus sign, with a value of at most `limit`.
pub open spec fn parsed(text: Seq<char>, limit: nat) -> Option<nat> {
    let digits = without_plus(text);
    if digits.len() > 0 && (forall|i: int| 0 <= i < digits.len() ==> is_digit(digits[i]))
        && digits_value(digits) <= limit {
        Some(digits_value(digits))
    } else {
        None
    }
}

/// A prefix of a digit string writes a number no larger.
proof fn lemma_digits_value_monotone(digits: Seq<char>, length: int)
    requires
        0 <= length <= digits.len(),
    ensures
        digits_value(digits.take(length)) <= digits_value(digits),
    decreases digits.len() - length,
{
    if length < digits.len() {
        lemma_digits_value_monotone(digits, length + 1);
        assert(digits.take(length + 1).drop_last() =~= digits.take(length));
    } else {
        assert(digits.take(length) =~= digits);
    }
}

/// The number that `text` writes, where it is at most `u64::MAX`.
pub fn parse_u64(text: &str) -> (number: Option<u64>)
    ensures
        match number {
            Some(number) => parsed(text@, u64::MAX as nat) == Some(number as nat),
            None => parsed(text@, u64::MAX as nat) is None,
        },
{
    let chars = characters(text);
    let mut start: usize = 0;
    if chars.len() > 0 && chars[0] == '+' {
        start = 1;
    }
    let digits = slice_subrange(chars.as_slice(), start, chars.len());
    proof {
        assert(digits@ =~= without_plus(text@));
    }
    if digits.len() == 0 {
        return None;
    }
    let mut value: u64 = 0;
    let mut index: usize = 0;
    while index < digits.len()
        invariant
            digits@ == without_plus(text@),
            index <= digits@.len(),
            forall|i: int| 0 <= i < index ==> is_digit(digits@[i]),
            value == digits_value(digits@.take(index as int)),
        decreases digits@.len() - index,
    {
        let code: u32 = digits[index] as u32;
        if code < 0x30 || code > 0x39 {
            proof {
                assert(!is_digit(digits@[index as int]));
            }
            return None;
        }
        let digit: u64 = (code - 0x30) as u64;
        proof {
            assert(digits@.take(index + 1).drop_last() =~= digits@.take(index as int));
            assert(digits@.take(index + 1).last() == digits@[index as int]);
            lemma_digits_value_monotone(digits@, index + 1);
        }
        if value > (u64::MAX - digit) / 10 {
            return None;
        }
        value = value * 10 + digit;
        index = index + 1;
    }
    proof {
        assert(digits@.take(index as int) =~= digits@);
    }
    Some(value)
}

/// The decimal digit with value `value`.
pub open spec fn digit_of(value: nat) -> char {
    (0x30 + value) as char
}

/// The shortest decimal notation of `number`.
pub open spec fn decimal(number: nat) -> Seq<char>
    decreases number,
{
    if number < 10 {
        seq![digit_of(number)]
    } else {
        decimal(number / 10).push(digit_of(number % 10))
    }
}

/// The decimal digit with value `value`.
fn digit_char(value: u64) -> (digit: char)
    requires
        value < 10,
    ensures
        digit == digit_of(value as nat),
{
    match value {
        0 => '0',
        1 => '1',
        2 => '2',
        3 => '3',
        4 => '4',
        5 => '5',
        6 => '6',
        7 => '7',
        8 => '8',
        _ => '9',
    }
}

/// The shortest decimal notation of `number`.
pub fn decimal_text(number: u64) -> (text: String)
    ensures
        text@ == decimal(number as nat),
    decreases number,
{
    if number < 10 {
        let mut text = String::new();
        text.push(digit_char(number));
        proof {
            assert(text@ =~= seq![digit_of(number as nat)]);
        }
        text
    } else {
        let mut text = decimal_text(number / 10);
        text.push(digit_char(number % 10));
        text
    }
}

/// A decimal notation is made of digits, is not empty, and writes its number.
pub proof fn lemma_decimal_digits(number: nat)
    ensures
        decimal(number).len() > 0,
        forall|i: int| 0 <= i < decimal(number).len() ==> is_digit(decimal(number)[i]),
        digits_value(decimal(number)) == number,
    decreases number,
{
    if number < 10 {
        let text = decimal(number);
        assert(text.drop_last() =~= Seq::<char>::empty());
        assert(digits_value(text.drop_last()) == 0);
    } else {
        lemma_decimal_digits(number / 10);
        let text = decimal(number);
        assert(text.drop_last() =~= decimal(number / 10));
        assert forall|i: int| 0 <= i < text.len() implies is_digit(text[i]) by {
            if i < text.len() - 1 {
                assert(text[i] == decimal(number / 10)[i]);
            }
        }
    }
}

/// Reading a decimal notation gives back the number that was written.
pub proof fn law_decimal_round_trip(number: nat, limit: nat)
    requires
        number <= limit,
    ensures
        parsed(decimal(number), limit) == Some(number),
{
    lemma_decimal_digits(number);
    assert(is_digit(decimal(number)[0]));
}

} // verus!
