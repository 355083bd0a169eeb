//! How texts are cut, trimmed and rewritten.

use vstd::prelude::*;

use crate::text::cut_first;
use crate::text::cut_last;
use crate::text::digits_value;
use crate::text::is_digit;
use crate::text::last_at;
use crate::text::lemma_first_at_unique;
use crate::text::lines_of;
use crate::text::parsed;
use crate::text::replaced;
use crate::text::trimmed;
use crate::text::trimmed_end;
use crate::text::trimmed_start;
use crate::text::without_plus;

verus! {

/// A text is cut at its first separator, and not at all where it has none.
pub proof fn law_texts_are_cut_at_the_first(front: Seq<char>, separator: char, back: Seq<char>)
    requires
        !front.contains(separator),
    ensures
        cut_first(front + seq![separator] + back, separator) == Some((front, back)),
        cut_first(front, separator) is None,
{
    let text = front + seq![separator] + back;
    assert forall|k: int| 0 <= k < front.len() implies front[k] != separator by {
        assert(front.contains(front[k]));
    }
    assert forall|k: int| 0 <= k < front.len() implies text[k] != separator by {
        assert(text[k] == front[k]);
    }
    lemma_first_at_unique(text, separator, front.len() as int);
    lemma_first_at_unique(front, separator, front.len() as int);
    assert(text.take(front.len() as int) =~= front);
    assert(text.skip(front.len() as int + 1) =~= back);
}

/// A character with none like it behind it is the last of its kind.
proof fn lemma_last_at(text: Seq<char>, character: char, at: int)
    requires
        -1 <= at < text.len(),
        at >= 0 ==> text[at] == character,
        forall|k: int| at < k < text.len() ==> text[k] != character,
    ensures
        last_at(text, character) == at,
    decreases text.len(),
{
    if text.len() > 0 && at < text.len() - 1 {
        assert(text[text.len() - 1] != character);
        lemma_last_at(text.drop_last(), character, at);
    }
}

/// A text is cut at its last separator, and not at all where it has none.
pub proof fn law_texts_are_cut_at_the_last(front: Seq<char>, separator: char, back: Seq<char>)
    requires
        !back.contains(separator),
    ensures
        cut_last(front + seq![separator] + back, separator) == Some((front, back)),
        cut_last(back, separator) is None,
{
    let text = front + seq![separator] + back;
    assert forall|k: int| 0 <= k < back.len() implies back[k] != separator by {
        assert(back.contains(back[k]));
    }
    assert forall|k: int| front.len() < k < text.len() implies text[k] != separator by {
        assert(text[k] == back[k - front.len() - 1]);
    }
    lemma_last_at(text, separator, front.len() as int);
    lemma_last_at(back, separator, -1);
    assert(text.take(front.len() as int) =~= front);
    assert(text.skip(front.len() as int + 1) =~= back);
}

/// Whether a character is one of the spaces that end a word or a line.
pub open spec fn is_blank(character: char) -> bool {
    character == ' ' || character == '\n' || character == '\r' || character == '\t'
}

/// Whether a character is a printable one of the first block.
pub open spec fn is_visible(character: char) -> bool {
    0x21 <= character as u32 <= 0x7e
}

/// Blanks at the end are trimmed.
proof fn lemma_trimmed_end(text: Seq<char>, back: Seq<char>)
    requires
        forall|i: int| 0 <= i < back.len() ==> is_blank(#[trigger] back[i]),
        text.len() == 0 || is_visible(text.last()),
    ensures
        trimmed_end(text + back) == text,
    decreases back.len(),
{
    let all = text + back;
    if back.len() == 0 {
        assert(all =~= text);
    } else {
        let rest = back.drop_last();
        assert(is_blank(back[back.len() - 1]));
        assert forall|i: int| 0 <= i < rest.len() implies is_blank(#[trigger] rest[i]) by {
            assert(rest[i] == back[i]);
        }
        lemma_trimmed_end(text, rest);
        assert(all.drop_last() =~= text + rest);
        assert(all.last() == back.last());
    }
}

/// Blanks at the start are trimmed.
proof fn lemma_trimmed_start(front: Seq<char>, text: Seq<char>)
    requires
        forall|i: int| 0 <= i < front.len() ==> is_blank(#[trigger] front[i]),
        text.len() == 0 || is_visible(text[0]),
    ensures
        trimmed_start(front + text) == text,
    decreases front.len(),
{
    let all = front + text;
    if front.len() == 0 {
        assert(all =~= text);
    } else {
        let rest = front.drop_first();
        assert(is_blank(front[0]));
        assert forall|i: int| 0 <= i < rest.len() implies is_blank(#[trigger] rest[i]) by {
            assert(rest[i] == front[i + 1]);
        }
        lemma_trimmed_start(rest, text);
        assert(all.drop_first() =~= rest + text);
        assert(all[0] == front[0]);
    }
}

/// Blanks on both sides of a text are trimmed, and nothing else of it.
pub proof fn law_blanks_are_trimmed(front: Seq<char>, text: Seq<char>, back: Seq<char>)
    requires
        forall|i: int| 0 <= i < front.len() ==> is_blank(#[trigger] front[i]),
        forall|i: int| 0 <= i < back.len() ==> is_blank(#[trigger] back[i]),
        text.len() > 0,
        is_visible(text[0]),
        is_visible(text.last()),
    ensures
        trimmed(front + text + back) == text,
        trimmed(front + back).len() == 0,
{
    assert((front + text).last() == text.last());
    lemma_trimmed_end(front + text, back);
    lemma_trimmed_start(front, text);
    let blanks = front + back;
    assert forall|i: int| 0 <= i < blanks.len() implies is_blank(#[trigger] blanks[i]) by {
        if i < front.len() {
            assert(blanks[i] == front[i]);
        } else {
            assert(blanks[i] == back[i - front.len()]);
        }
    }
    lemma_trimmed_end(Seq::empty(), blanks);
    assert(Seq::<char>::empty() + blanks =~= blanks);
}

/// A text is its first line and the lines behind it. A carriage return in front of
/// the end of a line is not part of the line, and a text without an end of line
/// is one line.
pub proof fn law_lines_come_in_order(line: Seq<char>, rest: Seq<char>)
    requires
        !line.contains('\n'),
        line.len() > 0,
        line.last() != '\r',
    ensures
        lines_of(line + seq!['\n'] + rest) == seq![line] + lines_of(rest),
        lines_of(line + seq!['\r', '\n'] + rest) == seq![line] + lines_of(rest),
        lines_of(line) == seq![line],
        lines_of(Seq::empty()).len() == 0,
{
    assert forall|k: int| 0 <= k < line.len() implies line[k] != '\n' by {
        assert(line.contains(line[k]));
    }
    let text = line + seq!['\n'] + rest;
    assert forall|k: int| 0 <= k < line.len() implies text[k] != '\n' by {
        assert(text[k] == line[k]);
    }
    lemma_first_at_unique(text, '\n', line.len() as int);
    assert(text.take(line.len() as int) =~= line);
    assert(text.skip(line.len() as int + 1) =~= rest);
    let other = line + seq!['\r', '\n'] + rest;
    assert forall|k: int| 0 <= k < line.len() + 1 implies other[k] != '\n' by {
        if k < line.len() {
            assert(other[k] == line[k]);
        } else {
            assert(other[k] == '\r');
        }
    }
    assert(other[line.len() as int + 1] == '\n');
    lemma_first_at_unique(other, '\n', line.len() as int + 1);
    assert(other.take(line.len() as int + 1) =~= line.push('\r'));
    assert(line.push('\r').drop_last() =~= line);
    assert(other.skip(line.len() as int + 2) =~= rest);
    lemma_first_at_unique(line, '\n', line.len() as int);
}

/// Every occurrence of a pattern is replaced from the front on: what stands
/// before the first is kept, the first becomes the filler, and the rest is
/// rewritten the same way.
pub proof fn law_occurrences_are_replaced(
    front: Seq<char>,
    pattern: Seq<char>,
    back: Seq<char>,
    filler: Seq<char>,
)
    requires
        pattern.len() > 0,
        forall|at: int|
            0 <= at < front.len() ==> !pattern.is_prefix_of(
                #[trigger] (front + pattern + back).skip(at),
            ),
    ensures
        replaced(front + pattern + back, pattern, filler) == front + filler + replaced(
            back,
            pattern,
            filler,
        ),
    decreases front.len(),
{
    let text = front + pattern + back;
    if front.len() == 0 {
        assert(text =~= pattern + back);
        assert(pattern.is_prefix_of(text)) by {
            assert(text.take(pattern.len() as int) =~= pattern);
        }
        assert(text.skip(pattern.len() as int) =~= back);
        assert(front + filler + replaced(back, pattern, filler) =~= filler + replaced(
            back,
            pattern,
            filler,
        ));
    } else {
        let rest = front.drop_first();
        let shorter = rest + pattern + back;
        assert(text.skip(0) =~= text);
        assert(!pattern.is_prefix_of(text.skip(0)));
        assert(text.drop_first() =~= shorter);
        assert forall|at: int| 0 <= at < rest.len() implies !pattern.is_prefix_of(
            #[trigger] shorter.skip(at),
        ) by {
            assert(shorter.skip(at) =~= text.skip(at + 1));
        }
        law_occurrences_are_replaced(rest, pattern, back, filler);
        assert(seq![text[0]] + (rest + filler + replaced(back, pattern, filler)) =~= front + filler
            + replaced(back, pattern, filler));
    }
}

/// A number has one more digit than its tenth: reading on by a digit multiplies by
/// ten and adds the digit, and what is no digit makes it no number.
pub proof fn law_numbers_are_read_digit_by_digit(
    front: Seq<char>,
    last: char,
    limit: nat,
)
    requires
        front.len() > 0,
    ensures
        parsed(front, limit) matches Some(value) ==> {
            &&& '0' <= last <= '9' && value * 10 + (last as u32 - '0' as u32) <= limit ==> parsed(
                front.push(last),
                limit,
            ) == Some((value * 10 + (last as u32 - '0' as u32)) as nat)
            &&& !('0' <= last <= '9') ==> parsed(front.push(last), limit) is None
        },
        '0' <= last <= '9' && (last as u32 - '0' as u32) <= limit ==> parsed(seq![last], limit)
            == Some((last as u32 - '0' as u32) as nat),
        parsed(Seq::empty(), limit) is None,
{
    reveal_with_fuel(digits_value, 2);
    let all = front.push(last);
    let digits = without_plus(front);
    let more = without_plus(all);
    if parsed(front, limit) is Some {
        assert(more =~= digits.push(last));
        assert(more.drop_last() =~= digits);
        assert(more[more.len() - 1] == last);
        if '0' <= last <= '9' {
            assert forall|i: int| 0 <= i < more.len() implies is_digit(more[i]) by {
                if i < digits.len() {
                    assert(more[i] == digits[i]);
                }
            }
        }
    }
    let single = seq![last];
    assert(single.drop_last() =~= Seq::<char>::empty());
    if '0' <= last <= '9' {
        assert(without_plus(single) =~= single);
    }
}

} // verus!
