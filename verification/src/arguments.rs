//! Building argument lists.

use vstd::prelude::*;
use vstd::string::*;
use vstd::utf8::*;

use crate::bytes::copy_bytes;
use crate::bytes::push_bytes;
use crate::bytes::utf8;
use crate::text::texts;
use crate::unix_path::byte_strings;

verus! {

/// A list of arguments.
pub type Words = Seq<Seq<u8>>;

/// No arguments.
pub open spec fn no_words() -> Words {
    Seq::empty()
}

/// One argument.
pub open spec fn word(text: Seq<char>) -> Words {
    seq![utf8(text)]
}

/// A flag and its value.
pub open spec fn flag(name: Seq<char>, value: Seq<u8>) -> Words {
    seq![utf8(name), value]
}

/// A flag and its value, which is text.
pub open spec fn text_flag(name: Seq<char>, value: Seq<char>) -> Words {
    seq![utf8(name), utf8(value)]
}

/// Texts as arguments.
pub open spec fn text_words(list: Seq<String>) -> Words {
    Seq::new(list.len(), |i: int| utf8(list[i]@))
}

/// Adds an argument.
pub fn push_word(out: &mut Vec<Vec<u8>>, text: &str)
    ensures
        byte_strings(final(out)@) == byte_strings(old(out)@) + word(text@),
{
    let ghost before = out@;
    out.push(copy_bytes(text.as_bytes()));
    proof {
        assert(byte_strings(out@) =~= byte_strings(before) + word(text@));
    }
}

/// Adds an argument that need not be text.
pub fn push_raw_word(out: &mut Vec<Vec<u8>>, argument: &[u8])
    ensures
        byte_strings(final(out)@) == byte_strings(old(out)@) + seq![argument@],
{
    let ghost before = out@;
    out.push(copy_bytes(argument));
    proof {
        assert(byte_strings(out@) =~= byte_strings(before) + seq![argument@]);
    }
}

/// Adds a flag and its value.
pub fn push_flag(out: &mut Vec<Vec<u8>>, name: &str, value: &[u8])
    ensures
        byte_strings(final(out)@) == byte_strings(old(out)@) + flag(name@, value@),
{
    let ghost before = out@;
    out.push(copy_bytes(name.as_bytes()));
    out.push(copy_bytes(value));
    proof {
        assert(byte_strings(out@) =~= byte_strings(before) + flag(name@, value@));
    }
}

/// Adds a flag and its value, which is text.
pub fn push_text_flag(out: &mut Vec<Vec<u8>>, name: &str, value: &str)
    ensures
        byte_strings(final(out)@) == byte_strings(old(out)@) + text_flag(name@, value@),
{
    push_flag(out, name, value.as_bytes());
    proof {
        assert(flag(name@, utf8(value@)) =~= text_flag(name@, value@));
    }
}

/// Adds a flag whose value is two texts together.
pub fn push_joined_flag(out: &mut Vec<Vec<u8>>, name: &str, key: &str, value: &str)
    ensures
        byte_strings(final(out)@) == byte_strings(old(out)@) + text_flag(name@, key@ + value@),
{
    let text = two_texts(key, value);
    push_text_flag(out, name, text.as_str());
}

/// Adds a flag whose value is a text and something that need not be text.
pub fn push_raw_flag(out: &mut Vec<Vec<u8>>, name: &str, key: &str, value: &[u8])
    ensures
        byte_strings(final(out)@) == byte_strings(old(out)@) + flag(name@, utf8(key@) + value@),
{
    let argument = text_and_bytes(key, value);
    push_flag(out, name, argument.as_slice());
}

/// Two texts one behind the other.
pub fn two_texts(first: &str, second: &str) -> (text: String)
    ensures
        text@ == first@ + second@,
{
    let mut text = first.to_owned();
    text.append(second);
    text
}

/// A text and bytes one behind the other.
pub fn text_and_bytes(first: &str, second: &[u8]) -> (bytes: Vec<u8>)
    ensures
        bytes@ == utf8(first@) + second@,
{
    let mut bytes = copy_bytes(first.as_bytes());
    push_bytes(&mut bytes, second);
    bytes
}

/// Adds arguments.
pub fn push_words(out: &mut Vec<Vec<u8>>, more: &Vec<Vec<u8>>)
    ensures
        byte_strings(final(out)@) == byte_strings(old(out)@) + byte_strings(more@),
{
    let ghost before = byte_strings(out@);
    let ghost all = byte_strings(more@);
    let mut index: usize = 0;
    proof {
        assert(before + all.take(0) =~= before);
    }
    while index < more.len()
        invariant
            index <= more@.len(),
            all == byte_strings(more@),
            byte_strings(out@) == before + all.take(index as int),
        decreases more@.len() - index,
    {
        let ghost so_far = out@;
        out.push(copy_bytes(more[index].as_slice()));
        proof {
            assert(byte_strings(out@) =~= byte_strings(so_far).push(all[index as int]));
            assert((before + all.take(index as int)).push(all[index as int]) =~= before + all.take(
                index + 1,
            ));
        }
        index = index + 1;
    }
    proof {
        assert(all.take(index as int) =~= all);
    }
}

/// Adds texts as arguments.
pub fn push_text_words(out: &mut Vec<Vec<u8>>, more: &Vec<String>)
    ensures
        byte_strings(final(out)@) == byte_strings(old(out)@) + text_words(more@),
{
    let ghost before = byte_strings(out@);
    let ghost all = text_words(more@);
    let mut index: usize = 0;
    proof {
        assert(before + all.take(0) =~= before);
    }
    while index < more.len()
        invariant
            index <= more@.len(),
            all == text_words(more@),
            byte_strings(out@) == before + all.take(index as int),
        decreases more@.len() - index,
    {
        let ghost so_far = out@;
        out.push(copy_bytes(more[index].as_str().as_bytes()));
        proof {
            assert(byte_strings(out@) =~= byte_strings(so_far).push(all[index as int]));
            assert((before + all.take(index as int)).push(all[index as int]) =~= before + all.take(
                index + 1,
            ));
        }
        index = index + 1;
    }
    proof {
        assert(all.take(index as int) =~= all);
    }
}

/// Nothing behind arguments changes nothing.
pub proof fn lemma_no_words(list: Words)
    ensures
        list + no_words() == list,
        no_words() + list == list,
{
    assert(list + no_words() =~= list);
    assert(no_words() + list =~= list);
}

/// A flag in front of each of the texts.
pub open spec fn repeated_flag(name: Seq<char>, values: Seq<Seq<char>>) -> Words
    decreases values.len(),
{
    if values.len() == 0 {
        no_words()
    } else {
        repeated_flag(name, values.drop_last()) + text_flag(name, values.last())
    }
}

/// Adds a flag in front of each of the texts.
pub fn push_repeated_flag(out: &mut Vec<Vec<u8>>, name: &str, values: &Vec<String>)
    ensures
        byte_strings(final(out)@) == byte_strings(old(out)@) + repeated_flag(
            name@,
            texts(values@),
        ),
{
    let ghost before = byte_strings(out@);
    let ghost all = texts(values@);
    let mut index: usize = 0;
    proof {
        assert(all.take(0) =~= Seq::empty());
        lemma_no_words(before);
    }
    while index < values.len()
        invariant
            index <= values@.len(),
            all == texts(values@),
            byte_strings(out@) == before + repeated_flag(name@, all.take(index as int)),
        decreases values@.len() - index,
    {
        push_text_flag(out, name, values[index].as_str());
        proof {
            assert(all.take(index + 1).drop_last() =~= all.take(index as int));
            assert(all.take(index + 1).last() == values@[index as int]@);
            assert(byte_strings(out@) =~= before + repeated_flag(name@, all.take(index + 1)));
        }
        index = index + 1;
    }
    proof {
        assert(all.take(index as int) =~= all);
    }
}

} // verus!
