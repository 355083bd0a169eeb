//! What the digest of source inputs vouches for.

use vstd::prelude::*;
use vstd::string::*;
use vstd::utf8::*;

use crate::bytes::bytes_less;
use crate::bytes::lemma_split_parts;
use crate::bytes::optional_text;
use crate::bytes::utf8;
use crate::command::Command;
use crate::digest::hex_digest;
use crate::digest::lossy_text;
use crate::disk::Timestamp;
use crate::key_laws::law_terminated_is_unambiguous;
use crate::key_laws::lemma_texts_of_bytes;
use crate::key_laws::lemma_zero;
use crate::key_laws::lemma_zero_behind;
use crate::key_laws::terminated;
use crate::key_laws::without_zeros;
use crate::ordering::lemma_sorted_holds;
use crate::ordering::lemma_sorted_keys;
use crate::ordering::lemma_sorted_members;
use crate::ordering::order_of;
use crate::ordering::sorted;
use crate::path_laws::law_joined_components;
use crate::source_inputs::current_variables;
use crate::source_inputs::hashed_file;
use crate::source_inputs::hashed_file_order;
use crate::source_inputs::hashed_files;
use crate::source_inputs::hashed_files_text;
use crate::source_inputs::inputs_text;
use crate::source_inputs::is_generated;
use crate::source_inputs::lemma_matching_text;
use crate::source_inputs::lemma_present_text;
use crate::source_inputs::matching_digest;
use crate::source_inputs::matching_files_text;
use crate::source_inputs::present_digest;
use crate::source_inputs::present_files_text;
use crate::source_inputs::recorded_variables;
use crate::source_inputs::reported_order;
use crate::source_inputs::reported_text;
use crate::source_inputs::support_of;
use crate::source_inputs::DepInfo;
use crate::source_inputs::HashedFile;
use crate::source_inputs::Reported;
use crate::source_inputs::RlibCacheInputSupport;
use crate::source_inputs::SourceFile;
use crate::source_inputs::SourceInputsError;
use crate::unix_path::components;
use crate::unix_path::is_absolute;
use crate::unix_path::joined;
use crate::unix_path::starts_at_dot;

verus! {

/// A path with the contents that were found there twice.
pub type FoundTwice = (Seq<u8>, Seq<u8>, Seq<u8>);

/// The order of files found twice.
spec fn found_order() -> spec_fn(FoundTwice, FoundTwice) -> bool {
    |a: FoundTwice, b: FoundTwice| hashed_file_order()((a.0, Some(a.1)), (b.0, Some(b.1)))
}

/// A file as it was found first.
spec fn found_first() -> spec_fn(FoundTwice) -> HashedFile {
    |file: FoundTwice| (file.0, Some(file.1))
}

/// A file as it was found later.
spec fn found_later() -> spec_fn(FoundTwice) -> HashedFile {
    |file: FoundTwice| (file.0, Some(file.2))
}

/// Files that hash to the same text, with contents of the same lengths, have
/// the same contents.
proof fn lemma_found_alike(files: Seq<FoundTwice>)
    requires
        forall|i: int| 0 <= i < files.len() ==> (#[trigger] files[i]).1.len() == files[i].2.len(),
    ensures
        hashed_files_text(files.map_values(found_first())).len() == hashed_files_text(
            files.map_values(found_later()),
        ).len(),
        hashed_files_text(files.map_values(found_first())) == hashed_files_text(
            files.map_values(found_later()),
        ) ==> forall|i: int| 0 <= i < files.len() ==> (#[trigger] files[i]).1 == files[i].2,
    decreases files.len(),
{
    let first = files.map_values(found_first());
    let later = files.map_values(found_later());
    if files.len() > 0 {
        let front = files.drop_last();
        assert forall|i: int| 0 <= i < front.len() implies (#[trigger] front[i]).1.len()
            == front[i].2.len() by {
            assert(front[i] == files[i]);
        }
        lemma_found_alike(front);
        assert(first.drop_last() =~= front.map_values(found_first()));
        assert(later.drop_last() =~= front.map_values(found_later()));
        let zero = utf8("\0"@);
        let last = files.last();
        assert(last == files[files.len() - 1]);
        assert(first.last() == found_first()(last));
        assert(later.last() == found_later()(last));
        let a = hashed_files_text(first.drop_last());
        let b = hashed_files_text(later.drop_last());
        assert(hashed_files_text(first) == a + (last.0 + zero + last.1 + zero));
        assert(hashed_files_text(later) == b + (last.0 + zero + last.2 + zero));
        if hashed_files_text(first) == hashed_files_text(later) {
            lemma_split_parts(a, last.0 + zero + last.1 + zero, b, last.0 + zero + last.2 + zero);
            lemma_split_parts(last.0 + zero + last.1, zero, last.0 + zero + last.2, zero);
            lemma_split_parts(last.0 + zero, last.1, last.0 + zero, last.2);
            assert forall|i: int| 0 <= i < files.len() implies (#[trigger] files[i]).1
                == files[i].2 by {
                if i < front.len() {
                    assert(front[i] == files[i]);
                }
            }
        }
    }
}

/// A name with the values that it had twice.
pub type SeenTwice = (Seq<char>, Option<Seq<char>>, Option<Seq<char>>);

/// The order of variables seen twice.
spec fn seen_order() -> spec_fn(SeenTwice, SeenTwice) -> bool {
    |a: SeenTwice, b: SeenTwice| bytes_less(utf8(a.0), utf8(b.0))
}

/// A variable as it was seen first.
spec fn seen_first() -> spec_fn(SeenTwice) -> Reported {
    |variable: SeenTwice| (variable.0, variable.1)
}

/// A variable as it was seen later.
spec fn seen_later() -> spec_fn(SeenTwice) -> Reported {
    |variable: SeenTwice| (variable.0, variable.2)
}

/// Whether a variable holds no zero byte, as none that a process is given does.
pub open spec fn is_plain(name: Seq<char>, value: Option<Seq<char>>) -> bool {
    &&& !utf8(name).contains(0u8)
    &&& value matches Some(text) ==> !utf8(text).contains(0u8)
}

/// The byte strings that stand for variables.
spec fn reported_strings(list: Seq<Reported>) -> Seq<Seq<u8>>
    decreases list.len(),
{
    if list.len() == 0 {
        Seq::empty()
    } else {
        reported_strings(list.drop_last()).push(
            utf8(list.last().0) + utf8("="@) + match list.last().1 {
                Some(_) => utf8("set"@),
                None => utf8("unset"@),
            },
        ).push(
            match list.last().1 {
                Some(value) => utf8(value),
                None => Seq::empty(),
            },
        )
    }
}

/// The words that tell variables that are set from others.
proof fn lemma_words()
    ensures
        utf8("="@) == seq![61u8],
        utf8("set"@) == seq![115u8, 101u8, 116u8],
        utf8("unset"@) == seq![117u8, 110u8, 115u8, 101u8, 116u8],
        utf8("set\0"@) == utf8("set"@) + seq![0u8],
        utf8("unset\0"@) == utf8("unset"@) + seq![0u8],
{
    reveal_strlit("=");
    reveal_strlit("set");
    reveal_strlit("unset");
    reveal_strlit("set\0");
    reveal_strlit("unset\0");
    reveal_strlit("\0");
    is_ascii_chars_encode_utf8("="@);
    is_ascii_chars_encode_utf8("set"@);
    is_ascii_chars_encode_utf8("unset"@);
    assert(utf8("="@) =~= seq![61u8]);
    assert(utf8("set"@) =~= seq![115u8, 101u8, 116u8]);
    assert(utf8("unset"@) =~= seq![117u8, 110u8, 115u8, 101u8, 116u8]);
    assert("set\0"@ =~= "set"@ + "\0"@);
    assert("unset\0"@ =~= "unset"@ + "\0"@);
    lemma_zero_behind("set"@, "set\0"@);
    lemma_zero_behind("unset"@, "unset\0"@);
}

/// The text of variables, seen as byte strings with zero bytes behind them.
proof fn lemma_reported_strings(list: Seq<Reported>)
    requires
        forall|i: int| 0 <= i < list.len() ==> is_plain((#[trigger] list[i]).0, list[i].1),
    ensures
        reported_text(list) == terminated(reported_strings(list)),
        without_zeros(reported_strings(list)),
        reported_strings(list).len() == 2 * list.len(),
    decreases list.len(),
{
    lemma_words();
    lemma_zero();
    if list.len() > 0 {
        let front = list.drop_last();
        assert forall|i: int| 0 <= i < front.len() implies is_plain(
            (#[trigger] front[i]).0,
            front[i].1,
        ) by {
            assert(front[i] == list[i]);
        }
        lemma_reported_strings(front);
        let last = list.last();
        assert(last == list[list.len() - 1]);
        let before = reported_strings(front);
        let word = match last.1 {
            Some(_) => utf8("set"@),
            None => utf8("unset"@),
        };
        let head = utf8(last.0) + utf8("="@) + word;
        let tail = match last.1 {
            Some(value) => utf8(value),
            None => Seq::<u8>::empty(),
        };
        let all = reported_strings(list);
        assert(all == before.push(head).push(tail));
        assert(all.drop_last() =~= before.push(head));
        assert(before.push(head).drop_last() =~= before);
        assert(before.push(head).last() == head);
        assert(all.last() == tail);
        assert(terminated(before.push(head)) == terminated(before) + head + seq![0u8]);
        assert(terminated(all) == terminated(before.push(head)) + tail + seq![0u8]);
        assert(reported_text(list) =~= terminated(all));
        assert(!head.contains(0u8)) by {
            if head.contains(0u8) {
                let k = choose|k: int| 0 <= k < head.len() && head[k] == 0u8;
                if k < utf8(last.0).len() {
                    assert(utf8(last.0)[k] == 0u8);
                } else if k == utf8(last.0).len() {
                    assert(head[k] == 61u8);
                } else {
                    assert(word[k - utf8(last.0).len() - 1] == 0u8);
                }
            }
        }
        assert forall|i: int| 0 <= i < all.len() implies !(#[trigger] all[i]).contains(0u8) by {
            if i < before.len() {
                assert(all[i] == before[i]);
            }
        }
    }
}

/// Variables with the same names that are hashed alike have the same values.
proof fn lemma_seen_alike(list: Seq<SeenTwice>)
    requires
        reported_strings(list.map_values(seen_first())) == reported_strings(
            list.map_values(seen_later()),
        ),
    ensures
        forall|i: int| 0 <= i < list.len() ==> (#[trigger] list[i]).1 == list[i].2,
    decreases list.len(),
{
    let first = list.map_values(seen_first());
    let later = list.map_values(seen_later());
    if list.len() > 0 {
        let front = list.drop_last();
        let last = list.last();
        assert(first.drop_last() =~= front.map_values(seen_first()));
        assert(later.drop_last() =~= front.map_values(seen_later()));
        assert(first.last() == seen_first()(last));
        assert(later.last() == seen_later()(last));
        lemma_words();
        let a = reported_strings(first);
        let b = reported_strings(later);
        assert(a.drop_last().drop_last() =~= reported_strings(first.drop_last()));
        assert(b.drop_last().drop_last() =~= reported_strings(later.drop_last()));
        lemma_seen_alike(front);
        assert(a.last() == b.last());
        assert(a.drop_last().last() == b.drop_last().last());
        match (last.1, last.2) {
            (Some(left), Some(right)) => {
                lemma_texts_of_bytes(left, right);
            },
            (Some(_), None) => {
                assert(a.drop_last().last().len() == utf8(last.0).len() + 4);
                assert(b.drop_last().last().len() == utf8(last.0).len() + 6);
            },
            (None, Some(_)) => {
                assert(a.drop_last().last().len() == utf8(last.0).len() + 6);
                assert(b.drop_last().last().len() == utf8(last.0).len() + 4);
            },
            (None, None) => {},
        }
        assert forall|i: int| 0 <= i < list.len() implies (#[trigger] list[i]).1 == list[i].2 by {
            if i < front.len() {
                assert(front[i] == list[i]);
            }
        }
    }
}

/// Whether a file was last modified before a point in time.
pub open spec fn modified_before(file: SourceFile, started: Timestamp) -> bool {
    match file.modified {
        Some(at) => at.seconds < started.seconds || (at.seconds == started.seconds && at.nanoseconds
            < started.nanoseconds),
        None => false,
    }
}

/// Whether a file was found with the length and the checksum that the compiler
/// saw, where it reported them.
pub open spec fn is_as_reported(file: SourceFile) -> bool {
    match (file.contents, file.recorded) {
        (Some(contents), Some(seen)) => contents@.len() == seen.len && seen.matches == Some(true),
        (Some(_), None) => true,
        (None, _) => false,
    }
}

/// Files whose text is hashed are each as they were reported, and older than
/// the start.
proof fn lemma_matching_files(files: Seq<SourceFile>, started: Timestamp)
    ensures
        (matching_files_text(files, started) matches Ok(Some(_))) <==> (forall|i: int|
            0 <= i < files.len() ==> is_as_reported(#[trigger] files[i]) && modified_before(
                files[i],
                started,
            )),
    decreases files.len(),
{
    if files.len() > 0 {
        let front = files.drop_last();
        lemma_matching_files(front, started);
        assert(files.last() == files[files.len() - 1]);
        if matching_files_text(files, started) matches Ok(Some(_)) {
            assert forall|i: int| 0 <= i < files.len() implies is_as_reported(#[trigger] files[i])
                && modified_before(files[i], started) by {
                if i < front.len() {
                    assert(front[i] == files[i]);
                }
            }
        }
        if forall|i: int|
            0 <= i < files.len() ==> is_as_reported(#[trigger] files[i]) && modified_before(
                files[i],
                started,
            ) {
            assert forall|i: int| 0 <= i < front.len() implies is_as_reported(#[trigger] front[i])
                && modified_before(front[i], started) by {
                assert(front[i] == files[i]);
            }
        }
    }
}

/// Files whose text is hashed are each there now.
proof fn lemma_present_files(files: Seq<SourceFile>)
    ensures
        present_files_text(files) is Some <==> (forall|i: int|
            0 <= i < files.len() ==> (#[trigger] files[i]).is_file && files[i].contents is Some),
    decreases files.len(),
{
    if files.len() > 0 {
        let front = files.drop_last();
        lemma_present_files(front);
        assert(files.last() == files[files.len() - 1]);
        if present_files_text(files) is Some {
            assert forall|i: int| 0 <= i < files.len() implies (#[trigger] files[i]).is_file
                && files[i].contents is Some by {
                if i < front.len() {
                    assert(front[i] == files[i]);
                }
            }
        }
        if forall|i: int|
            0 <= i < files.len() ==> (#[trigger] files[i]).is_file && files[i].contents is Some {
            assert forall|i: int| 0 <= i < front.len() implies (#[trigger] front[i]).is_file
                && front[i].contents is Some by {
                assert(front[i] == files[i]);
            }
        }
    }
}

/// Inputs get a digest to be stored under exactly where every reported file was
/// found with the length and the checksum that the compiler saw, and was last
/// modified before the compiler was started. Without a report there is none.
pub proof fn law_stored_inputs_were_read(dep_info: DepInfo, started: Timestamp)
    ensures
        (matching_digest(Some(dep_info), started) matches Ok(Some(_))) <==> (forall|i: int|
            0 <= i < dep_info.files@.len() ==> is_as_reported(#[trigger] dep_info.files@[i])
                && modified_before(dep_info.files@[i], started)),
        matching_digest(None, started) == Ok::<Option<Seq<char>>, SourceInputsError>(None),
{
    let less = order_of::<SourceFile>();
    let files = dep_info.files@;
    let list = sorted(files, less);
    lemma_matching_files(list, started);
    lemma_sorted_members(files, less);
    if matching_digest(Some(dep_info), started) matches Ok(Some(_)) {
        assert forall|i: int| 0 <= i < files.len() implies is_as_reported(#[trigger] files[i])
            && modified_before(files[i], started) by {
            lemma_sorted_holds(files, less, i);
            let k = choose|k: int| 0 <= k < list.len() && list[k] == files[i];
            assert(is_as_reported(list[k]));
        }
    }
    if forall|i: int|
        0 <= i < files.len() ==> is_as_reported(#[trigger] files[i]) && modified_before(
            files[i],
            started,
        ) {
        assert forall|k: int| 0 <= k < list.len() implies is_as_reported(#[trigger] list[k])
            && modified_before(list[k], started) by {
            assert(files.contains(list[k]));
        }
    }
}

/// Inputs are found exactly where every reported file is a regular file with
/// contents. Without a report nothing is found.
pub proof fn law_found_inputs_are_there(dep_info: DepInfo, rustc: &Command)
    ensures
        present_digest(Some(dep_info), rustc) is Some <==> (forall|i: int|
            0 <= i < dep_info.files@.len() ==> (#[trigger] dep_info.files@[i]).is_file
                && dep_info.files@[i].contents is Some),
        present_digest(None, rustc) is None,
{
    let less = order_of::<SourceFile>();
    let files = dep_info.files@;
    let list = sorted(files, less);
    lemma_present_files(list);
    lemma_sorted_members(files, less);
    if present_digest(Some(dep_info), rustc) is Some {
        assert forall|i: int| 0 <= i < files.len() implies (#[trigger] files[i]).is_file
            && files[i].contents is Some by {
            lemma_sorted_holds(files, less, i);
            let k = choose|k: int| 0 <= k < list.len() && list[k] == files[i];
            assert(list[k].is_file);
        }
    }
    if forall|i: int|
        0 <= i < files.len() ==> (#[trigger] files[i]).is_file && files[i].contents is Some {
        assert forall|k: int| 0 <= k < list.len() implies (#[trigger] list[k]).is_file
            && list[k].contents is Some by {
            assert(files.contains(list[k]));
        }
    }
}

/// The text that is hashed when outputs are stored.
pub open spec fn stored_text(stored: DepInfo, started: Timestamp) -> Seq<u8> {
    inputs_text(
        matching_files_text(
            sorted(stored.files@, order_of::<SourceFile>()),
            started,
        )->Ok_0->Some_0,
        recorded_variables(stored.env@),
    )
}

/// The text that is hashed when outputs are looked for.
pub open spec fn found_text(found: DepInfo, rustc: &Command) -> Seq<u8> {
    inputs_text(
        present_files_text(sorted(found.files@, order_of::<SourceFile>()))->Some_0,
        current_variables(found.env@, rustc),
    )
}

/// Whether two reports name the same files, found with contents of the same
/// lengths.
pub open spec fn same_sizes(stored: DepInfo, found: DepInfo) -> bool {
    &&& stored.files@.len() == found.files@.len()
    &&& forall|i: int|
        0 <= i < stored.files@.len() ==> {
            &&& (#[trigger] stored.files@[i]).path@ == found.files@[i].path@
            &&& stored.files@[i].contents is Some
            &&& found.files@[i].contents is Some
            &&& stored.files@[i].contents->Some_0@.len() == found.files@[i].contents->Some_0@.len()
        }
}

/// The files of two reports in the order in which they are hashed.
spec fn files_twice(stored: DepInfo, found: DepInfo) -> Seq<FoundTwice> {
    Seq::new(
        stored.files@.len(),
        |i: int|
            (
                stored.files@[i].path@,
                stored.files@[i].contents->Some_0@,
                found.files@[i].contents->Some_0@,
            ),
    )
}

/// The texts of the files of two reports, from what was found twice.
proof fn lemma_files_twice(stored: DepInfo, found: DepInfo, started: Timestamp, rustc: &Command)
    requires
        matching_digest(Some(stored), started) matches Ok(Some(_)),
        present_digest(Some(found), rustc) is Some,
        same_sizes(stored, found),
    ensures
        ({
            let twice = sorted(files_twice(stored, found), found_order());
            &&& matching_files_text(
                sorted(stored.files@, order_of::<SourceFile>()),
                started,
            )->Ok_0->Some_0 == hashed_files_text(twice.map_values(found_first()))
            &&& present_files_text(sorted(found.files@, order_of::<SourceFile>()))->Some_0
                == hashed_files_text(twice.map_values(found_later()))
        }),
{
    let less = order_of::<SourceFile>();
    let key = |file: SourceFile| hashed_file(file);
    let ours = sorted(stored.files@, less);
    let theirs = sorted(found.files@, less);
    let list = files_twice(stored, found);
    lemma_sorted_keys(stored.files@, less, key, hashed_file_order());
    lemma_sorted_keys(found.files@, less, key, hashed_file_order());
    lemma_sorted_keys(list, found_order(), found_first(), hashed_file_order());
    lemma_sorted_keys(list, found_order(), found_later(), hashed_file_order());
    assert(list.map_values(found_first()) =~= stored.files@.map_values(key)) by {
        assert forall|i: int| 0 <= i < list.len() implies list.map_values(found_first())[i]
            == stored.files@.map_values(key)[i] by {
            assert(stored.files@[i].contents is Some);
        }
    }
    assert(list.map_values(found_later()) =~= found.files@.map_values(key)) by {
        assert forall|i: int| 0 <= i < list.len() implies list.map_values(found_later())[i]
            == found.files@.map_values(key)[i] by {
            assert(stored.files@[i].contents is Some);
        }
    }
    assert(hashed_files(ours) =~= ours.map_values(key));
    assert(hashed_files(theirs) =~= theirs.map_values(key));
    lemma_matching_text(ours, started);
    lemma_present_files(theirs);
    lemma_present_text(theirs);
}

/// Whether two texts that hash to the same digest are the same.
pub open spec fn told_apart(left: Seq<u8>, right: Seq<u8>) -> bool {
    hex_digest(left) == hex_digest(right) ==> left == right
}

/// An edit that keeps a file's length is noticed: where the digest that is found
/// is the one that was stored, and the digest tells the two texts apart, every
/// reported file has the contents that the compiler read.
pub proof fn law_edited_sources_are_noticed(
    stored: DepInfo,
    found: DepInfo,
    started: Timestamp,
    rustc: &Command,
)
    requires
        matching_digest(Some(stored), started) matches Ok(Some(_)),
        present_digest(Some(found), rustc) == matching_digest(Some(stored), started)->Ok_0,
        told_apart(stored_text(stored, started), found_text(found, rustc)),
        same_sizes(stored, found),
    ensures
        forall|i: int|
            0 <= i < stored.files@.len() ==> (#[trigger] stored.files@[i]).contents->Some_0@
                == found.files@[i].contents->Some_0@,
{
    let list = files_twice(stored, found);
    let twice = sorted(list, found_order());
    lemma_files_twice(stored, found, started, rustc);
    lemma_sorted_members(list, found_order());
    assert forall|k: int| 0 <= k < twice.len() implies (#[trigger] twice[k]).1.len()
        == twice[k].2.len() by {
        assert(list.contains(twice[k]));
        let i = choose|i: int| 0 <= i < list.len() && list[i] == twice[k];
        assert(stored.files@[i].contents is Some);
    }
    lemma_found_alike(twice);
    let mark = utf8("cargo-artifact-cache-inputs-v1\0"@);
    let a = hashed_files_text(twice.map_values(found_first()));
    let b = hashed_files_text(twice.map_values(found_later()));
    let v = reported_text(sorted(recorded_variables(stored.env@), reported_order()));
    let w = reported_text(sorted(current_variables(found.env@, rustc), reported_order()));
    assert(stored_text(stored, started) == mark + a + v);
    assert(found_text(found, rustc) == mark + b + w);
    lemma_split_parts(mark + a, v, mark + b, w);
    lemma_split_parts(mark, a, mark, b);
    assert forall|i: int| 0 <= i < stored.files@.len() implies (
    #[trigger] stored.files@[i]).contents->Some_0@ == found.files@[i].contents->Some_0@ by {
        lemma_sorted_holds(list, found_order(), i);
        let k = choose|k: int| 0 <= k < twice.len() && twice[k] == list[i];
        assert(twice[k].1 == twice[k].2);
    }
}

/// The value that an invocation gives to a variable, as text.
pub open spec fn given_value(rustc: &Command, name: Seq<char>) -> Option<Seq<char>> {
    match rustc.effective(name) {
        Some(value) => Some(lossy_text(value)),
        None => None,
    }
}

/// A changed variable is noticed: where the digest that is found is the one that
/// was stored, the digest tells the two texts apart, and the files are as long as
/// they were, the invocation gives each reported variable the value that the
/// compiler saw, or leaves it unset as the compiler found it.
pub proof fn law_changed_variables_are_noticed(
    stored: DepInfo,
    found: DepInfo,
    started: Timestamp,
    rustc: &Command,
)
    requires
        matching_digest(Some(stored), started) matches Ok(Some(_)),
        present_digest(Some(found), rustc) == matching_digest(Some(stored), started)->Ok_0,
        told_apart(stored_text(stored, started), found_text(found, rustc)),
        same_sizes(stored, found),
        stored.env@.len() == found.env@.len(),
        forall|i: int|
            0 <= i < stored.env@.len() ==> {
                &&& (#[trigger] stored.env@[i]).name@ == found.env@[i].name@
                &&& is_plain(stored.env@[i].name@, optional_text(stored.env@[i].value))
                &&& is_plain(
                    stored.env@[i].name@,
                    given_value(rustc, stored.env@[i].name@),
                )
            },
    ensures
        forall|i: int|
            0 <= i < stored.env@.len() ==> optional_text((#[trigger] stored.env@[i]).value)
                == given_value(rustc, stored.env@[i].name@),
{
    let files = files_twice(stored, found);
    let twice = sorted(files, found_order());
    lemma_files_twice(stored, found, started, rustc);
    lemma_sorted_members(files, found_order());
    assert forall|k: int| 0 <= k < twice.len() implies (#[trigger] twice[k]).1.len()
        == twice[k].2.len() by {
        assert(files.contains(twice[k]));
        let i = choose|i: int| 0 <= i < files.len() && files[i] == twice[k];
        assert(stored.files@[i].contents is Some);
    }
    lemma_found_alike(twice);
    let mark = utf8("cargo-artifact-cache-inputs-v1\0"@);
    let a = hashed_files_text(twice.map_values(found_first()));
    let b = hashed_files_text(twice.map_values(found_later()));
    let list = Seq::new(
        stored.env@.len(),
        |i: int|
            (
                stored.env@[i].name@,
                optional_text(stored.env@[i].value),
                given_value(rustc, stored.env@[i].name@),
            ),
    );
    let ordered = sorted(list, seen_order());
    lemma_sorted_keys(list, seen_order(), seen_first(), reported_order());
    lemma_sorted_keys(list, seen_order(), seen_later(), reported_order());
    assert(list.map_values(seen_first()) =~= recorded_variables(stored.env@));
    assert(list.map_values(seen_later()) =~= current_variables(found.env@, rustc)) by {
        assert forall|i: int| 0 <= i < list.len() implies list.map_values(seen_later())[i]
            == current_variables(found.env@, rustc)[i] by {
            assert(stored.env@[i].name@ == found.env@[i].name@);
        }
    }
    let first = ordered.map_values(seen_first());
    let later = ordered.map_values(seen_later());
    assert(stored_text(stored, started) == mark + a + reported_text(first));
    assert(found_text(found, rustc) == mark + b + reported_text(later));
    lemma_split_parts(mark + a, reported_text(first), mark + b, reported_text(later));
    lemma_sorted_members(list, seen_order());
    assert forall|k: int| 0 <= k < ordered.len() implies is_plain(
        (#[trigger] ordered[k]).0,
        ordered[k].1,
    ) && is_plain(ordered[k].0, ordered[k].2) by {
        assert(list.contains(ordered[k]));
        let i = choose|i: int| 0 <= i < list.len() && list[i] == ordered[k];
        assert(stored.env@[i].name@ == found.env@[i].name@);
    }
    assert forall|k: int| 0 <= k < first.len() implies is_plain((#[trigger] first[k]).0, first[k].1) by {
        assert(first[k] == seen_first()(ordered[k]));
    }
    assert forall|k: int| 0 <= k < later.len() implies is_plain((#[trigger] later[k]).0, later[k].1) by {
        assert(later[k] == seen_later()(ordered[k]));
    }
    lemma_reported_strings(first);
    lemma_reported_strings(later);
    law_terminated_is_unambiguous(reported_strings(first), reported_strings(later));
    lemma_seen_alike(ordered);
    assert forall|i: int| 0 <= i < stored.env@.len() implies optional_text(
        (#[trigger] stored.env@[i]).value,
    ) == given_value(rustc, stored.env@[i].name@) by {
        lemma_sorted_holds(list, seen_order(), i);
        let k = choose|k: int| 0 <= k < ordered.len() && ordered[k] == list[i];
        assert(ordered[k].1 == ordered[k].2);
    }
}

/// A compilation that read a file below the build directory, or below the
/// directory that outputs go to, is not covered, whatever else it read. One
/// without a report is not covered either.
pub proof fn law_generated_sources_are_not_covered(
    dep_info: DepInfo,
    index: int,
    below: Seq<u8>,
    cwd: Seq<u8>,
    build_dir: Seq<u8>,
    output_root: Seq<u8>,
)
    requires
        0 <= index < dep_info.files@.len(),
        is_absolute(build_dir),
        is_absolute(output_root),
        !is_absolute(below),
        !starts_at_dot(below),
        ({
            let path = dep_info.files@[index].path@;
            ||| path == joined(build_dir, below)
            ||| path == joined(output_root, below)
            ||| path == below && (cwd == build_dir || cwd == output_root)
        }),
    ensures
        support_of(Some(dep_info), cwd, build_dir, output_root)
            == RlibCacheInputSupport::GeneratedBuildInput,
        support_of(None, cwd, build_dir, output_root) == RlibCacheInputSupport::MissingDepInfo,
{
    law_joined_components(build_dir, below);
    law_joined_components(output_root, below);
    assert(components(build_dir).is_prefix_of(components(build_dir) + components(below)));
    assert(components(output_root).is_prefix_of(components(output_root) + components(below)));
    assert(joined(cwd, joined(build_dir, below)) == joined(build_dir, below));
    assert(joined(cwd, joined(output_root, below)) == joined(output_root, below));
}

/// Whether `path` has another component than `base` at one place, or none.
pub open spec fn parts_at(path: Seq<u8>, base: Seq<u8>, at: int) -> bool {
    &&& 0 <= at < components(base).len()
    &&& at < components(path).len() ==> components(path)[at] != components(base)[at]
}

/// Whether `path` leaves `base` at some component.
pub open spec fn stands_elsewhere(path: Seq<u8>, base: Seq<u8>) -> bool {
    exists|at: int| parts_at(path, base, at)
}

/// A compilation whose files all stand elsewhere is covered.
pub proof fn law_other_sources_are_covered(
    dep_info: DepInfo,
    cwd: Seq<u8>,
    build_dir: Seq<u8>,
    output_root: Seq<u8>,
)
    requires
        forall|i: int|
            0 <= i < dep_info.files@.len() ==> stands_elsewhere(
                joined(cwd, (#[trigger] dep_info.files@[i]).path@),
                build_dir,
            ) && stands_elsewhere(joined(cwd, dep_info.files@[i].path@), output_root),
    ensures
        support_of(Some(dep_info), cwd, build_dir, output_root)
            == RlibCacheInputSupport::Supported,
{
    assert forall|i: int| 0 <= i < dep_info.files@.len() implies !is_generated(
        (#[trigger] dep_info.files@[i]).path@,
        cwd,
        build_dir,
        output_root,
    ) by {
        let path = joined(cwd, dep_info.files@[i].path@);
        let k = choose|k: int| parts_at(path, build_dir, k);
        assert(parts_at(path, build_dir, k));
        let m = choose|m: int| parts_at(path, output_root, m);
        assert(parts_at(path, output_root, m));
    }
}

} // verus!
