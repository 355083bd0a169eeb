//! Writing a cache entry: what is staged, and that it verifies.

use vstd::prelude::*;
use vstd::string::*;
use vstd::utf8::*;

use crate::bytes::copy_bytes;
use crate::bytes::utf8;
use crate::digest::blake3_hex;
use crate::digest::hex_digest;
use crate::digest::is_hex_digest;
use crate::digest::is_hex_digit;
use crate::digest::lossy_text;
use crate::digest::text_from_utf8_lossy;
use crate::disk::Lookup;
use crate::entry::append_rlib_cache_manifest;
use crate::entry::control_files;
use crate::entry::control_verified;
use crate::entry::digest_for;
use crate::entry::entry_files;
use crate::entry::entry_verified;
use crate::entry::file_verified;
use crate::entry::files_verified;
use crate::entry::is_listed;
use crate::entry::line_of;
use crate::entry::line_text;
use crate::entry::lines_from;
use crate::entry::manifest_lines;
use crate::entry::manifest_text;
use crate::entry::output_path;
use crate::entry::output_paths;
use crate::entry::stored_at;
use crate::entry::verified_manifest;
use crate::entry::Listed;
use crate::entry::StoredFile;
use crate::text::first_at;
use crate::text::is_space;
use crate::text::lemma_first_at;
use crate::text::lemma_first_at_unique;
use crate::text::lines_of;
use crate::text::trimmed;
use crate::text::trimmed_end;
use crate::text::without_carriage_return;
use crate::unix_path::join_path;

verus! {

/// An output that is staged: its file name and its contents.
pub struct StagedOutput {
    pub name: Vec<u8>,
    pub contents: Vec<u8>,
}

/// A staged file: its path below the entry and its contents.
pub type Staged = (Seq<char>, Seq<u8>);

/// The outputs as staged files.
pub open spec fn staged_outputs(outputs: Seq<StagedOutput>) -> Seq<Staged> {
    Seq::new(outputs.len(), |i: int| (output_path(outputs[i].name@), outputs[i].contents@))
}

/// The files that are listed in the manifest of an entry, in order.
pub open spec fn staged_files(
    outputs: Seq<StagedOutput>,
    dep_info: Option<Seq<u8>>,
    messages: Seq<u8>,
    inputs_digest: Seq<char>,
    pkg_root: Seq<u8>,
    profile_root: Seq<u8>,
) -> Seq<Staged> {
    staged_outputs(outputs) + match dep_info {
        Some(dep_info) => seq![("rustc-dep-info"@, dep_info)],
        None => Seq::empty(),
    } + seq![
        ("compiler-messages"@, messages),
        ("inputs.blake3"@, utf8(inputs_digest + "\n"@)),
        ("origin-pkg-root"@, utf8(lossy_text(pkg_root))),
        ("origin-target-profile-root"@, utf8(lossy_text(profile_root))),
    ]
}

/// The lines of the manifest for staged files.
pub open spec fn staged_lines(files: Seq<Staged>) -> Seq<Listed> {
    Seq::new(files.len(), |i: int| (files[i].0, hex_digest(files[i].1)))
}

/// The manifest for staged files.
pub open spec fn staged_manifest(files: Seq<Staged>) -> Seq<char> {
    manifest_text(staged_lines(files))
}

/// All files of a staged entry: the listed ones, the manifest and the
/// completion mark.
pub open spec fn entry_of(files: Seq<Staged>) -> Seq<Staged> {
    files + seq![
        ("manifest.blake3"@, utf8(staged_manifest(files))),
        ("complete"@, utf8(hex_digest(utf8(staged_manifest(files))) + "\n"@)),
    ]
}

/// Whether stored files are the given ones.
pub open spec fn stores(stored: Seq<StoredFile>, files: Seq<Staged>) -> bool {
    stored.len() == files.len() && forall|i: int|
        0 <= i < files.len() ==> (#[trigger] stored[i]).path@ == files[i].0 && match stored[i].contents {
            Lookup::Found(contents) => contents@ == files[i].1,
            _ => false,
        }
}

/// Whether paths are plain: no tab, no line feed, not empty.
pub open spec fn is_plain(path: Seq<char>) -> bool {
    path.len() > 0 && !path.contains('\t') && !path.contains('\n')
}

/// Whether the files of an entry have plain paths, each once.
pub open spec fn well_named(files: Seq<Staged>) -> bool {
    &&& forall|i: int| 0 <= i < files.len() ==> is_plain((#[trigger] files[i]).0)
    &&& forall|i: int, j: int|
        0 <= i < j < files.len() ==> (#[trigger] files[i]).0 != (#[trigger] files[j]).0
}

/// Whether staged files have digests in hexadecimal notation.
pub open spec fn well_digested(files: Seq<Staged>) -> bool {
    &&& forall|i: int| 0 <= i < files.len() ==> is_hex_digest(hex_digest((#[trigger] files[i]).1))
    &&& is_hex_digest(hex_digest(utf8(staged_manifest(files))))
}

/// The lines of two texts, the first of which ends with a line, are the lines
/// of both.
proof fn lemma_lines_concat(first: Seq<char>, second: Seq<char>)
    requires
        first.len() == 0 || first.last() == '\n',
    ensures
        lines_of(first + second) == lines_of(first) + lines_of(second),
    decreases first.len(),
{
    if first.len() == 0 {
        assert(first + second =~= second);
        assert(lines_of(first) + lines_of(second) =~= lines_of(second));
    } else {
        lemma_first_at(first, '\n');
        let at = first_at(first, '\n');
        if at == first.len() {
            assert(first[first.len() - 1] != '\n');
        }
        let whole = first + second;
        assert forall|k: int| 0 <= k < at implies whole[k] != '\n' by {
            assert(whole[k] == first[k]);
        }
        lemma_first_at_unique(whole, '\n', at);
        let rest = first.skip(at + 1);
        assert(whole.skip(at + 1) =~= rest + second);
        assert(whole.take(at) =~= first.take(at));
        if rest.len() > 0 {
            assert(rest.last() == first.last());
        }
        lemma_lines_concat(rest, second);
        assert(lines_of(whole) =~= seq![without_carriage_return(first.take(at))] + (lines_of(rest)
            + lines_of(second)));
        assert(lines_of(first) + lines_of(second) =~= lines_of(whole));
    }
}

/// The text of a line without its end.
pub open spec fn bare_line(line: Listed) -> Seq<char> {
    line.0 + "\t"@ + line.1
}

/// A line of a plain path and a hexadecimal digest is read back.
proof fn lemma_line_read_back(line: Listed)
    requires
        is_plain(line.0),
        is_hex_digest(line.1),
    ensures
        lines_of(line_text(line)) == seq![bare_line(line)],
        line_of(bare_line(line)) == Some(line),
        line_text(line).last() == '\n',
{
    reveal_strlit("\t");
    reveal_strlit("\n");
    let text = line_text(line);
    let bare = bare_line(line);
    assert(text =~= bare.push('\n'));
    let at = bare.len() as int;
    assert forall|k: int| 0 <= k < at implies text[k] != '\n' by {
        if k < line.0.len() {
            assert(text[k] == line.0[k]);
            assert(line.0.contains(line.0[k]));
        } else if k > line.0.len() {
            let d = k - line.0.len() - 1;
            assert(text[k] == line.1[d]);
            assert(is_hex_digit(line.1[d]));
        }
    }
    lemma_first_at_unique(text, '\n', at);
    assert(text.take(at) =~= bare);
    assert(bare.last() == line.1[63]);
    assert(is_hex_digit(line.1[63]));
    assert(text.skip(at + 1) =~= Seq::<char>::empty());
    assert(lines_of(text.skip(at + 1)) =~= Seq::<Seq<char>>::empty());
    assert(without_carriage_return(bare) == bare);
    assert(lines_of(text) == seq![without_carriage_return(text.take(at))] + lines_of(
        text.skip(at + 1),
    ));
    assert(lines_of(text) =~= seq![bare]);
    assert forall|k: int| 0 <= k < line.0.len() implies bare[k] != '\t' by {
        assert(bare[k] == line.0[k]);
        assert(line.0.contains(line.0[k]));
    }
    lemma_first_at_unique(bare, '\t', line.0.len() as int);
    assert(bare.take(line.0.len() as int) =~= line.0);
    assert(bare.skip(line.0.len() as int + 1) =~= line.1);
    assert(!line.1.contains('\t')) by {
        if line.1.contains('\t') {
            let k = choose|k: int| 0 <= k < line.1.len() && line.1[k] == '\t';
            assert(is_hex_digit(line.1[k]));
        }
    }
}

/// Reading a manifest gives back the lines that were written, where their
/// paths are plain and distinct and their digests are hexadecimal.
pub proof fn law_manifest_round_trip(list: Seq<Listed>)
    requires
        forall|i: int|
            0 <= i < list.len() ==> is_plain((#[trigger] list[i]).0) && is_hex_digest(list[i].1),
        forall|i: int, j: int|
            0 <= i < j < list.len() ==> (#[trigger] list[i]).0 != (#[trigger] list[j]).0,
    ensures
        manifest_lines(manifest_text(list)) == Some(list),
{
    lemma_manifest_lines(list);
}

/// The lines of a manifest text.
proof fn lemma_manifest_lines(list: Seq<Listed>)
    requires
        forall|i: int|
            0 <= i < list.len() ==> is_plain((#[trigger] list[i]).0) && is_hex_digest(list[i].1),
        forall|i: int, j: int|
            0 <= i < j < list.len() ==> (#[trigger] list[i]).0 != (#[trigger] list[j]).0,
    ensures
        lines_of(manifest_text(list)).len() == list.len(),
        lines_from(lines_of(manifest_text(list))) == Some(list),
        list.len() > 0 ==> manifest_text(list).len() > 0 && manifest_text(list).last() == '\n',
    decreases list.len(),
{
    if list.len() > 0 {
        let before = list.drop_last();
        let last = list.last();
        assert forall|i: int| 0 <= i < before.len() implies is_plain((#[trigger] before[i]).0)
            && is_hex_digest(before[i].1) by {
            assert(before[i] == list[i]);
        }
        assert forall|i: int, j: int| 0 <= i < j < before.len() implies (#[trigger] before[i]).0
            != (#[trigger] before[j]).0 by {
            assert(before[i] == list[i]);
            assert(before[j] == list[j]);
        }
        lemma_manifest_lines(before);
        assert(last == list[list.len() - 1]);
        lemma_line_read_back(last);
        if before.len() == 0 {
            assert(manifest_text(before) =~= Seq::<char>::empty());
        }
        lemma_lines_concat(manifest_text(before), line_text(last));
        let texts = lines_of(manifest_text(list));
        assert(texts =~= lines_of(manifest_text(before)) + seq![bare_line(last)]);
        assert(texts.drop_last() =~= lines_of(manifest_text(before)));
        assert(texts.last() == bare_line(last));
        assert(!is_listed(before, last.0)) by {
            if is_listed(before, last.0) {
                let i = choose|i: int| 0 <= i < before.len() && (#[trigger] before[i]).0 == last.0;
                assert(list[i].0 != list[list.len() - 1].0);
            }
        }
        assert(before.push(last) =~= list);
        assert(line_text(last).len() > 0);
        assert(manifest_text(list).last() == line_text(last).last());
    }
}

/// A stored file is found at its path, where no other has that path.
proof fn lemma_stored_at(stored: Seq<StoredFile>, files: Seq<Staged>, at: int)
    requires
        stores(stored, files),
        0 <= at < files.len(),
        forall|i: int| 0 <= i < at ==> (#[trigger] files[i]).0 != files[at].0,
    ensures
        stored_at(stored, files[at].0) == Lookup::Found(files[at].1),
    decreases at,
{
    assert(stored[0].path@ == files[0].0);
    if at > 0 {
        assert(files[0].0 != files[at].0);
        let rest = stored.drop_first();
        let rest_files = files.drop_first();
        assert forall|i: int| 0 <= i < rest_files.len() implies (#[trigger] rest[i]).path@
            == rest_files[i].0 && match rest[i].contents {
            Lookup::Found(contents) => contents@ == rest_files[i].1,
            _ => false,
        } by {
            assert(rest[i] == stored[i + 1]);
            assert(rest_files[i] == files[i + 1]);
        }
        assert forall|i: int| 0 <= i < at - 1 implies (#[trigger] rest_files[i]).0 != rest_files[at
            - 1].0 by {
            assert(rest_files[i] == files[i + 1]);
        }
        assert(rest_files[at - 1] == files[at]);
        lemma_stored_at(rest, rest_files, at - 1);
    }
}

/// A listed digest is found for its path, where no other has that path.
proof fn lemma_digest_found(list: Seq<Listed>, at: int)
    requires
        0 <= at < list.len(),
        forall|i: int| 0 <= i < at ==> (#[trigger] list[i]).0 != list[at].0,
    ensures
        digest_for(list, list[at].0) == Some(list[at].1),
    decreases at,
{
    if at > 0 {
        assert(list[0].0 != list[at].0);
        let rest = list.drop_first();
        assert forall|i: int| 0 <= i < at - 1 implies (#[trigger] rest[i]).0 != rest[at - 1].0 by {
            assert(rest[i] == list[i + 1]);
        }
        assert(rest[at - 1] == list[at]);
        lemma_digest_found(rest, at - 1);
    }
}

/// The completion mark is trimmed to the digest that it holds.
proof fn lemma_mark_trimmed(digest: Seq<char>)
    requires
        is_hex_digest(digest),
    ensures
        trimmed(digest + "\n"@) == digest,
{
    reveal_strlit("\n");
    let mark = digest + "\n"@;
    assert(mark.last() == '\n');
    assert(is_space('\n'));
    assert(mark.drop_last() =~= digest);
    assert(is_hex_digit(digest[63]));
    assert(digest.last() == digest[63]);
    assert(!is_space(digest.last()));
    assert(trimmed_end(digest) == digest);
    assert(trimmed_end(mark) == trimmed_end(mark.drop_last()));
    assert(is_hex_digit(digest[0]));
    assert(!is_space(digest[0]));
}

/// Files that are stored and listed are verified.
proof fn lemma_required_verified(
    stored: Seq<StoredFile>,
    files: Seq<Staged>,
    required: Seq<Seq<char>>,
)
    requires
        stores(stored, entry_of(files)),
        well_named(entry_of(files)),
        forall|i: int|
            0 <= i < required.len() ==> exists|k: int|
                0 <= k < files.len() && (#[trigger] files[k]).0 == #[trigger] required[i],
    ensures
        files_verified(stored, staged_lines(files), required) == Ok::<
            bool,
            crate::entry::EntryError,
        >(true),
    decreases required.len(),
{
    if required.len() > 0 {
        let before = required.drop_last();
        assert forall|i: int| 0 <= i < before.len() implies exists|k: int|
            0 <= k < files.len() && (#[trigger] files[k]).0 == #[trigger] before[i] by {
            assert(before[i] == required[i]);
        }
        lemma_required_verified(stored, files, before);
        let path = required.last();
        assert(path == required[required.len() - 1]);
        let k = choose|k: int| 0 <= k < files.len() && (#[trigger] files[k]).0 == path;
        let all = entry_of(files);
        assert(all[k] == files[k]);
        assert forall|i: int| 0 <= i < k implies (#[trigger] all[i]).0 != all[k].0 by {}
        lemma_stored_at(stored, all, k);
        let list = staged_lines(files);
        assert(list[k] == (files[k].0, hex_digest(files[k].1)));
        assert forall|i: int| 0 <= i < k implies (#[trigger] list[i]).0 != list[k].0 by {
            assert(all[i].0 != all[k].0);
            assert(list[i].0 == files[i].0);
            assert(all[i] == files[i]);
        }
        lemma_digest_found(list, k);
        assert(file_verified(stored, list, path) == Ok::<bool, crate::entry::EntryError>(true));
    }
}

/// The manifest of a staged entry is the one that was written.
proof fn lemma_staged_manifest(stored: Seq<StoredFile>, files: Seq<Staged>)
    requires
        stores(stored, entry_of(files)),
        well_named(entry_of(files)),
        well_digested(files),
    ensures
        verified_manifest(stored) == Ok::<Option<Seq<Listed>>, crate::entry::EntryError>(
            Some(staged_lines(files)),
        ),
{
    let all = entry_of(files);
    let count = files.len() as int;
    let manifest = staged_manifest(files);
    let mark = hex_digest(utf8(manifest)) + "\n"@;
    assert(all[count] == ("manifest.blake3"@, utf8(manifest)));
    assert(all[count + 1] == ("complete"@, utf8(mark)));
    lemma_stored_at(stored, all, count);
    lemma_stored_at(stored, all, count + 1);
    encode_utf8_valid_utf8(manifest);
    encode_utf8_decode_utf8(manifest);
    encode_utf8_valid_utf8(mark);
    encode_utf8_decode_utf8(mark);
    lemma_mark_trimmed(hex_digest(utf8(manifest)));
    let list = staged_lines(files);
    assert forall|i: int| 0 <= i < list.len() implies is_plain((#[trigger] list[i]).0)
        && is_hex_digest(list[i].1) by {
        assert(all[i] == files[i]);
        assert(list[i] == (files[i].0, hex_digest(files[i].1)));
    }
    assert forall|i: int, j: int| 0 <= i < j < list.len() implies (#[trigger] list[i]).0 != (
    #[trigger] list[j]).0 by {
        assert(all[i] == files[i]);
        assert(all[j] == files[j]);
        assert(list[i].0 == files[i].0);
        assert(list[j].0 == files[j].0);
    }
    law_manifest_round_trip(list);
}

/// The names of outputs.
pub open spec fn names_of(outputs: Seq<StagedOutput>, names: Seq<Vec<u8>>) -> bool {
    names.len() == outputs.len() && forall|i: int|
        0 <= i < names.len() ==> (#[trigger] names[i])@ == outputs[i].name@
}

/// An entry that was staged passes the checks of a restore: of the files that
/// tell what it was made from, and of all files that a restore needs.
pub proof fn law_staged_entry_verifies(
    stored: Seq<StoredFile>,
    outputs: Seq<StagedOutput>,
    names: Seq<Vec<u8>>,
    dep_info: Option<Seq<u8>>,
    messages: Seq<u8>,
    inputs_digest: Seq<char>,
    pkg_root: Seq<u8>,
    profile_root: Seq<u8>,
)
    requires
        ({
            let files = staged_files(
                outputs,
                dep_info,
                messages,
                inputs_digest,
                pkg_root,
                profile_root,
            );
            &&& stores(stored, entry_of(files))
            &&& well_named(entry_of(files))
            &&& well_digested(files)
        }),
        names_of(outputs, names),
    ensures
        control_verified(stored) == Ok::<bool, crate::entry::EntryError>(true),
        entry_verified(stored, names) == Ok::<bool, crate::entry::EntryError>(true),
{
    let files = staged_files(
        outputs,
        dep_info,
        messages,
        inputs_digest,
        pkg_root,
        profile_root,
    );
    lemma_staged_manifest(stored, files);
    let list = staged_lines(files);
    let head = staged_outputs(outputs);
    let base = if dep_info is Some {
        outputs.len() as int + 1
    } else {
        outputs.len() as int
    };
    assert(files[base] == ("compiler-messages"@, messages));
    assert(files[base + 1] == ("inputs.blake3"@, utf8(inputs_digest + "\n"@)));
    assert(files[base + 2] == ("origin-pkg-root"@, utf8(lossy_text(pkg_root))));
    assert(files[base + 3] == ("origin-target-profile-root"@, utf8(lossy_text(profile_root))));
    assert(is_listed(list, "rustc-dep-info"@) ==> exists|k: int|
        0 <= k < files.len() && (#[trigger] files[k]).0 == "rustc-dep-info"@) by {
        if is_listed(list, "rustc-dep-info"@) {
            let k = choose|k: int|
                0 <= k < list.len() && (#[trigger] list[k]).0 == "rustc-dep-info"@;
            assert(files[k].0 == "rustc-dep-info"@);
        }
    }
    let control = control_files(list);
    assert forall|i: int| 0 <= i < control.len() implies exists|k: int|
        0 <= k < files.len() && (#[trigger] files[k]).0 == #[trigger] control[i] by {
        if i == 0 {
            assert(files[base + 1].0 == control[0]);
        } else {
            assert(control[i] == "rustc-dep-info"@);
        }
    }
    lemma_required_verified(stored, files, control);
    let required = entry_files(list, names);
    let fixed = if is_listed(list, "rustc-dep-info"@) {
        5int
    } else {
        4int
    };
    assert forall|i: int| 0 <= i < required.len() implies exists|k: int|
        0 <= k < files.len() && (#[trigger] files[k]).0 == #[trigger] required[i] by {
        if i == 0 {
            assert(files[base + 2].0 == required[0]);
        } else if i == 1 {
            assert(files[base + 3].0 == required[1]);
        } else if i == 2 {
            assert(files[base + 1].0 == required[2]);
        } else if i == 3 {
            assert(files[base].0 == required[3]);
        } else if i < fixed {
            assert(required[i] == "rustc-dep-info"@);
        } else {
            let k = i - fixed;
            assert(required[i] == output_paths(names)[k]);
            assert(names[k]@ == outputs[k].name@);
            assert(files[k] == head[k]);
            assert(files[k].0 == required[i]);
        }
    }
    lemma_required_verified(stored, files, required);
}

/// What was staged is what a restore reads: the contents of every output, the
/// messages, what the compiler reported, and the digest of the inputs.
pub proof fn law_staged_files_are_read_back(
    stored: Seq<StoredFile>,
    outputs: Seq<StagedOutput>,
    dep_info: Option<Seq<u8>>,
    messages: Seq<u8>,
    inputs_digest: Seq<char>,
    pkg_root: Seq<u8>,
    profile_root: Seq<u8>,
)
    requires
        ({
            let files = entry_of(
                staged_files(
                    outputs,
                    dep_info,
                    messages,
                    inputs_digest,
                    pkg_root,
                    profile_root,
                ),
            );
            stores(stored, files) && well_named(files)
        }),
        is_hex_digest(inputs_digest),
    ensures
        forall|i: int|
            #![trigger outputs[i]]
            0 <= i < outputs.len() ==> stored_at(stored, output_path(outputs[i].name@))
                == Lookup::Found(outputs[i].contents@),
        stored_at(stored, "compiler-messages"@) == Lookup::Found(messages),
        dep_info is Some ==> stored_at(stored, "rustc-dep-info"@) == Lookup::Found(
            dep_info->Some_0,
        ),
        stored_at(stored, "inputs.blake3"@) == Lookup::Found(utf8(inputs_digest + "\n"@)),
        trimmed(inputs_digest + "\n"@) == inputs_digest,
{
    let files = staged_files(
        outputs,
        dep_info,
        messages,
        inputs_digest,
        pkg_root,
        profile_root,
    );
    let all = entry_of(files);
    let count = outputs.len() as int;
    let base = if dep_info is Some {
        count + 1
    } else {
        count
    };
    assert forall|i: int| #![trigger outputs[i]] 0 <= i < count implies stored_at(
        stored,
        output_path(outputs[i].name@),
    ) == Lookup::Found(outputs[i].contents@) by {
        assert(all[i] == staged_outputs(outputs)[i]);
        lemma_stored_at(stored, all, i);
    }
    assert(all[base] == ("compiler-messages"@, messages));
    assert(all[base + 1] == ("inputs.blake3"@, utf8(inputs_digest + "\n"@)));
    lemma_stored_at(stored, all, base);
    lemma_stored_at(stored, all, base + 1);
    if dep_info is Some {
        assert(all[count] == ("rustc-dep-info"@, dep_info->Some_0));
        lemma_stored_at(stored, all, count);
    }
    lemma_mark_trimmed(inputs_digest);
}

/// A staged entry: its files, and how many there are.
pub struct StagedEntry {
    pub files: Vec<StoredFile>,
    pub entry_files: u64,
}

/// The contents of an optional slice.
pub open spec fn optional_contents(contents: Option<&[u8]>) -> Option<Seq<u8>> {
    match contents {
        Some(contents) => Some(contents@),
        None => None,
    }
}

/// Adds a file to an entry and a line for it to the manifest.
fn stage_file(
    files: &mut Vec<StoredFile>,
    manifest: &mut String,
    path: String,
    contents: Vec<u8>,
    listed_files: Ghost<Seq<Staged>>,
)
    requires
        stores(old(files)@, listed_files@),
        old(manifest)@ == staged_manifest(listed_files@),
        forall|i: int|
            0 <= i < listed_files@.len() ==> is_hex_digest(
                hex_digest((#[trigger] listed_files@[i]).1),
            ),
    ensures
        stores(final(files)@, listed_files@.push((path@, contents@))),
        final(manifest)@ == staged_manifest(listed_files@.push((path@, contents@))),
        is_hex_digest(hex_digest(contents@)),
{
    let ghost before = files@;
    let ghost all = listed_files@.push((path@, contents@));
    append_rlib_cache_manifest(manifest, path.as_str(), contents.as_slice());
    let checked = blake3_hex(contents.as_slice());
    proof {
        assert(staged_lines(all).drop_last() =~= staged_lines(listed_files@));
        assert(staged_lines(all).last() == (path@, hex_digest(contents@)));
    }
    files.push(StoredFile { path, contents: Lookup::Found(contents) });
    proof {
        assert forall|i: int| 0 <= i < all.len() implies (#[trigger] files@[i]).path@ == all[i].0
            && match files@[i].contents {
            Lookup::Found(contents) => contents@ == all[i].1,
            _ => false,
        } by {
            if i < before.len() {
                assert(files@[i] == before[i]);
                assert(all[i] == listed_files@[i]);
            }
        }
    }
}

/// The files of a cache entry, with its manifest and its completion mark.
pub fn stage_entry(
    outputs: &Vec<StagedOutput>,
    dep_info: Option<&[u8]>,
    messages: Option<&[u8]>,
    inputs_digest: &str,
    pkg_root: &[u8],
    target_profile_root: &[u8],
) -> (entry: StagedEntry)
    requires
        outputs@.len() + 7 <= u64::MAX,
    ensures
        ({
            let listed_files = staged_files(
                outputs@,
                optional_contents(dep_info),
                match messages {
                    Some(messages) => messages@,
                    None => Seq::empty(),
                },
                inputs_digest@,
                pkg_root@,
                target_profile_root@,
            );
            &&& stores(entry.files@, entry_of(listed_files))
            &&& well_digested(listed_files)
            &&& entry.entry_files == listed_files.len() + 2
        }),
{
    let ghost first = staged_outputs(outputs@);
    let mut files: Vec<StoredFile> = Vec::new();
    let mut manifest = String::new();
    let ghost mut done: Seq<Staged> = Seq::empty();
    let mut count: u64 = 0;
    let mut index: usize = 0;
    proof {
        assert(staged_lines(done) =~= Seq::empty());
        assert(first.take(0) =~= Seq::empty());
    }
    while index < outputs.len()
        invariant
            index <= outputs@.len(),
            outputs@.len() + 7 <= u64::MAX,
            count == index,
            first == staged_outputs(outputs@),
            done == first.take(index as int),
            stores(files@, done),
            manifest@ == staged_manifest(done),
            forall|i: int|
                0 <= i < done.len() ==> is_hex_digest(hex_digest((#[trigger] done[i]).1)),
        decreases outputs@.len() - index,
    {
        let output = &outputs[index];
        let path = join_path("files".as_bytes(), output.name.as_slice());
        let name = text_from_utf8_lossy(path.as_slice());
        let contents = copy_bytes(output.contents.as_slice());
        proof {
            assert(first[index as int] == (output_path(output.name@), output.contents@));
        }
        stage_file(&mut files, &mut manifest, name, contents, Ghost(done));
        proof {
            assert(done.push(first[index as int]) =~= first.take(index + 1));
            done = first.take(index + 1);
        }
        count = count + 1;
        index = index + 1;
    }
    proof {
        assert(first.take(index as int) =~= first);
    }
    if let Some(dep_info) = dep_info {
        stage_file(
            &mut files,
            &mut manifest,
            "rustc-dep-info".to_owned(),
            copy_bytes(dep_info),
            Ghost(done),
        );
        proof {
            done = done.push(("rustc-dep-info"@, dep_info@));
        }
        count = count + 1;
    }
    let messages = match messages {
        Some(messages) => copy_bytes(messages),
        None => Vec::new(),
    };
    let ghost written = messages@;
    stage_file(
        &mut files,
        &mut manifest,
        "compiler-messages".to_owned(),
        messages,
        Ghost(done),
    );
    proof {
        done = done.push(("compiler-messages"@, written));
    }
    let mut digest_line = inputs_digest.to_owned();
    digest_line.append("\n");
    stage_file(
        &mut files,
        &mut manifest,
        "inputs.blake3".to_owned(),
        copy_bytes(digest_line.as_str().as_bytes()),
        Ghost(done),
    );
    proof {
        done = done.push(("inputs.blake3"@, utf8(inputs_digest@ + "\n"@)));
    }
    let package = text_from_utf8_lossy(pkg_root);
    stage_file(
        &mut files,
        &mut manifest,
        "origin-pkg-root".to_owned(),
        copy_bytes(package.as_str().as_bytes()),
        Ghost(done),
    );
    proof {
        done = done.push(("origin-pkg-root"@, utf8(lossy_text(pkg_root@))));
    }
    let profile = text_from_utf8_lossy(target_profile_root);
    stage_file(
        &mut files,
        &mut manifest,
        "origin-target-profile-root".to_owned(),
        copy_bytes(profile.as_str().as_bytes()),
        Ghost(done),
    );
    proof {
        done = done.push(("origin-target-profile-root"@, utf8(lossy_text(target_profile_root@))));
        assert(done =~= staged_files(
            outputs@,
            optional_contents(dep_info),
            written,
            inputs_digest@,
            pkg_root@,
            target_profile_root@,
        ));
    }
    let manifest_digest = blake3_hex(manifest.as_str().as_bytes());
    let mut mark = manifest_digest;
    mark.append("\n");
    let ghost listed_files = files@;
    files.push(
        StoredFile {
            path: "manifest.blake3".to_owned(),
            contents: Lookup::Found(copy_bytes(manifest.as_str().as_bytes())),
        },
    );
    files.push(
        StoredFile {
            path: "complete".to_owned(),
            contents: Lookup::Found(copy_bytes(mark.as_str().as_bytes())),
        },
    );
    proof {
        let all = entry_of(done);
        assert forall|i: int| 0 <= i < all.len() implies (#[trigger] files@[i]).path@ == all[i].0
            && match files@[i].contents {
            Lookup::Found(contents) => contents@ == all[i].1,
            _ => false,
        } by {
            if i < done.len() {
                assert(files@[i] == listed_files[i]);
                assert(all[i] == done[i]);
            }
        }
    }
    StagedEntry { files, entry_files: count + 6 }
}

} // verus!
