//! What it takes for a cache entry to be restored.

use vstd::prelude::*;
use vstd::string::*;
use vstd::utf8::*;

use crate::bytes::utf8;
use crate::digest::hex_digest;
use crate::digest::lossy_text;
use crate::disk::Lookup;
use crate::entry::control_files;
use crate::entry::control_verified;
use crate::entry::digest_for;
use crate::entry::entry_files;
use crate::entry::entry_verified;
use crate::entry::file_verified;
use crate::entry::files_verified;
use crate::entry::is_listed;
use crate::entry::line_of;
use crate::entry::lines_from;
use crate::entry::output_path;
use crate::entry::output_paths;
use crate::entry::stored_at;
use crate::entry::verified_manifest;
use crate::entry::EntryError;
use crate::entry::Listed;
use crate::entry::StoredFile;
use crate::text::first_at;
use crate::text::lemma_first_at;
use crate::text::lines_of;
use crate::text::trimmed;
use crate::unix_path::joined;

verus! {

/// Whether the file at a position is the one that stands at a path: no other
/// before it has the path, and it could be read.
pub open spec fn stands_at_path(files: Seq<StoredFile>, at: int, path: Seq<char>) -> bool {
    &&& 0 <= at < files.len()
    &&& files[at].path@ == path
    &&& files[at].contents is Found
    &&& forall|i: int| 0 <= i < at ==> (#[trigger] files[i]).path@ != path
}

/// The contents of a file that could be read.
pub open spec fn contents_at(files: Seq<StoredFile>, at: int) -> Seq<u8> {
    files[at].contents->Found_0@
}

/// Whether the manifest at one position has the digest that the completion mark
/// at another holds.
pub open spec fn is_sealed(files: Seq<StoredFile>, manifest: int, complete: int) -> bool {
    &&& stands_at_path(files, manifest, "manifest.blake3"@)
    &&& stands_at_path(files, complete, "complete"@)
    &&& valid_utf8(contents_at(files, manifest))
    &&& valid_utf8(contents_at(files, complete))
    &&& trimmed(decode_utf8(contents_at(files, complete))) == hex_digest(
        contents_at(files, manifest),
    )
}

/// The lines of the manifest at a position.
pub open spec fn manifest_at(files: Seq<StoredFile>, manifest: int) -> Seq<Seq<char>> {
    lines_of(decode_utf8(contents_at(files, manifest)))
}

/// Whether the file at a path is the one that the manifest has a line for: the
/// path, a tab and the digest of its contents.
pub open spec fn is_vouched_for(files: Seq<StoredFile>, manifest: int, path: Seq<char>) -> bool {
    exists|at: int| #[trigger]
        stands_at_path(files, at, path) && manifest_at(files, manifest).contains(
            path + "\t"@ + hex_digest(contents_at(files, at)),
        )
}

/// Whether the manifest has a line for a path.
pub open spec fn has_line_for(lines: Seq<Seq<char>>, path: Seq<char>) -> bool {
    exists|k: int| 0 <= k < lines.len() && (path + "\t"@).is_prefix_of(#[trigger] lines[k])
}

/// What is found at a path stands there.
proof fn lemma_stored_at_position(files: Seq<StoredFile>, path: Seq<char>) -> (at: int)
    requires
        stored_at(files, path) is Found,
    ensures
        stands_at_path(files, at, path),
        stored_at(files, path)->Found_0 == contents_at(files, at),
    decreases files.len(),
{
    if files[0].path@ == path {
        0
    } else {
        let rest = files.drop_first();
        let at = lemma_stored_at_position(rest, path);
        assert forall|i: int| 0 <= i < at + 1 implies (#[trigger] files[i]).path@ != path by {
            if i > 0 {
                assert(rest[i - 1] == files[i]);
            }
        }
        assert(rest[at] == files[at + 1]);
        at + 1
    }
}

/// Lines that texts stand for are written in them.
proof fn lemma_lines_are_written(texts: Seq<Seq<char>>, at: int)
    requires
        lines_from(texts) is Some,
        0 <= at < lines_from(texts)->Some_0.len(),
    ensures
        lines_from(texts)->Some_0.len() == texts.len(),
        texts[at] == lines_from(texts)->Some_0[at].0 + "\t"@ + lines_from(texts)->Some_0[at].1,
        !lines_from(texts)->Some_0[at].0.contains('\t'),
    decreases texts.len(),
{
    let list = lines_from(texts)->Some_0;
    if texts.len() > 0 {
        let before = texts.drop_last();
        let earlier = lines_from(before)->Some_0;
        if earlier.len() > 0 {
            let k = if at < earlier.len() {
                at
            } else {
                0
            };
            lemma_lines_are_written(before, k);
        } else {
            lemma_no_lines(before);
        }
        if at < earlier.len() {
            assert(list[at] == earlier[at]);
            assert(before[at] == texts[at]);
        } else {
            let text = texts.last();
            reveal_strlit("\t");
            lemma_first_at(text, '\t');
            let cut = first_at(text, '\t');
            let line = line_of(text)->Some_0;
            assert(text =~= line.0 + "\t"@ + line.1);
            assert forall|k: int| 0 <= k < line.0.len() implies line.0[k] != '\t' by {
                assert(line.0[k] == text[k]);
            }
        }
    }
}

/// Where no lines were read there are no texts.
proof fn lemma_no_lines(texts: Seq<Seq<char>>)
    requires
        lines_from(texts) is Some,
        lines_from(texts)->Some_0.len() == 0,
    ensures
        texts.len() == 0,
{
}

/// A digest that is listed for a path stands in a line with it.
proof fn lemma_digest_has_line(list: Seq<Listed>, path: Seq<char>) -> (at: int)
    requires
        digest_for(list, path) is Some,
    ensures
        0 <= at < list.len(),
        list[at] == (path, digest_for(list, path)->Some_0),
    decreases list.len(),
{
    if list[0].0 == path {
        0
    } else {
        let at = lemma_digest_has_line(list.drop_first(), path);
        assert(list.drop_first()[at] == list[at + 1]);
        at + 1
    }
}

/// Where all required files are verified, each is.
proof fn lemma_each_is_verified(
    files: Seq<StoredFile>,
    list: Seq<Listed>,
    required: Seq<Seq<char>>,
    at: int,
)
    requires
        files_verified(files, list, required) == Ok::<bool, EntryError>(true),
        0 <= at < required.len(),
    ensures
        file_verified(files, list, required[at]) == Ok::<bool, EntryError>(true),
    decreases required.len(),
{
    if at < required.len() - 1 {
        lemma_each_is_verified(files, list, required.drop_last(), at);
    }
}

/// A manifest that is verified is sealed, and its lines are written in it.
proof fn lemma_sealed(files: Seq<StoredFile>) -> (at: (int, int))
    requires
        verified_manifest(files) is Ok,
        verified_manifest(files)->Ok_0 is Some,
    ensures
        is_sealed(files, at.0, at.1),
        lines_from(manifest_at(files, at.0)) == verified_manifest(files)->Ok_0,
{
    let manifest = lemma_stored_at_position(files, "manifest.blake3"@);
    let complete = lemma_stored_at_position(files, "complete"@);
    (manifest, complete)
}

/// A file that is verified is vouched for.
proof fn lemma_vouched_for(files: Seq<StoredFile>, manifest: int, path: Seq<char>)
    requires
        lines_from(manifest_at(files, manifest)) is Some,
        file_verified(files, lines_from(manifest_at(files, manifest))->Some_0, path) == Ok::<
            bool,
            EntryError,
        >(true),
    ensures
        is_vouched_for(files, manifest, path),
{
    let texts = manifest_at(files, manifest);
    let list = lines_from(texts)->Some_0;
    let at = lemma_stored_at_position(files, path);
    let k = lemma_digest_has_line(list, path);
    lemma_lines_are_written(texts, k);
    assert(texts[k] == path + "\t"@ + hex_digest(contents_at(files, at)));
    assert(stands_at_path(files, at, path));
}

/// A path with a line is listed.
proof fn lemma_has_line_is_listed(texts: Seq<Seq<char>>, path: Seq<char>)
    requires
        lines_from(texts) is Some,
        has_line_for(texts, path),
        !path.contains('\t'),
    ensures
        is_listed(lines_from(texts)->Some_0, path),
{
    let list = lines_from(texts)->Some_0;
    let k = choose|k: int|
        0 <= k < texts.len() && (path + "\t"@).is_prefix_of(#[trigger] texts[k]);
    if list.len() == 0 {
        lemma_no_lines(texts);
    }
    lemma_lines_are_written(texts, 0);
    lemma_lines_are_written(texts, k);
    let text = texts[k];
    let found = list[k].0;
    reveal_strlit("\t");
    let start = path + "\t"@;
    assert(text.subrange(0, start.len() as int) == start);
    assert(text[path.len() as int] == '\t') by {
        assert(text.subrange(0, start.len() as int)[path.len() as int] == '\t');
    }
    assert(text[found.len() as int] == '\t');
    if found.len() < path.len() {
        assert(text.subrange(0, start.len() as int)[found.len() as int] == path[found.len() as int]);
        assert(path.contains(path[found.len() as int]));
    }
    if path.len() < found.len() {
        assert(found[path.len() as int] == '\t');
    }
    assert(found =~= path) by {
        assert forall|i: int| 0 <= i < path.len() implies found[i] == path[i] by {
            assert(text.subrange(0, start.len() as int)[i] == path[i]);
        }
    }
}

/// An entry is restored only where every file that a restore reads is as it was
/// published: its manifest has the digest that the completion mark holds, and
/// has a line with the digest of each output, of the compiler's messages, of the
/// digest of the inputs, of both origins, and of what the compiler reported,
/// where it has a line for that.
pub proof fn law_restored_entries_are_vouched_for(files: Seq<StoredFile>, names: Seq<Vec<u8>>)
    requires
        entry_verified(files, names) == Ok::<bool, EntryError>(true),
    ensures
        exists|manifest: int, complete: int| #[trigger]
            is_sealed(files, manifest, complete) && {
                &&& forall|i: int|
                    0 <= i < names.len() ==> is_vouched_for(
                        files,
                        manifest,
                        lossy_text(joined(utf8("files"@), (#[trigger] names[i])@)),
                    )
                &&& is_vouched_for(files, manifest, "compiler-messages"@)
                &&& is_vouched_for(files, manifest, "inputs.blake3"@)
                &&& is_vouched_for(files, manifest, "origin-pkg-root"@)
                &&& is_vouched_for(files, manifest, "origin-target-profile-root"@)
                &&& has_line_for(manifest_at(files, manifest), "rustc-dep-info"@)
                    ==> is_vouched_for(files, manifest, "rustc-dep-info"@)
            },
{
    let (manifest, complete) = lemma_sealed(files);
    let list = verified_manifest(files)->Ok_0->Some_0;
    let required = entry_files(list, names);
    let reported = if is_listed(list, "rustc-dep-info"@) {
        1int
    } else {
        0int
    };
    assert(required[0] == "origin-pkg-root"@);
    assert(required[1] == "origin-target-profile-root"@);
    assert(required[2] == "inputs.blake3"@);
    assert(required[3] == "compiler-messages"@);
    assert forall|k: int| 0 <= k < required.len() implies is_vouched_for(
        files,
        manifest,
        #[trigger] required[k],
    ) by {
        lemma_each_is_verified(files, list, required, k);
        lemma_vouched_for(files, manifest, required[k]);
    }
    assert forall|i: int| 0 <= i < names.len() implies is_vouched_for(
        files,
        manifest,
        lossy_text(joined(utf8("files"@), (#[trigger] names[i])@)),
    ) by {
        assert(required[4 + reported + i] == output_paths(names)[i]);
        assert(output_paths(names)[i] == output_path(names[i]@));
    }
    if has_line_for(manifest_at(files, manifest), "rustc-dep-info"@) {
        assert(!"rustc-dep-info"@.contains('\t')) by {
            reveal_strlit("rustc-dep-info");
        }
        lemma_has_line_is_listed(manifest_at(files, manifest), "rustc-dep-info"@);
        assert(required[4] == "rustc-dep-info"@);
    }
    assert(is_sealed(files, manifest, complete));
}

/// What an entry was made from is read only where the digest of the inputs, and
/// what the compiler reported where the manifest has a line for that, are as
/// they were published.
pub proof fn law_read_inputs_are_vouched_for(files: Seq<StoredFile>)
    requires
        control_verified(files) == Ok::<bool, EntryError>(true),
    ensures
        exists|manifest: int, complete: int| #[trigger]
            is_sealed(files, manifest, complete) && {
                &&& is_vouched_for(files, manifest, "inputs.blake3"@)
                &&& has_line_for(manifest_at(files, manifest), "rustc-dep-info"@)
                    ==> is_vouched_for(files, manifest, "rustc-dep-info"@)
            },
{
    let (manifest, complete) = lemma_sealed(files);
    let list = verified_manifest(files)->Ok_0->Some_0;
    let required = control_files(list);
    assert(required[0] == "inputs.blake3"@);
    assert forall|k: int| 0 <= k < required.len() implies is_vouched_for(
        files,
        manifest,
        #[trigger] required[k],
    ) by {
        lemma_each_is_verified(files, list, required, k);
        lemma_vouched_for(files, manifest, required[k]);
    }
    if has_line_for(manifest_at(files, manifest), "rustc-dep-info"@) {
        assert(!"rustc-dep-info"@.contains('\t')) by {
            reveal_strlit("rustc-dep-info");
        }
        lemma_has_line_is_listed(manifest_at(files, manifest), "rustc-dep-info"@);
        assert(required[1] == "rustc-dep-info"@);
    }
    assert(is_sealed(files, manifest, complete));
}

/// Whether two entries hold the same files but for the contents of the one at a
/// position.
pub open spec fn same_but_file(left: Seq<StoredFile>, right: Seq<StoredFile>, at: int) -> bool {
    &&& left.len() == right.len()
    &&& 0 <= at < left.len()
    &&& left[at].path@ == right[at].path@
    &&& forall|i: int|
        #![trigger left[i]]
        #![trigger right[i]]
        0 <= i < left.len() && i != at ==> left[i] == right[i]
}

/// What stands elsewhere is the same.
proof fn lemma_stored_elsewhere(
    left: Seq<StoredFile>,
    right: Seq<StoredFile>,
    at: int,
    path: Seq<char>,
)
    requires
        same_but_file(left, right, at),
        left[at].path@ != path,
    ensures
        stored_at(left, path) == stored_at(right, path),
    decreases left.len(),
{
    if left[0].path@ != path {
        let l = left.drop_first();
        let r = right.drop_first();
        if at == 0 {
            assert(l =~= r);
        } else {
            assert(left[0] == right[0]);
            assert forall|i: int|
                #![trigger l[i]]
                #![trigger r[i]]
                0 <= i < l.len() && i != at - 1 implies l[i] == r[i] by {
                assert(l[i] == left[i + 1] && r[i] == right[i + 1]);
            }
            assert(l[at - 1] == left[at] && r[at - 1] == right[at]);
            lemma_stored_elsewhere(l, r, at - 1, path);
        }
    } else {
        assert(at != 0);
        assert(left[0] == right[0]);
    }
}

/// The file at a position is what stands at its path.
proof fn lemma_stored_here(files: Seq<StoredFile>, at: int, path: Seq<char>)
    requires
        stands_at_path(files, at, path),
    ensures
        stored_at(files, path) == Lookup::Found(contents_at(files, at)),
    decreases at,
{
    if at > 0 {
        assert(files[0].path@ != path);
        let rest = files.drop_first();
        assert(rest[at - 1] == files[at]);
        assert forall|i: int| 0 <= i < at - 1 implies (#[trigger] rest[i]).path@ != path by {
            assert(rest[i] == files[i + 1]);
        }
        lemma_stored_here(rest, at - 1, path);
    }
}

/// A damaged entry is not restored: where an entry passes, one that differs from
/// it only in an output, in the contents that are hashed, does not.
pub proof fn law_damaged_outputs_are_not_restored(
    left: Seq<StoredFile>,
    right: Seq<StoredFile>,
    names: Seq<Vec<u8>>,
    output: int,
    at: int,
)
    requires
        0 <= output < names.len(),
        same_but_file(left, right, at),
        stands_at_path(left, at, lossy_text(joined(utf8("files"@), names[output]@))),
        left[at].path@ != "manifest.blake3"@,
        left[at].path@ != "complete"@,
        entry_verified(left, names) == Ok::<bool, EntryError>(true),
        right[at].contents is Found ==> hex_digest(contents_at(right, at)) != hex_digest(
            contents_at(left, at),
        ),
    ensures
        entry_verified(right, names) != Ok::<bool, EntryError>(true),
{
    let path = lossy_text(joined(utf8("files"@), names[output]@));
    lemma_stored_elsewhere(left, right, at, "manifest.blake3"@);
    lemma_stored_elsewhere(left, right, at, "complete"@);
    assert(verified_manifest(left) == verified_manifest(right));
    let list = verified_manifest(left)->Ok_0->Some_0;
    let required = entry_files(list, names);
    let reported = if is_listed(list, "rustc-dep-info"@) {
        1int
    } else {
        0int
    };
    let k = 4 + reported + output;
    assert(required[k] == output_paths(names)[output]);
    assert(required[k] == path);
    lemma_each_is_verified(left, list, required, k);
    lemma_stored_here(left, at, path);
    if entry_verified(right, names) == Ok::<bool, EntryError>(true) {
        lemma_each_is_verified(right, list, required, k);
        let found = lemma_stored_at_position(right, path);
        if found < at {
            assert(left[found] == right[found]);
        }
        if found > at {
            assert(right[at].path@ == path);
        }
        assert(found == at);
    }
}

} // verus!
