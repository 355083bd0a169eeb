//! Cache entries: the files they hold and the manifest that vouches for them.

use vstd::prelude::*;
use vstd::string::*;
use vstd::utf8::*;

use crate::bytes::utf8;
use crate::digest::blake3_hex;
use crate::digest::hex_digest;
use crate::digest::lossy_text;
use crate::digest::text_from_utf8;
use crate::digest::text_from_utf8_lossy;
use crate::disk::Lookup;
use crate::text::cut_first;
use crate::text::has_char;
use crate::text::lines;
use crate::text::lines_of;
use crate::text::split_once;
use crate::text::text_is;
use crate::text::texts;
use crate::text::trim;
use crate::text::trimmed;
use crate::unix_path::join_path;
use crate::unix_path::joined;

verus! {

/// A line of a manifest: a path below the entry and the digest of the file.
pub struct ManifestLine {
    pub path: String,
    pub digest: String,
}

/// A line of a manifest as plain texts.
pub type Listed = (Seq<char>, Seq<char>);

/// Lines of a manifest as plain texts.
pub open spec fn listed(lines: Seq<ManifestLine>) -> Seq<Listed> {
    lines.map_values(|line: ManifestLine| (line.path@, line.digest@))
}

/// Whether a path is listed.
pub open spec fn is_listed(list: Seq<Listed>, path: Seq<char>) -> bool {
    exists|i: int| 0 <= i < list.len() && (#[trigger] list[i]).0 == path
}

/// The line that a text stands for: a path and a digest with one tab between
/// them, neither empty.
pub open spec fn line_of(text: Seq<char>) -> Option<Listed> {
    match cut_first(text, '\t') {
        None => None,
        Some((path, digest)) => if path.len() == 0 || digest.len() == 0 || digest.contains('\t') {
            None
        } else {
            Some((path, digest))
        },
    }
}

/// The lines that texts stand for, where each is one and no path is repeated.
pub open spec fn lines_from(texts: Seq<Seq<char>>) -> Option<Seq<Listed>>
    decreases texts.len(),
{
    if texts.len() == 0 {
        Some(Seq::empty())
    } else {
        match (lines_from(texts.drop_last()), line_of(texts.last())) {
            (Some(before), Some(line)) => if is_listed(before, line.0) {
                None
            } else {
                Some(before.push(line))
            },
            _ => None,
        }
    }
}

/// The lines of a manifest.
pub open spec fn manifest_lines(manifest: Seq<char>) -> Option<Seq<Listed>> {
    lines_from(lines_of(manifest))
}

/// The position of a listed path, or the number of lines.
fn find_line(list: &Vec<ManifestLine>, path: &str) -> (at: usize)
    ensures
        at <= list@.len(),
        at < list@.len() ==> list@[at as int].path@ == path@,
        (at < list@.len()) == is_listed(listed(list@), path@),
        forall|i: int| 0 <= i < at ==> (#[trigger] list@[i]).path@ != path@,
{
    let mut at: usize = 0;
    while at < list.len()
        invariant
            at <= list@.len(),
            forall|i: int| 0 <= i < at ==> (#[trigger] list@[i]).path@ != path@,
        decreases list@.len() - at,
    {
        if text_is(list[at].path.as_str(), path) {
            proof {
                assert(listed(list@)[at as int].0 == path@);
            }
            return at;
        }
        at = at + 1;
    }
    proof {
        if is_listed(listed(list@), path@) {
            let i = choose|i: int|
                0 <= i < listed(list@).len() && (#[trigger] listed(list@)[i]).0 == path@;
            assert(list@[i].path@ == path@);
        }
    }
    at
}

/// Texts that are no lines up to some point are no lines together.
proof fn lemma_lines_from_none(texts: Seq<Seq<char>>, count: int)
    requires
        0 <= count <= texts.len(),
        lines_from(texts.take(count)) is None,
    ensures
        lines_from(texts) is None,
    decreases texts.len() - count,
{
    if count < texts.len() {
        assert(texts.take(count + 1).drop_last() =~= texts.take(count));
        lemma_lines_from_none(texts, count + 1);
    } else {
        assert(texts.take(count) =~= texts);
    }
}

/// The lines of a manifest.
pub fn parse_manifest(manifest: &str) -> (list: Option<Vec<ManifestLine>>)
    ensures
        match list {
            Some(list) => manifest_lines(manifest@) == Some(listed(list@)),
            None => manifest_lines(manifest@) is None,
        },
{
    let raw = lines(manifest);
    let ghost all = texts(raw@);
    let mut list: Vec<ManifestLine> = Vec::new();
    let mut index: usize = 0;
    proof {
        assert(all.take(0) =~= Seq::empty());
        assert(listed(list@) =~= Seq::empty());
    }
    while index < raw.len()
        invariant
            index <= raw@.len(),
            all == texts(raw@),
            all == lines_of(manifest@),
            lines_from(all.take(index as int)) == Some(listed(list@)),
        decreases raw@.len() - index,
    {
        let ghost before = list@;
        proof {
            assert(all.take(index + 1).drop_last() =~= all.take(index as int));
            assert(all.take(index + 1).last() == raw@[index as int]@);
        }
        let line = match split_once(raw[index].as_str(), '\t') {
            Some((path, digest)) => {
                if path.as_str().is_empty() || digest.as_str().is_empty() || has_char(
                    digest.as_str(),
                    '\t',
                ) || find_line(&list, path.as_str()) < list.len() {
                    None
                } else {
                    Some(ManifestLine { path, digest })
                }
            },
            None => None,
        };
        match line {
            Some(line) => {
                proof {
                    assert(listed(before.push(line)) =~= listed(before).push(
                        (line.path@, line.digest@),
                    ));
                }
                list.push(line);
            },
            None => {
                proof {
                    lemma_lines_from_none(all, index + 1);
                }
                return None;
            },
        }
        index = index + 1;
    }
    proof {
        assert(all.take(index as int) =~= all);
    }
    Some(list)
}

/// The text of a line of a manifest.
pub open spec fn line_text(line: Listed) -> Seq<char> {
    line.0 + "\t"@ + line.1 + "\n"@
}

/// The text of a manifest with the given lines.
pub open spec fn manifest_text(list: Seq<Listed>) -> Seq<char>
    decreases list.len(),
{
    if list.len() == 0 {
        Seq::empty()
    } else {
        manifest_text(list.drop_last()) + line_text(list.last())
    }
}

/// Adds a line for a file to a manifest.
pub fn append_rlib_cache_manifest(manifest: &mut String, relative: &str, contents: &[u8])
    ensures
        final(manifest)@ == old(manifest)@ + line_text((relative@, hex_digest(contents@))),
{
    let ghost before = manifest@;
    let digest = blake3_hex(contents);
    manifest.append(relative);
    manifest.append("\t");
    manifest.append(digest.as_str());
    manifest.append("\n");
    proof {
        assert(manifest@ =~= before + line_text((relative@, hex_digest(contents@))));
    }
}

/// A file below an entry. It is `Missing` where it is not a regular file.
pub struct StoredFile {
    pub path: String,
    pub contents: Lookup<Vec<u8>>,
}

/// What stands at a path below an entry.
pub open spec fn stored_at(files: Seq<StoredFile>, path: Seq<char>) -> Lookup<Seq<u8>>
    decreases files.len(),
{
    if files.len() == 0 {
        Lookup::Missing
    } else if files[0].path@ == path {
        match files[0].contents {
            Lookup::Found(contents) => Lookup::Found(contents@),
            Lookup::Missing => Lookup::Missing,
            Lookup::Failed => Lookup::Failed,
        }
    } else {
        stored_at(files.drop_first(), path)
    }
}

/// What stands at a path below an entry.
fn find_stored<'a>(files: &'a Vec<StoredFile>, path: &str) -> (found: Lookup<&'a [u8]>)
    ensures
        match (found, stored_at(files@, path@)) {
            (Lookup::Found(contents), Lookup::Found(expected)) => contents@ == expected,
            (Lookup::Missing, Lookup::Missing) => true,
            (Lookup::Failed, Lookup::Failed) => true,
            _ => false,
        },
{
    let mut at: usize = 0;
    proof {
        assert(files@.skip(0) =~= files@);
    }
    while at < files.len()
        invariant
            at <= files@.len(),
            stored_at(files@, path@) == stored_at(files@.skip(at as int), path@),
        decreases files@.len() - at,
    {
        proof {
            assert(files@.skip(at as int)[0] == files@[at as int]);
            assert(files@.skip(at as int).drop_first() =~= files@.skip(at + 1));
        }
        if text_is(files[at].path.as_str(), path) {
            return match &files[at].contents {
                Lookup::Found(contents) => Lookup::Found(contents.as_slice()),
                Lookup::Missing => Lookup::Missing,
                Lookup::Failed => Lookup::Failed,
            };
        }
        at = at + 1;
    }
    proof {
        assert(files@.skip(at as int).len() == 0);
    }
    Lookup::Missing
}

/// Why an entry could not be checked.
#[derive(Clone, Copy, Debug, PartialEq, Eq, Structural)]
pub enum EntryError {
    Unreadable,
    NotText,
}

/// The lines of the manifest of an entry, where its digest is the one that
/// the completion mark holds.
pub open spec fn verified_manifest(files: Seq<StoredFile>) -> Result<
    Option<Seq<Listed>>,
    EntryError,
> {
    match (stored_at(files, "manifest.blake3"@), stored_at(files, "complete"@)) {
        (Lookup::Missing, _) => Ok(None),
        (_, Lookup::Missing) => Ok(None),
        (Lookup::Found(manifest), Lookup::Found(complete)) => if !valid_utf8(complete) {
            Err(EntryError::NotText)
        } else if hex_digest(manifest) != trimmed(decode_utf8(complete)) {
            Ok(None)
        } else if !valid_utf8(manifest) {
            Err(EntryError::NotText)
        } else {
            Ok(manifest_lines(decode_utf8(manifest)))
        },
        _ => Err(EntryError::Unreadable),
    }
}

/// The lines of the manifest of an entry, where its digest is the one that
/// the completion mark holds.
pub fn verified_rlib_cache_manifest(files: &Vec<StoredFile>) -> (list: Result<
    Option<Vec<ManifestLine>>,
    EntryError,
>)
    ensures
        match (list, verified_manifest(files@)) {
            (Ok(Some(list)), Ok(Some(expected))) => listed(list@) == expected,
            (Ok(None), Ok(None)) => true,
            (Err(error), Err(expected)) => error == expected,
            _ => false,
        },
{
    let manifest = find_stored(files, "manifest.blake3");
    let complete = find_stored(files, "complete");
    match (manifest, complete) {
        (Lookup::Missing, _) => Ok(None),
        (_, Lookup::Missing) => Ok(None),
        (Lookup::Found(manifest), Lookup::Found(complete)) => {
            let mark = match text_from_utf8(complete) {
                Some(mark) => mark,
                None => {
                    return Err(EntryError::NotText);
                },
            };
            proof {
                encode_utf8_decode_utf8(mark@);
            }
            if !text_is(blake3_hex(manifest).as_str(), trim(mark).as_str()) {
                return Ok(None);
            }
            match text_from_utf8(manifest) {
                Some(text) => {
                    proof {
                        encode_utf8_decode_utf8(text@);
                    }
                    Ok(parse_manifest(text))
                },
                None => Err(EntryError::NotText),
            }
        },
        _ => Err(EntryError::Unreadable),
    }
}

/// The digest that is listed for a path.
pub open spec fn digest_for(list: Seq<Listed>, path: Seq<char>) -> Option<Seq<char>>
    decreases list.len(),
{
    if list.len() == 0 {
        None
    } else if list[0].0 == path {
        Some(list[0].1)
    } else {
        digest_for(list.drop_first(), path)
    }
}

/// The digest that is listed for a path.
pub fn listed_digest(list: &Vec<ManifestLine>, path: &str) -> (digest: Option<String>)
    ensures
        match digest {
            Some(digest) => digest_for(listed(list@), path@) == Some(digest@),
            None => digest_for(listed(list@), path@) is None,
        },
{
    let at: usize = find_line(list, path);
    proof {
        let plain = listed(list@);
        assert(plain.len() == list@.len());
        assert forall|i: int| 0 <= i < at implies (#[trigger] plain[i]).0 != path@ by {
            assert(plain[i].0 == list@[i].path@);
        }
        if at < plain.len() {
            assert(plain[at as int].0 == list@[at as int].path@);
        }
        lemma_digest_for(plain, path@, at as int);
    }
    if at < list.len() {
        Some(list[at].digest.as_str().to_owned())
    } else {
        None
    }
}

/// Whether a file has the digest that is listed for its path.
pub open spec fn file_verified(
    files: Seq<StoredFile>,
    list: Seq<Listed>,
    path: Seq<char>,
) -> Result<bool, EntryError> {
    match digest_for(list, path) {
        None => Ok(false),
        Some(digest) => match stored_at(files, path) {
            Lookup::Missing => Ok(false),
            Lookup::Failed => Err(EntryError::Unreadable),
            Lookup::Found(contents) => Ok(hex_digest(contents) == digest),
        },
    }
}

/// Whether required files have the digests that are listed for them: they are
/// checked in order, up to the first that has not.
pub open spec fn files_verified(
    files: Seq<StoredFile>,
    list: Seq<Listed>,
    required: Seq<Seq<char>>,
) -> Result<bool, EntryError>
    decreases required.len(),
{
    if required.len() == 0 {
        Ok(true)
    } else {
        match files_verified(files, list, required.drop_last()) {
            Ok(true) => file_verified(files, list, required.last()),
            other => other,
        }
    }
}

/// What stops among the first required files stops all of them.
proof fn lemma_files_verified_stops(
    files: Seq<StoredFile>,
    list: Seq<Listed>,
    required: Seq<Seq<char>>,
    count: int,
)
    requires
        0 <= count <= required.len(),
        files_verified(files, list, required.take(count)) != Ok::<bool, EntryError>(true),
    ensures
        files_verified(files, list, required) == files_verified(files, list, required.take(count)),
    decreases required.len() - count,
{
    if count < required.len() {
        assert(required.take(count + 1).drop_last() =~= required.take(count));
        lemma_files_verified_stops(files, list, required, count + 1);
    } else {
        assert(required.take(count) =~= required);
    }
}

/// The first line of a path gives its digest.
proof fn lemma_digest_for(list: Seq<Listed>, path: Seq<char>, at: int)
    requires
        0 <= at <= list.len(),
        forall|i: int| 0 <= i < at ==> (#[trigger] list[i]).0 != path,
        at < list.len() ==> list[at].0 == path,
    ensures
        digest_for(list, path) == if at < list.len() {
            Some(list[at].1)
        } else {
            None
        },
    decreases at,
{
    if at > 0 {
        assert(list[0].0 != path);
        let rest = list.drop_first();
        assert forall|i: int| 0 <= i < at - 1 implies (#[trigger] rest[i]).0 != path by {
            assert(rest[i] == list[i + 1]);
        }
        lemma_digest_for(rest, path, at - 1);
    }
}

/// Whether required files have the digests that are listed for them.
pub fn verify_rlib_cache_manifest_files(
    files: &Vec<StoredFile>,
    expected: &Vec<ManifestLine>,
    required: &Vec<String>,
) -> (verified: Result<bool, EntryError>)
    ensures
        verified == files_verified(files@, listed(expected@), texts(required@)),
{
    let ghost all = texts(required@);
    let ghost list = listed(expected@);
    let mut index: usize = 0;
    proof {
        assert(all.take(0) =~= Seq::empty());
    }
    while index < required.len()
        invariant
            index <= required@.len(),
            all == texts(required@),
            list == listed(expected@),
            files_verified(files@, list, all.take(index as int)) == Ok::<bool, EntryError>(true),
        decreases required@.len() - index,
    {
        let path = required[index].as_str();
        proof {
            assert(all.take(index + 1).drop_last() =~= all.take(index as int));
            assert(all.take(index + 1).last() == path@);
        }
        let at: usize = find_line(expected, path);
        proof {
            assert(list.len() == expected@.len());
            assert forall|i: int| 0 <= i < at implies (#[trigger] list[i]).0 != path@ by {
                assert(list[i].0 == expected@[i].path@);
            }
            if at < list.len() {
                assert(list[at as int].0 == expected@[at as int].path@);
            }
            lemma_digest_for(list, path@, at as int);
        }
        let verified: Result<bool, EntryError> = if at == expected.len() {
            Ok(false)
        } else {
            match find_stored(files, path) {
                Lookup::Missing => Ok(false),
                Lookup::Failed => Err(EntryError::Unreadable),
                Lookup::Found(contents) => Ok(
                    text_is(blake3_hex(contents).as_str(), expected[at].digest.as_str()),
                ),
            }
        };
        proof {
            assert(verified == file_verified(files@, list, path@));
        }
        match verified {
            Ok(true) => {},
            other => {
                proof {
                    lemma_files_verified_stops(files@, list, all, index + 1);
                }
                return other;
            },
        }
        index = index + 1;
    }
    proof {
        assert(all.take(index as int) =~= all);
    }
    Ok(true)
}

/// The files that tell what an entry was made from.
pub open spec fn control_files(list: Seq<Listed>) -> Seq<Seq<char>> {
    if is_listed(list, "rustc-dep-info"@) {
        seq!["inputs.blake3"@, "rustc-dep-info"@]
    } else {
        seq!["inputs.blake3"@]
    }
}

/// The path of an output below an entry.
pub open spec fn output_path(name: Seq<u8>) -> Seq<char> {
    lossy_text(joined(utf8("files"@), name))
}

/// The paths of outputs below an entry.
pub open spec fn output_paths(names: Seq<Vec<u8>>) -> Seq<Seq<char>> {
    Seq::new(names.len(), |i: int| output_path(names[i]@))
}

/// The files that a restore of an entry needs.
pub open spec fn entry_files(list: Seq<Listed>, names: Seq<Vec<u8>>) -> Seq<Seq<char>> {
    seq![
        "origin-pkg-root"@,
        "origin-target-profile-root"@,
        "inputs.blake3"@,
        "compiler-messages"@,
    ] + if is_listed(list, "rustc-dep-info"@) {
        seq!["rustc-dep-info"@]
    } else {
        Seq::empty()
    } + output_paths(names)
}

/// Whether the files that tell what an entry was made from are as the manifest
/// lists them.
pub open spec fn control_verified(files: Seq<StoredFile>) -> Result<bool, EntryError> {
    match verified_manifest(files) {
        Err(error) => Err(error),
        Ok(None) => Ok(false),
        Ok(Some(list)) => files_verified(files, list, control_files(list)),
    }
}

/// Whether the files that a restore needs are as the manifest lists them.
pub open spec fn entry_verified(files: Seq<StoredFile>, names: Seq<Vec<u8>>) -> Result<
    bool,
    EntryError,
> {
    match verified_manifest(files) {
        Err(error) => Err(error),
        Ok(None) => Ok(false),
        Ok(Some(list)) => files_verified(files, list, entry_files(list, names)),
    }
}

/// Whether the files that tell what an entry was made from are as the manifest
/// lists them.
pub fn verify_rlib_cache_control_files(files: &Vec<StoredFile>) -> (verified: Result<
    bool,
    EntryError,
>)
    ensures
        verified == control_verified(files@),
{
    let expected = match verified_rlib_cache_manifest(files) {
        Err(error) => {
            return Err(error);
        },
        Ok(None) => {
            return Ok(false);
        },
        Ok(Some(expected)) => expected,
    };
    let mut required: Vec<String> = Vec::new();
    required.push("inputs.blake3".to_owned());
    if find_line(&expected, "rustc-dep-info") < expected.len() {
        required.push("rustc-dep-info".to_owned());
    }
    proof {
        assert(texts(required@) =~= control_files(listed(expected@)));
    }
    verify_rlib_cache_manifest_files(files, &expected, &required)
}

/// Whether the files that a restore needs are as the manifest lists them.
/// `names` are the file names of the outputs; one is absent where an output
/// has no file name.
pub fn verify_rlib_cache_entry(files: &Vec<StoredFile>, names: &Option<Vec<Vec<u8>>>) -> (verified:
    Result<bool, EntryError>)
    ensures
        match *names {
            Some(names) => verified == entry_verified(files@, names@),
            None => verified == match verified_manifest(files@) {
                Err(error) => Err::<bool, EntryError>(error),
                Ok(_) => Ok::<bool, EntryError>(false),
            },
        },
{
    let expected = match verified_rlib_cache_manifest(files) {
        Err(error) => {
            return Err(error);
        },
        Ok(None) => {
            return Ok(false);
        },
        Ok(Some(expected)) => expected,
    };
    let names = match names {
        Some(names) => names,
        None => {
            return Ok(false);
        },
    };
    let mut required: Vec<String> = Vec::new();
    required.push("origin-pkg-root".to_owned());
    required.push("origin-target-profile-root".to_owned());
    required.push("inputs.blake3".to_owned());
    required.push("compiler-messages".to_owned());
    if find_line(&expected, "rustc-dep-info") < expected.len() {
        required.push("rustc-dep-info".to_owned());
    }
    let ghost start = texts(required@);
    let mut index: usize = 0;
    proof {
        assert(output_paths(names@).take(0) =~= Seq::empty());
        assert(start + Seq::<Seq<char>>::empty() =~= start);
    }
    while index < names.len()
        invariant
            index <= names@.len(),
            texts(required@) == start + output_paths(names@).take(index as int),
        decreases names@.len() - index,
    {
        let ghost before = required@;
        let path = join_path("files".as_bytes(), names[index].as_slice());
        required.push(text_from_utf8_lossy(path.as_slice()));
        proof {
            assert(output_paths(names@)[index as int] == output_path(names@[index as int]@));
            assert(texts(required@) =~= texts(before).push(output_path(names@[index as int]@)));
            assert(texts(required@) =~= start + output_paths(names@).take(index + 1));
        }
        index = index + 1;
    }
    proof {
        assert(output_paths(names@).take(index as int) =~= output_paths(names@));
        assert(texts(required@) =~= entry_files(listed(expected@), names@));
    }
    verify_rlib_cache_manifest_files(files, &expected, &required)
}

} // verus!
