//! Saved outputs of incremental compilation, and the digests of their objects.

use vstd::prelude::*;
use vstd::slice::slice_subrange;
use vstd::string::*;
use vstd::utf8::*;

use crate::bytes::bytes_before;
use crate::bytes::bytes_equal;
use crate::bytes::bytes_less;
use crate::bytes::copy_bytes;
use crate::bytes::optional_text;
use crate::bytes::push_bytes;
use crate::bytes::push_text;
use crate::bytes::utf8;
use crate::digest::blake3_hex;
use crate::digest::hex_digest;
use crate::digest::is_blake3_hex_digest;
use crate::digest::is_hex_digest;
use crate::digest::law_rendered_digest_is_valid;
use crate::digest::text_from_utf8;
use crate::ordering::order_of;
use crate::ordering::sort;
use crate::ordering::sorted;
use crate::ordering::Ranked;
use crate::path_laws::is_plain_name;
use crate::path_laws::law_names_are_read_back;
use crate::path_laws::law_parents_are_read_back;
use crate::text::characters;
use crate::text::text_is;
use crate::text::text_of;
use crate::unix_path::components;
use crate::unix_path::file_name;
use crate::unix_path::find_after_last_byte;
use crate::unix_path::is_absolute;
use crate::unix_path::join_path;
use crate::unix_path::joined;
use crate::unix_path::last_byte;
use crate::unix_path::parent;
use crate::unix_path::path_file_name;
use crate::unix_path::path_parent;
use crate::unix_path::paths_equal;
use crate::unix_path::same_path;
use crate::unix_path::DOT;

verus! {

/// The environment variable that asks for digests of objects.
pub const SLD_RUSTC_WORK_PRODUCT_PROVENANCE_ENV: &'static str = "SLD_RUSTC_WORK_PRODUCT_PROVENANCE";

/// The name under which the digest of an object is saved.
pub const SLD_CGU_OBJECT_DIGEST_FILE_ID: &'static str = "sld-blake3-o";

/// A saved file: what it is, and its name.
pub struct SavedFile {
    pub id: String,
    pub name: String,
}

/// A saved file as plain texts.
pub type Saved = (Seq<char>, Seq<char>);

/// Saved files as plain texts.
pub open spec fn plain_saved(list: Seq<SavedFile>) -> Seq<Saved> {
    list.map_values(|file: SavedFile| (file.id@, file.name@))
}

/// What compiling one unit of code saved.
pub struct WorkProduct {
    pub cgu_name: String,
    pub saved_files: Vec<SavedFile>,
}

/// `list` with a file saved, in place of one that was saved as the same.
pub open spec fn with_saved(list: Seq<Saved>, id: Seq<char>, name: Seq<char>) -> Seq<Saved>
    decreases list.len(),
{
    if list.len() == 0 {
        seq![(id, name)]
    } else if list.last().0 == id {
        list.drop_last().push((id, name))
    } else {
        with_saved(list.drop_last(), id, name).push(list.last())
    }
}

/// The name of the file that was saved as `id`.
pub open spec fn saved_as(list: Seq<Saved>, id: Seq<char>) -> Option<Seq<char>>
    decreases list.len(),
{
    if list.len() == 0 {
        None
    } else if list.last().0 == id {
        Some(list.last().1)
    } else {
        saved_as(list.drop_last(), id)
    }
}

/// The position of the file that was saved as `id`, or the number of files.
fn find_saved(list: &Vec<SavedFile>, id: &str) -> (at: usize)
    ensures
        at <= list@.len(),
        at == list@.len() ==> forall|i: int| 0 <= i < list@.len() ==> (#[trigger] list@[i]).id@
            != id@,
        at < list@.len() ==> list@[at as int].id@ == id@ && forall|i: int|
            at < i < list@.len() ==> (#[trigger] list@[i]).id@ != id@,
{
    let mut end: usize = list.len();
    while end > 0
        invariant
            end <= list@.len(),
            forall|i: int| end <= i < list@.len() ==> (#[trigger] list@[i]).id@ != id@,
        decreases end,
    {
        if text_is(list[end - 1].id.as_str(), id) {
            return end - 1;
        }
        end = end - 1;
    }
    list.len()
}

/// What saving a file does, by its position.
proof fn lemma_with_saved(list: Seq<Saved>, id: Seq<char>, name: Seq<char>, at: int)
    requires
        0 <= at <= list.len(),
        forall|i: int| at < i < list.len() ==> (#[trigger] list[i]).0 != id,
        at < list.len() ==> list[at].0 == id,
        at == list.len() ==> forall|i: int| 0 <= i < list.len() ==> (#[trigger] list[i]).0 != id,
    ensures
        at < list.len() ==> with_saved(list, id, name) == list.update(at, (id, name)),
        at < list.len() ==> saved_as(list, id) == Some(list[at].1),
        at == list.len() ==> with_saved(list, id, name) == seq![(id, name)] + list,
        at == list.len() ==> saved_as(list, id) is None,
    decreases list.len(),
{
    if list.len() == 0 {
        assert(seq![(id, name)] + list =~= seq![(id, name)]);
    } else if at == list.len() - 1 {
        assert(list.drop_last().push((id, name)) =~= list.update(at, (id, name)));
    } else {
        let front = list.drop_last();
        assert(list.last() == list[list.len() - 1]);
        if at < list.len() {
            lemma_with_saved(front, id, name, at);
            assert(front.update(at, (id, name)).push(list.last()) =~= list.update(at, (id, name)));
        } else {
            lemma_with_saved(front, id, name, front.len() as int);
            assert((seq![(id, name)] + front).push(list.last()) =~= seq![(id, name)] + list);
        }
    }
}

/// Saves a file, in place of one that was saved as the same.
fn save(list: &mut Vec<SavedFile>, id: &str, name: String)
    ensures
        plain_saved(final(list)@) == with_saved(plain_saved(old(list)@), id@, name@),
{
    let at: usize = find_saved(list, id);
    let ghost before = plain_saved(list@);
    proof {
        assert forall|i: int| 0 <= i < before.len() implies (#[trigger] before[i]).0
            == list@[i].id@ by {}
        lemma_with_saved(before, id@, name@, at as int);
    }
    let ghost plain = name@;
    let file = SavedFile { id: id.to_owned(), name };
    if at < list.len() {
        list.set(at, file);
        proof {
            assert(plain_saved(list@) =~= before.update(at as int, (id@, plain)));
        }
    } else {
        list.insert(0, file);
        proof {
            assert(plain_saved(list@) =~= seq![(id@, plain)] + before);
        }
    }
}

/// The path next to `path` with another file name.
pub open spec fn with_file_name(path: Seq<u8>, name: Seq<u8>) -> Seq<u8> {
    if file_name(path) is Some && parent(path) is Some {
        joined(parent(path)->Some_0, name)
    } else {
        joined(path, name)
    }
}

/// The path next to `path` with another file name.
pub fn path_with_file_name(path: &[u8], name: &[u8]) -> (result: Vec<u8>)
    ensures
        result@ == with_file_name(path@, name@),
{
    match (path_file_name(path), path_parent(path)) {
        (Some(_), Some(above)) => join_path(above.as_slice(), name),
        _ => join_path(path, name),
    }
}

/// The path of the digest of an object.
pub open spec fn digest_path(object_path: Seq<u8>, cgu_name: Seq<char>) -> Seq<u8> {
    with_file_name(object_path, utf8(cgu_name + "."@ + SLD_CGU_OBJECT_DIGEST_FILE_ID@))
}

/// The path of the digest of an object.
pub fn sld_cgu_object_digest_path(object_path: &[u8], cgu_name: &str) -> (path: Vec<u8>)
    ensures
        path@ == digest_path(object_path@, cgu_name@),
{
    let mut name = cgu_name.to_owned();
    name.append(".");
    name.append(SLD_CGU_OBJECT_DIGEST_FILE_ID);
    path_with_file_name(object_path, name.as_str().as_bytes())
}

/// A file name without what stands behind its last dot, where something stands
/// before that dot.
pub open spec fn file_stem(name: Seq<u8>) -> Seq<u8> {
    if last_byte(name, DOT) > 0 {
        name.take(last_byte(name, DOT))
    } else {
        name
    }
}

/// The path with another extension behind its file name.
pub open spec fn with_extension(path: Seq<u8>, extension: Seq<u8>) -> Seq<u8> {
    match file_name(path) {
        Some(name) => with_file_name(path, file_stem(name).push(DOT) + extension),
        None => path,
    }
}

/// The path with another extension behind its file name.
pub fn path_with_extension(path: &[u8], extension: &[u8]) -> (result: Vec<u8>)
    ensures
        result@ == with_extension(path@, extension@),
{
    match path_file_name(path) {
        None => copy_bytes(path),
        Some(name) => {
            let after: usize = find_after_last_byte(name.as_slice(), DOT);
            let stem = if after > 1 {
                slice_subrange(name.as_slice(), 0, after - 1)
            } else {
                name.as_slice()
            };
            let mut changed = copy_bytes(stem);
            changed.push(DOT);
            push_bytes(&mut changed, extension);
            proof {
                assert(stem@ =~= file_stem(name@));
            }
            path_with_file_name(path, changed.as_slice())
        },
    }
}

/// The path that a digest is written to before it takes its place.
pub fn temporary_digest_path(digest_path: &[u8], process: &str) -> (path: Vec<u8>)
    ensures
        path@ == with_extension(digest_path@, utf8("tmp-"@) + utf8(process@)),
{
    let mut extension: Vec<u8> = Vec::new();
    push_text(&mut extension, "tmp-");
    push_bytes(&mut extension, process.as_bytes());
    proof {
        assert(extension@ =~= utf8("tmp-"@) + utf8(process@));
    }
    path_with_extension(digest_path, extension.as_slice())
}

/// The text of a digest file for an object with the given contents.
pub open spec fn digest_text(object: Seq<u8>) -> Seq<char> {
    hex_digest(object) + "\n"@
}

/// The text of a digest file for an object with the given contents.
pub fn write_sld_cgu_object_digest(object: &[u8]) -> (text: String)
    ensures
        text@ == digest_text(object@),
{
    let mut text = blake3_hex(object);
    text.append("\n");
    text
}

/// `text` without one line break at its end.
pub open spec fn without_line_break(text: Seq<char>) -> Seq<char> {
    if text.len() > 0 && text.last() == '\n' {
        text.drop_last()
    } else {
        text
    }
}

/// The digest that the text of a digest file holds.
pub open spec fn digest_in(text: Option<Seq<char>>) -> Option<Seq<char>> {
    match text {
        Some(text) => if is_hex_digest(without_line_break(text)) {
            Some(without_line_break(text))
        } else {
            None
        },
        None => None,
    }
}

/// The digest that the text of a digest file holds. The text is absent where
/// the file could not be read.
pub fn read_sld_cgu_object_digest_file(text: &Option<String>) -> (digest: Option<String>)
    ensures
        optional_text(digest) == digest_in(optional_text(*text)),
{
    match text {
        None => None,
        Some(text) => {
            let mut chars = characters(text.as_str());
            if chars.len() > 0 && chars[chars.len() - 1] == '\n' {
                chars.pop();
            }
            let digest = text_of(chars.as_slice());
            proof {
                assert(digest@ =~= without_line_break(text@));
            }
            if is_blake3_hex_digest(digest.as_str()) {
                Some(digest)
            } else {
                None
            }
        },
    }
}

/// Whether a persisted digest still holds of its object: the object was reused,
/// and the digest is the one that is known of it.
pub fn can_reuse_sld_cgu_object_digest(
    reused: bool,
    existing_digest: Option<&str>,
    known_digest: Option<&str>,
) -> (reuse: bool)
    ensures
        reuse == (reused && known_digest is Some && existing_digest is Some
            && existing_digest->Some_0@ == known_digest->Some_0@),
{
    match (existing_digest, known_digest) {
        (Some(existing), Some(known)) => reused && text_is(existing, known),
        _ => false,
    }
}

/// What is done about the digest of an object.
#[derive(Clone, Copy, Debug, PartialEq, Eq, Structural)]
pub enum DigestAction {
    /// The digest is removed: none was asked for.
    Remove,
    /// The persisted digest stays.
    Keep,
    /// The digest is written anew.
    Write,
}

/// Whether digests of objects are asked for.
pub open spec fn wants_digests(provenance: Option<Seq<u8>>) -> bool {
    provenance == Some(utf8("1"@))
}

/// What is done about the digest of an object.
pub open spec fn digest_action(
    provenance: Option<Seq<u8>>,
    reused: bool,
    existing: Option<Seq<char>>,
    known: Option<Seq<char>>,
) -> DigestAction {
    if !wants_digests(provenance) {
        DigestAction::Remove
    } else if reused && known is Some && existing == known {
        DigestAction::Keep
    } else {
        DigestAction::Write
    }
}

/// What is known of the digest file of an object: its text before, whether it
/// could be written, and its text after.
pub struct DigestFile {
    pub before: Option<String>,
    pub written: bool,
    pub after: Option<String>,
}

/// What is done about the digest of an object.
pub fn sld_cgu_object_digest_action(
    provenance: &Option<Vec<u8>>,
    reused: bool,
    before: &Option<String>,
    known: &Option<String>,
) -> (action: DigestAction)
    ensures
        action == digest_action(
            crate::bytes::optional(*provenance),
            reused,
            digest_in(optional_text(*before)),
            optional_text(*known),
        ),
{
    let wanted = match provenance {
        Some(value) => bytes_equal(value.as_slice(), "1".as_bytes()),
        None => false,
    };
    if !wanted {
        return DigestAction::Remove;
    }
    let existing = read_sld_cgu_object_digest_file(before);
    let existing_text = match &existing {
        Some(text) => Some(text.as_str()),
        None => None,
    };
    let known_text = match known {
        Some(text) => Some(text.as_str()),
        None => None,
    };
    if can_reuse_sld_cgu_object_digest(reused, existing_text, known_text) {
        DigestAction::Keep
    } else {
        DigestAction::Write
    }
}

/// The digest of an object after the action on its file.
pub open spec fn digest_after(
    action: DigestAction,
    written: bool,
    after: Option<Seq<char>>,
) -> Option<Seq<char>> {
    match action {
        DigestAction::Remove => None,
        DigestAction::Keep => digest_in(after),
        DigestAction::Write => if written {
            digest_in(after)
        } else {
            None
        },
    }
}

/// Whether the digest file is removed.
pub fn removes_digest(action: DigestAction, written: bool) -> (removed: bool)
    ensures
        removed == match action {
            DigestAction::Remove => true,
            DigestAction::Keep => false,
            DigestAction::Write => !written,
        },
{
    match action {
        DigestAction::Remove => true,
        DigestAction::Keep => false,
        DigestAction::Write => !written,
    }
}

/// The file name of the digest of an object, where it is text.
pub open spec fn digest_name(object_path: Seq<u8>, cgu_name: Seq<char>) -> Option<Seq<char>> {
    match file_name(digest_path(object_path, cgu_name)) {
        Some(name) => if valid_utf8(name) {
            Some(decode_utf8(name))
        } else {
            None
        },
        None => None,
    }
}

/// The digest of an object that is known: its digest file has a digest and a
/// name.
pub open spec fn known_digest(
    object_path: Seq<u8>,
    cgu_name: Seq<char>,
    digest: Option<Seq<char>>,
) -> Option<Seq<char>> {
    if digest_name(object_path, cgu_name) is Some {
        digest
    } else {
        None
    }
}

/// The digest of an object, and the name of its digest file among the saved
/// files, where there is a digest.
pub fn track_sld_cgu_object_digest(
    cgu_name: &str,
    object_path: &[u8],
    provenance: &Option<Vec<u8>>,
    reused: bool,
    known: &Option<String>,
    file: &DigestFile,
    saved_files: &mut Vec<SavedFile>,
) -> (digest: Option<String>)
    ensures
        ({
            let action = digest_action(
                crate::bytes::optional(*provenance),
                reused,
                digest_in(optional_text(file.before)),
                optional_text(*known),
            );
            let expected = known_digest(
                object_path@,
                cgu_name@,
                digest_after(action, file.written, optional_text(file.after)),
            );
            &&& optional_text(digest) == expected
            &&& plain_saved(final(saved_files)@) == if expected is Some {
                with_saved(
                    plain_saved(old(saved_files)@),
                    SLD_CGU_OBJECT_DIGEST_FILE_ID@,
                    digest_name(object_path@, cgu_name@)->Some_0,
                )
            } else {
                plain_saved(old(saved_files)@)
            }
        }),
{
    let action = sld_cgu_object_digest_action(provenance, reused, &file.before, known);
    if removes_digest(action, file.written) {
        return None;
    }
    let digest = match read_sld_cgu_object_digest_file(&file.after) {
        None => {
            return None;
        },
        Some(digest) => digest,
    };
    let place = sld_cgu_object_digest_path(object_path, cgu_name);
    let name = match path_file_name(place.as_slice()) {
        None => {
            return None;
        },
        Some(name) => name,
    };
    match text_from_utf8(name.as_slice()) {
        None => None,
        Some(text) => {
            proof {
                encode_utf8_decode_utf8(text@);
            }
            save(saved_files, SLD_CGU_OBJECT_DIGEST_FILE_ID, text.to_owned());
            Some(digest)
        },
    }
}

/// A file that is saved: its extension, whether it could be linked or copied,
/// and what is known of the digest file beside it.
pub struct WorkFile {
    pub extension: String,
    pub copied: bool,
    pub digest: DigestFile,
}

/// What saving files came to.
#[verifier::ext_equal]
pub struct SavingState {
    pub saved: Seq<Saved>,
    pub digest: Option<Seq<char>>,
    /// The positions of the files that could not be copied.
    pub failed: Seq<usize>,
}

/// What saving files came to.
pub struct SavedWork {
    pub work_product: WorkProduct,
    pub object_digest: Option<String>,
    /// The positions of the files that could not be copied.
    pub failed: Vec<usize>,
}

/// The name of a saved file.
pub open spec fn work_file_name(cgu_name: Seq<char>, extension: Seq<char>) -> Seq<char> {
    cgu_name + "."@ + extension
}

/// Whether a file is a link to what was saved before.
pub open spec fn is_known_link(
    directory: Seq<u8>,
    cgu_name: Seq<char>,
    extension: Seq<char>,
    known_links: Seq<Vec<u8>>,
) -> bool {
    exists|i: int|
        0 <= i < known_links.len() && same_path(
            (#[trigger] known_links[i])@,
            joined(directory, utf8(work_file_name(cgu_name, extension))),
        )
}

/// What saving one more file comes to.
pub open spec fn after_file(
    state: SavingState,
    directory: Seq<u8>,
    cgu_name: Seq<char>,
    provenance: Option<Seq<u8>>,
    known_links: Seq<Vec<u8>>,
    known: Option<Seq<char>>,
    file: WorkFile,
    index: usize,
) -> SavingState {
    let reused = is_known_link(directory, cgu_name, file.extension@, known_links);
    if !reused && !file.copied {
        SavingState { failed: state.failed.push(index), ..state }
    } else {
        let saved = with_saved(
            state.saved,
            file.extension@,
            work_file_name(cgu_name, file.extension@),
        );
        if file.extension@ == "o"@ {
            let action = digest_action(
                provenance,
                reused,
                digest_in(optional_text(file.digest.before)),
                known,
            );
            let object_path = joined(directory, utf8(work_file_name(cgu_name, file.extension@)));
            let digest = known_digest(
                object_path,
                cgu_name,
                digest_after(action, file.digest.written, optional_text(file.digest.after)),
            );
            SavingState {
                saved: if digest is Some {
                    with_saved(
                        saved,
                        SLD_CGU_OBJECT_DIGEST_FILE_ID@,
                        digest_name(object_path, cgu_name)->Some_0,
                    )
                } else {
                    saved
                },
                digest,
                failed: state.failed,
            }
        } else {
            SavingState { saved, ..state }
        }
    }
}

/// What saving files comes to.
pub open spec fn after_files(
    directory: Seq<u8>,
    cgu_name: Seq<char>,
    provenance: Option<Seq<u8>>,
    known_links: Seq<Vec<u8>>,
    known: Option<Seq<char>>,
    files: Seq<WorkFile>,
) -> SavingState
    decreases files.len(),
{
    if files.len() == 0 {
        SavingState { saved: Seq::empty(), digest: None, failed: Seq::empty() }
    } else {
        after_file(
            after_files(directory, cgu_name, provenance, known_links, known, files.drop_last()),
            directory,
            cgu_name,
            provenance,
            known_links,
            known,
            files.last(),
            (files.len() - 1) as usize,
        )
    }
}

/// Whether a path is one of the known links.
fn links_hold(known_links: &Vec<Vec<u8>>, path: &[u8]) -> (held: bool)
    ensures
        held == exists|i: int|
            0 <= i < known_links@.len() && same_path((#[trigger] known_links@[i])@, path@),
{
    let mut index: usize = 0;
    while index < known_links.len()
        invariant
            index <= known_links@.len(),
            forall|i: int| 0 <= i < index ==> !same_path((#[trigger] known_links@[i])@, path@),
        decreases known_links@.len() - index,
    {
        if paths_equal(known_links[index].as_slice(), path) {
            return true;
        }
        index = index + 1;
    }
    false
}

/// Saves the files of a unit of code. Nothing is saved where there is no
/// directory for incremental compilation.
pub fn copy_cgu_workproduct_to_incr_comp_cache_dir(
    directory: &Option<Vec<u8>>,
    cgu_name: &str,
    provenance: &Option<Vec<u8>>,
    files: &Vec<WorkFile>,
    known_links: &Vec<Vec<u8>>,
    known: &Option<String>,
) -> (work: Option<SavedWork>)
    ensures
        match (work, *directory) {
            (Some(work), Some(directory)) => work.work_product.cgu_name@ == cgu_name@ && (
            SavingState {
                saved: plain_saved(work.work_product.saved_files@),
                digest: optional_text(work.object_digest),
                failed: work.failed@,
            }) == after_files(
                directory@,
                cgu_name@,
                crate::bytes::optional(*provenance),
                known_links@,
                optional_text(*known),
                files@,
            ),
            (None, None) => true,
            _ => false,
        },
{
    let session = match directory {
        Some(directory) => directory.as_slice(),
        None => {
            return None;
        },
    };
    let mut saved: Vec<SavedFile> = Vec::new();
    let mut digest: Option<String> = None;
    let mut failed: Vec<usize> = Vec::new();
    let mut index: usize = 0;
    proof {
        assert(files@.take(0) =~= Seq::empty());
        assert(plain_saved(saved@) =~= Seq::<Saved>::empty());
        assert(failed@ =~= Seq::<usize>::empty());
    }
    while index < files.len()
        invariant
            index <= files@.len(),
            (SavingState {
                saved: plain_saved(saved@),
                digest: optional_text(digest),
                failed: failed@,
            }) == after_files(
                session@,
                cgu_name@,
                crate::bytes::optional(*provenance),
                known_links@,
                optional_text(*known),
                files@.take(index as int),
            ),
        decreases files@.len() - index,
    {
        proof {
            assert(files@.take(index + 1).drop_last() =~= files@.take(index as int));
            assert(files@.take(index + 1).last() == files@[index as int]);
        }
        let file = &files[index];
        let mut name = cgu_name.to_owned();
        name.append(".");
        name.append(file.extension.as_str());
        let path = join_path(session, name.as_str().as_bytes());
        let reused = links_hold(known_links, path.as_slice());
        proof {
            assert(reused == is_known_link(session@, cgu_name@, file.extension@, known_links@));
        }
        if !reused && !file.copied {
            failed.push(index);
        } else {
            save(&mut saved, file.extension.as_str(), name);
            if text_is(file.extension.as_str(), "o") {
                digest = track_sld_cgu_object_digest(
                    cgu_name,
                    path.as_slice(),
                    provenance,
                    reused,
                    known,
                    &file.digest,
                    &mut saved,
                );
            }
        }
        index = index + 1;
    }
    proof {
        assert(files@.take(index as int) =~= files@);
    }
    Some(
        SavedWork {
            work_product: WorkProduct { cgu_name: cgu_name.to_owned(), saved_files: saved },
            object_digest: digest,
            failed,
        },
    )
}

/// The path of the digest that a work product has of its object.
pub fn saved_digest_path(object_path: &[u8], work_product: &WorkProduct) -> (path: Option<Vec<u8>>)
    ensures
        crate::bytes::optional(path) == match saved_as(
            plain_saved(work_product.saved_files@),
            SLD_CGU_OBJECT_DIGEST_FILE_ID@,
        ) {
            Some(name) => Some(with_file_name(object_path@, utf8(name))),
            None => None,
        },
{
    let list = &work_product.saved_files;
    let at: usize = find_saved(list, SLD_CGU_OBJECT_DIGEST_FILE_ID);
    proof {
        let plain = plain_saved(list@);
        assert forall|i: int| 0 <= i < plain.len() implies (#[trigger] plain[i]).0
            == list@[i].id@ by {}
        lemma_with_saved(plain, SLD_CGU_OBJECT_DIGEST_FILE_ID@, Seq::empty(), at as int);
    }
    if at < list.len() {
        Some(path_with_file_name(object_path, list[at].name.as_str().as_bytes()))
    } else {
        None
    }
}

/// The persisted digest of an object. `text` is the text of the file at the
/// path that the work product has of it.
pub fn read_sld_cgu_object_digest(work_product: &WorkProduct, text: &Option<String>) -> (digest:
    Option<String>)
    ensures
        optional_text(digest) == if saved_as(
            plain_saved(work_product.saved_files@),
            SLD_CGU_OBJECT_DIGEST_FILE_ID@,
        ) is Some {
            digest_in(optional_text(*text))
        } else {
            None
        },
{
    let list = &work_product.saved_files;
    let at: usize = find_saved(list, SLD_CGU_OBJECT_DIGEST_FILE_ID);
    proof {
        let plain = plain_saved(list@);
        assert forall|i: int| 0 <= i < plain.len() implies (#[trigger] plain[i]).0
            == list@[i].id@ by {}
        lemma_with_saved(plain, SLD_CGU_OBJECT_DIGEST_FILE_ID@, Seq::empty(), at as int);
    }
    if at < list.len() {
        read_sld_cgu_object_digest_file(text)
    } else {
        None
    }
}

/// The path of a saved file, with what it was saved as.
pub struct SavedPath {
    pub id: Vec<u8>,
    pub path: Vec<u8>,
}

impl Ranked for SavedPath {
    open spec fn precedes(self, other: Self) -> bool {
        bytes_less(self.id@, other.id@)
    }

    fn comes_before(&self, other: &Self) -> (before: bool) {
        bytes_before(self.id.as_slice(), other.id.as_slice())
    }
}

/// The paths of saved files, in the order of what they were saved as.
pub fn delete_workproduct_files(directory: &[u8], work_product: &WorkProduct) -> (paths: Vec<
    SavedPath,
>)
    ensures
        exists|list: Seq<SavedPath>|
            paths@ == sorted(list, order_of()) && list.len() == work_product.saved_files@.len()
                && forall|i: int|
                0 <= i < list.len() ==> (#[trigger] list[i]).id@ == utf8(
                    work_product.saved_files@[i].id@,
                ) && list[i].path@ == joined(directory@, utf8(work_product.saved_files@[i].name@)),
{
    let files = &work_product.saved_files;
    let mut list: Vec<SavedPath> = Vec::new();
    let mut index: usize = 0;
    while index < files.len()
        invariant
            index <= files@.len(),
            list@.len() == index,
            forall|i: int|
                0 <= i < index ==> (#[trigger] list@[i]).id@ == utf8(files@[i].id@)
                    && list@[i].path@ == joined(directory@, utf8(files@[i].name@)),
        decreases files@.len() - index,
    {
        list.push(
            SavedPath {
                id: copy_bytes(files[index].id.as_str().as_bytes()),
                path: join_path(directory, files[index].name.as_str().as_bytes()),
            },
        );
        index = index + 1;
    }
    let ghost all = list@;
    let paths = sort(list);
    proof {
        assert(paths@ == sorted(all, order_of()));
    }
    paths
}

/// A digest that was written for an object is read back.
pub proof fn law_written_digests_are_read_back(object: Seq<u8>)
    requires
        crate::digest::blake3_digest(object).len() == 32,
    ensures
        digest_in(Some(digest_text(object))) == Some(hex_digest(object)),
{
    reveal_strlit("\n");
    law_rendered_digest_is_valid(crate::digest::blake3_digest(object));
    assert(without_line_break(digest_text(object)) =~= hex_digest(object));
}

/// A digest that was saved is found among the saved files, and what was saved
/// as something else stays.
pub proof fn law_saved_files_are_found(
    list: Seq<Saved>,
    id: Seq<char>,
    name: Seq<char>,
    other: Seq<char>,
)
    ensures
        saved_as(with_saved(list, id, name), id) == Some(name),
        other != id ==> saved_as(with_saved(list, id, name), other) == saved_as(list, other),
    decreases list.len(),
{
    let result = with_saved(list, id, name);
    if list.len() == 0 {
        assert(result.drop_last() =~= Seq::<Saved>::empty());
        assert(result.last() == (id, name));
        assert(saved_as(result.drop_last(), other) is None);
    } else if list.last().0 == id {
        assert(result.drop_last() =~= list.drop_last());
        assert(result.last() == (id, name));
        if other != id {
            assert(saved_as(result, other) == saved_as(list.drop_last(), other));
            assert(saved_as(list, other) == saved_as(list.drop_last(), other));
        }
    } else {
        law_saved_files_are_found(list.drop_last(), id, name, other);
        assert(result.drop_last() =~= with_saved(list.drop_last(), id, name));
        assert(result.last() == list.last());
    }
}

/// A digest is written, kept or removed as it should be: without the request, which
/// is the value `1`, it is removed. It is kept only for an object that was used
/// again, where the digest that is there is the one that is known. In every other
/// case it is written.
pub proof fn law_digests_are_kept_only_for_reused_objects(
    provenance: Option<Seq<u8>>,
    reused: bool,
    existing: Option<Seq<char>>,
    known: Option<Seq<char>>,
)
    ensures
        ({
            let action = digest_action(provenance, reused, existing, known);
            let wanted = match provenance {
                Some(value) => value.len() == 1 && value[0] == 0x31,
                None => false,
            };
            &&& action == DigestAction::Remove <==> !wanted
            &&& action == DigestAction::Keep ==> reused && existing is Some && existing == known
            &&& wanted && reused && existing is Some && existing == known ==> action
                == DigestAction::Keep
        }),
{
    reveal_strlit("1");
    is_ascii_chars_encode_utf8("1"@);
    assert(utf8("1"@) =~= seq![0x31u8]);
    if let Some(value) = provenance {
        if value.len() == 1 && value[0] == 0x31 {
            assert(value =~= seq![0x31u8]);
        }
    }
}

/// The digest of an object stands beside the object, under the name of its unit.
pub proof fn law_digests_stand_beside_objects(
    directory: Seq<u8>,
    name: Seq<u8>,
    cgu_name: Seq<char>,
)
    requires
        is_absolute(directory),
        directory.len() == 1 || (directory.last() != 0x2f && directory.last() != 0x2e),
        is_plain_name(name),
    ensures
        digest_path(joined(directory, name), cgu_name) == joined(
            directory,
            utf8(cgu_name + "."@ + SLD_CGU_OBJECT_DIGEST_FILE_ID@),
        ),
{
    law_names_are_read_back(directory, name, Seq::empty(), Seq::empty());
    law_parents_are_read_back(directory, name);
}

/// What is saved as one thing stays saved as that when more files are saved, if it
/// is no digest.
proof fn lemma_stays_saved(
    state: SavingState,
    directory: Seq<u8>,
    cgu_name: Seq<char>,
    provenance: Option<Seq<u8>>,
    known_links: Seq<Vec<u8>>,
    known: Option<Seq<char>>,
    file: WorkFile,
    index: usize,
    id: Seq<char>,
)
    requires
        id != SLD_CGU_OBJECT_DIGEST_FILE_ID@,
        saved_as(state.saved, id) == Some(cgu_name + "."@ + id),
    ensures
        saved_as(
            after_file(
                state,
                directory,
                cgu_name,
                provenance,
                known_links,
                known,
                file,
                index,
            ).saved,
            id,
        ) == Some(cgu_name + "."@ + id),
{
    let name = work_file_name(cgu_name, file.extension@);
    let saved = with_saved(state.saved, file.extension@, name);
    law_saved_files_are_found(state.saved, file.extension@, name, id);
    let object_path = joined(directory, utf8(name));
    let digest = digest_name(object_path, cgu_name)->Some_0;
    law_saved_files_are_found(saved, SLD_CGU_OBJECT_DIGEST_FILE_ID@, digest, id);
}

/// Every file that was copied, or that is there already, is saved under the name of
/// its unit with its own extension; every other file is reported as failed, and no
/// file is both.
pub proof fn law_files_are_saved_or_reported(
    directory: Seq<u8>,
    cgu_name: Seq<char>,
    provenance: Option<Seq<u8>>,
    known_links: Seq<Vec<u8>>,
    known: Option<Seq<char>>,
    files: Seq<WorkFile>,
    at: int,
)
    requires
        0 <= at < files.len() <= usize::MAX,
    ensures
        ({
            let state = after_files(
                directory,
                cgu_name,
                provenance,
                known_links,
                known,
                files,
            );
            let extension = files[at].extension@;
            let there = exists|i: int|
                0 <= i < known_links.len() && components((#[trigger] known_links[i])@)
                    == components(joined(directory, utf8(cgu_name + "."@ + extension)));
            &&& state.failed.contains(at as usize) <==> !files[at].copied && !there
            &&& (files[at].copied || there) && extension != SLD_CGU_OBJECT_DIGEST_FILE_ID@
                ==> saved_as(state.saved, extension) == Some(cgu_name + "."@ + extension)
        }),
    decreases files.len(),
{
    let front = files.drop_last();
    let before = after_files(directory, cgu_name, provenance, known_links, known, front);
    let state = after_files(directory, cgu_name, provenance, known_links, known, files);
    let last = files.last();
    let index = (files.len() - 1) as usize;
    lemma_failed_before(directory, cgu_name, provenance, known_links, known, front);
    assert(forall|k: usize| #[trigger] before.failed.push(index).contains(k) ==> k == index
        || before.failed.contains(k)) by {
        assert forall|k: usize| #[trigger]
            before.failed.push(index).contains(k) implies k == index || before.failed.contains(
            k,
        ) by {
            let pushed = before.failed.push(index);
            let j = choose|j: int| 0 <= j < pushed.len() && pushed[j] == k;
            if j < before.failed.len() {
                assert(before.failed[j] == k);
            }
        }
    }
    if at == files.len() - 1 {
        let name = work_file_name(cgu_name, last.extension@);
        law_saved_files_are_found(before.saved, last.extension@, name, last.extension@);
        let saved = with_saved(before.saved, last.extension@, name);
        let digest = digest_name(joined(directory, utf8(name)), cgu_name)->Some_0;
        law_saved_files_are_found(
            saved,
            SLD_CGU_OBJECT_DIGEST_FILE_ID@,
            digest,
            last.extension@,
        );
        let pushed = before.failed.push(index);
        assert(pushed[pushed.len() - 1] == index);
    } else {
        law_files_are_saved_or_reported(
            directory,
            cgu_name,
            provenance,
            known_links,
            known,
            front,
            at,
        );
        assert(front[at] == files[at]);
        if before.failed.contains(at as usize) {
            let k = choose|k: int| 0 <= k < before.failed.len() && before.failed[k] == at as usize;
            assert(before.failed.push(index)[k] == at as usize);
        }
        let extension = files[at].extension@;
        if extension != SLD_CGU_OBJECT_DIGEST_FILE_ID@ && saved_as(before.saved, extension) == Some(
            cgu_name + "."@ + extension,
        ) {
            lemma_stays_saved(
                before,
                directory,
                cgu_name,
                provenance,
                known_links,
                known,
                last,
                index,
                extension,
            );
        }
    }
}

/// Only files that were looked at are reported.
proof fn lemma_failed_before(
    directory: Seq<u8>,
    cgu_name: Seq<char>,
    provenance: Option<Seq<u8>>,
    known_links: Seq<Vec<u8>>,
    known: Option<Seq<char>>,
    files: Seq<WorkFile>,
)
    requires
        files.len() <= usize::MAX,
    ensures
        forall|k: usize| #[trigger]
            after_files(
                directory,
                cgu_name,
                provenance,
                known_links,
                known,
                files,
            ).failed.contains(k) ==> k < files.len(),
    decreases files.len(),
{
    if files.len() > 0 {
        let front = files.drop_last();
        let index = (files.len() - 1) as usize;
        lemma_failed_before(directory, cgu_name, provenance, known_links, known, front);
        let before = after_files(directory, cgu_name, provenance, known_links, known, front);
        let state = after_files(directory, cgu_name, provenance, known_links, known, files);
        assert forall|k: usize| #[trigger] state.failed.contains(k) implies k < files.len() by {
            let j = choose|j: int| 0 <= j < state.failed.len() && state.failed[j] == k;
            if j < before.failed.len() {
                assert(before.failed[j] == k);
                assert(before.failed.contains(k));
            }
        }
    }
}

} // verus!
