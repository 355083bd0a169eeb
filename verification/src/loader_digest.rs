//! The digest of the directories that the compiler is loaded from.

use vstd::bytes::spec_u64_to_le_bytes;
use vstd::bytes::u64_to_le_bytes;
use vstd::prelude::*;
use vstd::string::*;

use crate::admission::list_holds;
use crate::bytes::bytes_start_with;
use crate::bytes::copy_bytes;
use crate::bytes::push_bytes;
use crate::bytes::utf8;
use crate::compiler_identity::is_runtime_name;
use crate::compiler_identity::names_runtime_library;
use crate::compiler_identity::ArtifactCacheIdentityWitness;
use crate::digest::blake3_digest;
use crate::digest::blake3_of;
use crate::digest::lossy_text;
use crate::disk::entries_by_name;
use crate::disk::name_positions;
use crate::disk::Content;
use crate::disk::Directory;
use crate::disk::Disk;
use crate::disk::Entry;
use crate::disk::Lookup;
use crate::loader_inputs::canonical_relative;
use crate::loader_inputs::relative_to;
use crate::loader_inputs::CompilerLoaderInput;
use crate::loader_inputs::CompilerLoaderInputLocation;
use crate::loader_inputs::Host;
use crate::loader_inputs::LoaderInput;
use crate::loader_inputs::Root;
use crate::unix_path::byte_strings;
use crate::unix_path::join_path;
use crate::unix_path::joined;
use crate::unix_path::path_below;
use crate::unix_path::paths_equal;
use crate::unix_path::same_path;
use crate::unix_path::strip_path_prefix;

verus! {

/// The number that two bytes write.
pub open spec fn halfword(high: u8, low: u8) -> int {
    high as int * 0x100 + low as int
}

/// The number that four bytes write, the highest first.
pub open spec fn word(a: u8, b: u8, c: u8, d: u8) -> int {
    halfword(a, b) * 0x10000 + halfword(c, d)
}

/// Whether the first bytes of a file are those of an ELF file that may be a
/// dynamic library.
pub open spec fn is_elf_library(header: Seq<u8>) -> bool {
    if header.len() < 18 {
        true
    } else if header[5] == 1 {
        halfword(header[17], header[16]) == 3
    } else if header[5] == 2 {
        halfword(header[16], header[17]) == 3
    } else {
        true
    }
}

/// Whether the file type of a Mach-O header is that of a library or a bundle.
pub open spec fn is_macho_library(header: Seq<u8>, big_endian: bool) -> bool {
    if header.len() < 16 {
        false
    } else {
        let kind = if big_endian {
            word(header[12], header[13], header[14], header[15])
        } else {
            word(header[15], header[14], header[13], header[12])
        };
        kind == 6 || kind == 8
    }
}

/// Whether the first bytes of a file are those of a file that may be a
/// dynamic library.
pub open spec fn is_library_header(header: Seq<u8>) -> bool {
    if seq![0x7fu8, 0x45u8, 0x4cu8, 0x46u8].is_prefix_of(header) {
        is_elf_library(header)
    } else if seq![0xfeu8, 0xedu8, 0xfau8, 0xceu8].is_prefix_of(header)
        || seq![0xfeu8, 0xedu8, 0xfau8, 0xcfu8].is_prefix_of(header) {
        is_macho_library(header, true)
    } else if seq![0xceu8, 0xfau8, 0xedu8, 0xfeu8].is_prefix_of(header)
        || seq![0xcfu8, 0xfau8, 0xedu8, 0xfeu8].is_prefix_of(header) {
        is_macho_library(header, false)
    } else {
        ||| seq![0xcau8, 0xfeu8, 0xbau8, 0xbeu8].is_prefix_of(header)
        ||| seq![0xbeu8, 0xbau8, 0xfeu8, 0xcau8].is_prefix_of(header)
        ||| seq![0xcau8, 0xfeu8, 0xbau8, 0xbfu8].is_prefix_of(header)
        ||| seq![0xbfu8, 0xbau8, 0xfeu8, 0xcau8].is_prefix_of(header)
        ||| seq![0x4du8, 0x5au8].is_prefix_of(header)
    }
}

/// Whether a file may be a dynamic library, by its name or its first bytes.
pub open spec fn may_be_library(name: Seq<u8>, header: Seq<u8>) -> bool {
    is_runtime_name(lossy_text(name)) || is_library_header(header)
}

/// Whether a header starts with four bytes.
fn has_magic(header: &[u8], a: u8, b: u8, c: u8, d: u8) -> (found: bool)
    ensures
        found == seq![a, b, c, d].is_prefix_of(header@),
{
    let magic: [u8; 4] = [a, b, c, d];
    proof {
        assert(magic@ =~= seq![a, b, c, d]);
    }
    bytes_start_with(header, &magic)
}

/// Whether the file type of a Mach-O header is that of a library or a bundle.
fn has_macho_library_type(header: &[u8], big_endian: bool) -> (found: bool)
    ensures
        found == is_macho_library(header@, big_endian),
{
    if header.len() < 16 {
        return false;
    }
    if big_endian {
        header[12] == 0 && header[13] == 0 && header[14] == 0 && (header[15] == 6 || header[15]
            == 8)
    } else {
        header[15] == 0 && header[14] == 0 && header[13] == 0 && (header[12] == 6 || header[12]
            == 8)
    }
}

/// Whether a file may be a dynamic library, by its name or its first bytes.
pub fn is_potential_dynamic_library(name: &[u8], header: &[u8]) -> (found: bool)
    ensures
        found == may_be_library(name@, header@),
{
    if names_runtime_library(name) {
        return true;
    }
    if has_magic(header, 0x7f, 0x45, 0x4c, 0x46) {
        if header.len() < 18 {
            return true;
        }
        return if header[5] == 1 {
            header[17] == 0 && header[16] == 3
        } else if header[5] == 2 {
            header[16] == 0 && header[17] == 3
        } else {
            true
        };
    }
    if has_magic(header, 0xfe, 0xed, 0xfa, 0xce) || has_magic(header, 0xfe, 0xed, 0xfa, 0xcf) {
        return has_macho_library_type(header, true);
    }
    if has_magic(header, 0xce, 0xfa, 0xed, 0xfe) || has_magic(header, 0xcf, 0xfa, 0xed, 0xfe) {
        return has_macho_library_type(header, false);
    }
    let portable: [u8; 2] = [0x4d, 0x5a];
    proof {
        assert(portable@ =~= seq![0x4du8, 0x5au8]);
    }
    has_magic(header, 0xca, 0xfe, 0xba, 0xbe) || has_magic(header, 0xbe, 0xba, 0xfe, 0xca)
        || has_magic(header, 0xca, 0xfe, 0xba, 0xbf) || has_magic(header, 0xbf, 0xba, 0xfe, 0xca)
        || bytes_start_with(header, &portable)
}

/// A field of the hashed text: its length in eight bytes, then its bytes.
pub open spec fn frame(bytes: Seq<u8>) -> Seq<u8> {
    spec_u64_to_le_bytes(bytes.len() as u64) + bytes
}

/// Appends a field to the hashed text.
pub fn update_framed_loader_digest(hasher: &mut Vec<u8>, bytes: &[u8])
    ensures
        final(hasher)@ == old(hasher)@ + frame(bytes@),
{
    let ghost before = hasher@;
    let length = u64_to_le_bytes(bytes.len() as u64);
    push_bytes(hasher, length.as_slice());
    push_bytes(hasher, bytes);
    proof {
        assert(hasher@ =~= before + frame(bytes@));
    }
}

/// Appends a text as a field to the hashed text.
fn update_framed_text(hasher: &mut Vec<u8>, text: &str)
    ensures
        final(hasher)@ == old(hasher)@ + frame(utf8(text@)),
{
    update_framed_loader_digest(hasher, text.as_bytes());
}

/// `path` below `root`, or `path` itself where it is not below it.
pub open spec fn relative_or_self(path: Seq<u8>, root: Seq<u8>) -> Seq<u8> {
    match path_below(path, root) {
        Some(below) => below,
        None => path,
    }
}

/// `path` below `root`, or `path` itself where it is not below it.
pub fn relative_path(path: &[u8], root: &[u8]) -> (result: Vec<u8>)
    ensures
        result@ == relative_or_self(path@, root@),
{
    match strip_path_prefix(path, root) {
        Some(below) => below,
        None => copy_bytes(path),
    }
}

/// How a walk is made: from which root, into directories or not, and whether
/// directories are named by their place below the root.
pub struct WalkMode {
    pub root: Vec<u8>,
    pub recurse: bool,
    pub normalize: bool,
}

/// How a walk is made, as plain values.
pub type Mode = (Seq<u8>, bool, bool);

impl WalkMode {
    /// How the walk is made, as plain values.
    pub open spec fn plain(self) -> Mode {
        (self.root@, self.recurse, self.normalize)
    }
}

/// The hashed text of a walk and the directories visited.
pub type Frames = (Seq<u8>, Seq<Seq<u8>>);

/// The fields that name a directory.
pub open spec fn directory_heading(mode: Mode, path: Seq<u8>, canonical: Seq<u8>) -> Seq<u8> {
    let relative = relative_or_self(path, mode.0);
    frame(utf8("compiler-loader-search-directory"@)) + frame(relative) + if mode.2 {
        frame(utf8("/__cargo_artifact_cache_compiler_loader_root"@)) + frame(relative)
    } else {
        frame(canonical)
    }
}

/// The hashed text of a directory. `None` where it could not be read.
pub open spec fn directory_frames(
    directory: Directory,
    mode: Mode,
    path: Seq<u8>,
    visited: Seq<Seq<u8>>,
) -> Option<Frames>
    decreases directory,
{
    match directory.canonical {
        Lookup::Missing => Some((Seq::empty(), visited)),
        Lookup::Failed => None,
        Lookup::Found(canonical) => {
            let heading = directory_heading(mode, path, canonical@);
            if mode.1 && visited.contains(canonical@) {
                Some((heading, visited))
            } else {
                let seen = if mode.1 {
                    visited.push(canonical@)
                } else {
                    visited
                };
                match directory.entries {
                    Lookup::Missing => Some((heading, seen)),
                    Lookup::Failed => None,
                    Lookup::Found(entries) => match entries_frames(
                        entries,
                        entries@.len() as int,
                        mode,
                        path,
                        seen,
                    ) {
                        Some(frames) => Some((heading + frames.0, frames.1)),
                        None => None,
                    },
                }
            }
        },
    }
}

/// The fields that name a symbolic link and where it points.
pub open spec fn link_frames(entry: Entry, mode: Mode, path: Seq<u8>) -> Seq<u8> {
    match entry.link {
        Some(target) => frame(utf8("compiler-loader-search-symlink"@)) + frame(
            relative_or_self(path, mode.0),
        ) + frame(target@),
        None => Seq::empty(),
    }
}

/// The hashed text of the last `left` entries in the order of their names.
pub open spec fn entries_frames(
    entries: Vec<Entry>,
    left: int,
    mode: Mode,
    path: Seq<u8>,
    visited: Seq<Seq<u8>>,
) -> Option<Frames>
    decreases entries, left,
{
    if left <= 0 || left > entries@.len() {
        Some((Seq::empty(), visited))
    } else {
        let position = name_positions(entries@)[entries@.len() - left];
        if !(0 <= position < entries@.len()) {
            None
        } else {
            let entry = entries[position];
            let place = joined(path, entry.name@);
            let links = link_frames(entry, mode, place);
            let head: Option<Frames> = match entry.content {
                Content::Directory(inner) => if mode.1 {
                    match directory_frames(inner, mode, place, visited) {
                        Some(frames) => Some((links + frames.0, frames.1)),
                        None => None,
                    }
                } else {
                    Some((links, visited))
                },
                Content::File(file) => if may_be_library(entry.name@, file.header@) {
                    Some(
                        (
                            links + frame(utf8("compiler-loader-search-input"@)) + frame(
                                relative_or_self(place, mode.0),
                            ) + blake3_digest(file.contents@),
                            visited,
                        ),
                    )
                } else {
                    Some((links, visited))
                },
                _ => Some((links, visited)),
            };
            match head {
                None => None,
                Some(head) => match entries_frames(entries, left - 1, mode, path, head.1) {
                    Some(tail) => Some((head.0 + tail.0, tail.1)),
                    None => None,
                },
            }
        }
    }
}

/// Appends the fields that name a symbolic link.
fn push_link(hasher: &mut Vec<u8>, entry: &Entry, mode: &WalkMode, path: &[u8])
    ensures
        final(hasher)@ == old(hasher)@ + link_frames(*entry, mode.plain(), path@),
{
    let ghost before = hasher@;
    if let Some(target) = &entry.link {
        let relative = relative_path(path, mode.root.as_slice());
        update_framed_text(hasher, "compiler-loader-search-symlink");
        update_framed_loader_digest(hasher, relative.as_slice());
        update_framed_loader_digest(hasher, target.as_slice());
    }
    proof {
        assert(hasher@ =~= before + link_frames(*entry, mode.plain(), path@));
    }
}

/// Appends the hashed text of a directory.
fn hash_directory(
    hasher: &mut Vec<u8>,
    directory: &Directory,
    mode: &WalkMode,
    path: &[u8],
    visited: &mut Vec<Vec<u8>>,
) -> (read: bool)
    ensures
        match directory_frames(*directory, mode.plain(), path@, byte_strings(old(visited)@)) {
            Some(frames) => read && final(hasher)@ == old(hasher)@ + frames.0 && byte_strings(
                final(visited)@,
            ) == frames.1,
            None => !read,
        },
    decreases directory,
{
    let ghost start = hasher@;
    let ghost first = byte_strings(visited@);
    let canonical = match &directory.canonical {
        Lookup::Missing => {
            proof {
                assert(start + Seq::<u8>::empty() =~= start);
            }
            return true;
        },
        Lookup::Failed => {
            return false;
        },
        Lookup::Found(canonical) => canonical,
    };
    let relative = relative_path(path, mode.root.as_slice());
    update_framed_text(hasher, "compiler-loader-search-directory");
    update_framed_loader_digest(hasher, relative.as_slice());
    if mode.normalize {
        update_framed_text(hasher, "/__cargo_artifact_cache_compiler_loader_root");
        update_framed_loader_digest(hasher, relative.as_slice());
    } else {
        update_framed_loader_digest(hasher, canonical.as_slice());
    }
    let ghost heading = directory_heading(mode.plain(), path@, canonical@);
    proof {
        assert(hasher@ =~= start + heading);
    }
    if mode.recurse {
        if list_holds(visited, canonical.as_slice()) {
            return true;
        }
        let ghost before = visited@;
        visited.push(copy_bytes(canonical.as_slice()));
        proof {
            assert(byte_strings(visited@) =~= byte_strings(before).push(canonical@));
        }
    }
    let entries = match &directory.entries {
        Lookup::Missing => {
            return true;
        },
        Lookup::Failed => {
            return false;
        },
        Lookup::Found(entries) => entries,
    };
    let positions = entries_by_name(entries);
    let ghost goal = directory_frames(*directory, mode.plain(), path@, first);
    let ghost whole = entries_frames(
        *entries,
        entries@.len() as int,
        mode.plain(),
        path@,
        byte_strings(visited@),
    );
    let ghost mut done: Seq<u8> = Seq::empty();
    let mut index: usize = 0;
    proof {
        assert(start + heading + done =~= start + heading);
        if whole is Some {
            let frames = whole->0;
            assert(done + frames.0 =~= frames.0);
        }
    }
    while index < entries.len()
        invariant
            index <= entries@.len(),
            first == byte_strings(old(visited)@),
            start == old(hasher)@,
            directory.entries == Lookup::Found(*entries),
            positions@.len() == entries@.len(),
            forall|i: int|
                0 <= i < positions@.len() ==> #[trigger] positions@[i] as int == name_positions(
                    entries@,
                )[i],
            forall|i: int| 0 <= i < positions@.len() ==> #[trigger] positions@[i] < entries@.len(),
            goal == directory_frames(*directory, mode.plain(), path@, first),
            match whole {
                Some(frames) => goal == Some((heading + frames.0, frames.1)),
                None => goal is None,
            },
            hasher@ == start + heading + done,
            match entries_frames(
                *entries,
                entries@.len() - index,
                mode.plain(),
                path@,
                byte_strings(visited@),
            ) {
                Some(rest) => whole == Some((done + rest.0, rest.1)),
                None => whole is None,
            },
        decreases entries@.len() - index,
    {
        let ghost rest = entries_frames(
            *entries,
            entries@.len() - index,
            mode.plain(),
            path@,
            byte_strings(visited@),
        );
        let ghost seen = byte_strings(visited@);
        let ghost before = hasher@;
        let position: usize = positions[index];
        proof {
            assert(positions@[index as int] as int == name_positions(entries@)[index as int]);
        }
        let entry = &entries[position];
        let place = join_path(path, entry.name.as_slice());
        push_link(hasher, entry, mode, place.as_slice());
        let ghost links = link_frames(*entry, mode.plain(), place@);
        let ghost mut part: Seq<u8> = links;
        match &entry.content {
            Content::Directory(inner) => {
                if mode.recurse {
                    proof {
                        assert(directory.entries->Found_0 == *entries);
                        assert(decreases_to!(*directory => directory.entries->Found_0));
                        assert(decreases_to!(*entries => entries[position as int]));
                        assert(decreases_to!(entries[position as int] => *inner));
                    }
                    let ghost frames = directory_frames(*inner, mode.plain(), place@, seen);
                    if !hash_directory(hasher, inner, mode, place.as_slice(), visited) {
                        return false;
                    }
                    proof {
                        let inner_frames = frames->0;
                        part = links + inner_frames.0;
                    }
                }
            },
            Content::File(file) => {
                if is_potential_dynamic_library(entry.name.as_slice(), file.header.as_slice()) {
                    let relative = relative_path(place.as_slice(), mode.root.as_slice());
                    update_framed_text(hasher, "compiler-loader-search-input");
                    update_framed_loader_digest(hasher, relative.as_slice());
                    let digest = blake3_of(file.contents.as_slice());
                    push_bytes(hasher, &digest);
                    proof {
                        part = links + frame(utf8("compiler-loader-search-input"@)) + frame(
                            relative_or_self(place@, mode.root@),
                        ) + blake3_digest(file.contents@);
                    }
                }
            },
            _ => {},
        }
        proof {
            assert(hasher@ =~= before + part);
            let ghost_done = done + part;
            let tail = entries_frames(
                *entries,
                entries@.len() - index - 1,
                mode.plain(),
                path@,
                byte_strings(visited@),
            );
            if tail is Some {
                let frames = tail->0;
                assert(rest == Some((part + frames.0, frames.1)));
                assert(done + (part + frames.0) =~= ghost_done + frames.0);
            }
            assert(before + part =~= start + heading + ghost_done);
            done = ghost_done;
        }
        index = index + 1;
    }
    proof {
        assert(done + Seq::<u8>::empty() =~= done);
        assert(start + heading + done =~= start + (heading + done));
    }
    true
}

/// The hashed text of what a searched directory holds: read from itself, into
/// its directories on Linux. `None` where it could not be read.
pub open spec fn library_inputs(
    host: Host,
    directory: Directory,
    path: Seq<u8>,
    normalize: bool,
) -> Option<Seq<u8>> {
    match directory_frames(directory, (path, host.linux, normalize), path, Seq::empty()) {
        Some(frames) => Some(frames.0),
        None => None,
    }
}

/// Appends the hashed text of what a searched directory holds. Tells whether
/// it could be read.
pub fn hash_dynamic_library_inputs(
    host: &Host,
    hasher: &mut Vec<u8>,
    directory: &Directory,
    path: &[u8],
    normalize_directory_locations: bool,
) -> (read: bool)
    ensures
        match library_inputs(*host, *directory, path@, normalize_directory_locations) {
            Some(bytes) => read && final(hasher)@ == old(hasher)@ + bytes,
            None => !read,
        },
{
    let mode = WalkMode {
        root: copy_bytes(path),
        recurse: host.linux,
        normalize: normalize_directory_locations,
    };
    let mut visited: Vec<Vec<u8>> = Vec::new();
    proof {
        assert(byte_strings(visited@) =~= Seq::empty());
    }
    hash_directory(hasher, directory, &mode, path, &mut visited)
}

/// A walk for dynamic libraries in nested directories: the answer, `None`
/// where something could not be read, and the directories visited.
pub type Search = (Option<bool>, Seq<Seq<u8>>);

/// Searches a directory that was not visited before.
pub open spec fn search_directory(
    directory: Directory,
    nested: bool,
    visited: Seq<Seq<u8>>,
) -> Search
    decreases directory,
{
    match directory.canonical {
        Lookup::Missing => (Some(false), visited),
        Lookup::Failed => (None, visited),
        Lookup::Found(canonical) => if visited.contains(canonical@) {
            (Some(false), visited)
        } else {
            match directory.entries {
                Lookup::Missing => (Some(false), visited.push(canonical@)),
                Lookup::Failed => (None, visited.push(canonical@)),
                Lookup::Found(entries) => search_entries(
                    entries,
                    entries@.len() as int,
                    nested,
                    visited.push(canonical@),
                ),
            }
        },
    }
}

/// Searches the last `left` entries of a directory.
pub open spec fn search_entries(
    entries: Vec<Entry>,
    left: int,
    nested: bool,
    visited: Seq<Seq<u8>>,
) -> Search
    decreases entries, left,
{
    if left <= 0 || left > entries@.len() {
        (Some(false), visited)
    } else {
        let entry = entries[entries@.len() - left];
        match entry.content {
            Content::Directory(inner) => {
                let below = search_directory(inner, true, visited);
                if below.0 == Some(false) {
                    search_entries(entries, left - 1, nested, below.1)
                } else {
                    below
                }
            },
            Content::File(file) => if nested && may_be_library(entry.name@, file.header@) {
                (Some(true), visited)
            } else {
                search_entries(entries, left - 1, nested, visited)
            },
            _ => search_entries(entries, left - 1, nested, visited),
        }
    }
}

/// Searches a directory that was not visited before.
fn search(directory: &Directory, nested: bool, visited: &mut Vec<Vec<u8>>) -> (found: Option<bool>)
    ensures
        (found, byte_strings(final(visited)@)) == search_directory(
            *directory,
            nested,
            byte_strings(old(visited)@),
        ),
    decreases directory,
{
    let canonical = match &directory.canonical {
        Lookup::Missing => {
            return Some(false);
        },
        Lookup::Failed => {
            return None;
        },
        Lookup::Found(canonical) => canonical,
    };
    if list_holds(visited, canonical.as_slice()) {
        return Some(false);
    }
    let ghost before = visited@;
    visited.push(copy_bytes(canonical.as_slice()));
    proof {
        assert(byte_strings(visited@) =~= byte_strings(before).push(canonical@));
    }
    let entries = match &directory.entries {
        Lookup::Missing => {
            return Some(false);
        },
        Lookup::Failed => {
            return None;
        },
        Lookup::Found(entries) => entries,
    };
    let ghost goal = search_directory(*directory, nested, byte_strings(before));
    let mut index: usize = 0;
    while index < entries.len()
        invariant
            index <= entries@.len(),
            directory.entries == Lookup::Found(*entries),
            before == old(visited)@,
            goal == search_directory(*directory, nested, byte_strings(before)),
            goal == search_entries(
                *entries,
                entries@.len() - index,
                nested,
                byte_strings(visited@),
            ),
        decreases entries@.len() - index,
    {
        let entry = &entries[index];
        match &entry.content {
            Content::Directory(inner) => {
                proof {
                    assert(directory.entries->Found_0 == *entries);
                    assert(decreases_to!(*directory => directory.entries->Found_0));
                    assert(decreases_to!(*entries => entries[index as int]));
                    assert(decreases_to!(entries[index as int] => *inner));
                }
                match search(inner, true, visited) {
                    Some(false) => {},
                    Some(true) => {
                        return Some(true);
                    },
                    None => {
                        return None;
                    },
                }
            },
            Content::File(file) => {
                if nested && is_potential_dynamic_library(
                    entry.name.as_slice(),
                    file.header.as_slice(),
                ) {
                    return Some(true);
                }
            },
            _ => {},
        }
        index = index + 1;
    }
    Some(false)
}

/// Whether the loader would look into no nested directory with libraries:
/// outside Linux, or where every searched directory was read and holds none.
pub open spec fn searches_are_modeled(host: Host, directories: Seq<Directory>) -> bool {
    !host.linux || forall|i: int|
        0 <= i < directories.len() ==> search_directory(
            #[trigger] directories[i],
            false,
            Seq::empty(),
        ).0 == Some(false)
}

/// Whether the loader would look into no nested directory with libraries.
pub fn artifact_cache_loader_input_paths_are_modeled(
    host: &Host,
    directories: &Vec<Directory>,
) -> (modeled: bool)
    ensures
        modeled == searches_are_modeled(*host, directories@),
{
    if !host.linux {
        return true;
    }
    let mut index: usize = 0;
    while index < directories.len()
        invariant
            index <= directories@.len(),
            host.linux,
            forall|i: int|
                0 <= i < index ==> search_directory(
                    #[trigger] directories@[i],
                    false,
                    Seq::empty(),
                ).0 == Some(false),
        decreases directories@.len() - index,
    {
        let mut visited: Vec<Vec<u8>> = Vec::new();
        proof {
            assert(byte_strings(visited@) =~= Seq::empty());
        }
        match search(&directories[index], false, &mut visited) {
            Some(false) => {},
            _ => {
                return false;
            },
        }
        index = index + 1;
    }
    true
}

/// Whether a compiler identity covers every library in a directory: there is
/// no symbolic link, and each library is one of the files of the witness.
pub open spec fn identity_covers(
    witness: ArtifactCacheIdentityWitness,
    directory: Directory,
    path: Seq<u8>,
    recurse: bool,
) -> bool
    decreases directory,
{
    match directory.entries {
        Lookup::Missing => true,
        Lookup::Failed => false,
        Lookup::Found(entries) => identity_covers_entries(
            witness,
            entries,
            entries@.len() as int,
            path,
            recurse,
        ),
    }
}

/// Whether a compiler identity covers the first `count` entries.
pub open spec fn identity_covers_entries(
    witness: ArtifactCacheIdentityWitness,
    entries: Vec<Entry>,
    count: int,
    path: Seq<u8>,
    recurse: bool,
) -> bool
    decreases entries, count,
{
    if count <= 0 || count > entries@.len() {
        true
    } else {
        let entry = entries[count - 1];
        let place = joined(path, entry.name@);
        &&& identity_covers_entries(witness, entries, count - 1, path, recurse)
        &&& entry.link is None
        &&& match entry.content {
            Content::Directory(inner) => recurse ==> identity_covers(witness, inner, place, true),
            Content::File(file) => may_be_library(entry.name@, file.header@) ==> witness.holds_file(
                place,
            ),
            Content::Other => true,
            Content::Unreadable => false,
        }
    }
}

/// An entry that is not covered is not covered among more entries.
proof fn lemma_not_covered(
    witness: ArtifactCacheIdentityWitness,
    entries: Vec<Entry>,
    count: int,
    total: int,
    path: Seq<u8>,
    recurse: bool,
)
    requires
        0 <= count <= total <= entries@.len(),
        !identity_covers_entries(witness, entries, count, path, recurse),
    ensures
        !identity_covers_entries(witness, entries, total, path, recurse),
    decreases total - count,
{
    if count < total {
        lemma_not_covered(witness, entries, count, total - 1, path, recurse);
    }
}

/// Whether a compiler identity covers every library in a directory.
pub fn compiler_identity_covers_loader_input(
    witness: &ArtifactCacheIdentityWitness,
    directory: &Directory,
    path: &[u8],
    recurse: bool,
) -> (covers: bool)
    ensures
        covers == identity_covers(*witness, *directory, path@, recurse),
    decreases directory,
{
    let entries = match &directory.entries {
        Lookup::Missing => {
            return true;
        },
        Lookup::Failed => {
            return false;
        },
        Lookup::Found(entries) => entries,
    };
    let mut index: usize = 0;
    while index < entries.len()
        invariant
            index <= entries@.len(),
            directory.entries == Lookup::Found(*entries),
            identity_covers_entries(*witness, *entries, index as int, path@, recurse),
        decreases entries@.len() - index,
    {
        let entry = &entries[index];
        let place = join_path(path, entry.name.as_slice());
        let covered = entry.link.is_none() && match &entry.content {
            Content::Directory(inner) => {
                proof {
                    assert(directory.entries->Found_0 == *entries);
                    assert(decreases_to!(*directory => directory.entries->Found_0));
                    assert(decreases_to!(*entries => entries[index as int]));
                    assert(decreases_to!(entries[index as int] => *inner));
                }
                !recurse || compiler_identity_covers_loader_input(
                    witness,
                    inner,
                    place.as_slice(),
                    true,
                )
            },
            Content::File(file) => !is_potential_dynamic_library(
                entry.name.as_slice(),
                file.header.as_slice(),
            ) || witness.contains_file(place.as_slice()),
            Content::Other => true,
            Content::Unreadable => false,
        };
        if !covered {
            proof {
                lemma_not_covered(
                    *witness,
                    *entries,
                    index + 1,
                    entries@.len() as int,
                    path@,
                    recurse,
                );
            }
            return false;
        }
        index = index + 1;
    }
    true
}

/// Whether a compiler identity covers a search path without looking into it:
/// on macOS, where it is the `lib` directory of the sysroot.
pub open spec fn identity_covers_statically(
    host: Host,
    disk: Disk,
    witness: ArtifactCacheIdentityWitness,
    path: Seq<u8>,
    root: Seq<u8>,
    relative: Seq<u8>,
) -> bool {
    host.macos && same_path(relative, utf8("lib"@)) && match (
        disk.canonical(path),
        disk.canonical(joined(root, relative)),
    ) {
        (Some(actual), Some(expected)) => same_path(actual, expected) && witness.holds_directory(
            actual,
            disk,
        ),
        _ => false,
    }
}

/// Whether a compiler identity covers a search path without looking into it.
pub fn compiler_identity_statically_covers_loader_input(
    host: &Host,
    disk: &Disk,
    witness: &ArtifactCacheIdentityWitness,
    input: &CompilerLoaderInput,
    root: &[u8],
    relative: &[u8],
) -> (covers: bool)
    ensures
        covers == identity_covers_statically(
            *host,
            *disk,
            *witness,
            input.path@,
            root@,
            relative@,
        ),
{
    if !host.macos || !paths_equal(relative, "lib".as_bytes()) {
        return false;
    }
    match (disk.canonicalize(input.path.as_slice()), disk.canonicalize(
        join_path(root, relative).as_slice(),
    )) {
        (Some(actual), Some(expected)) => paths_equal(actual.as_slice(), expected.as_slice())
            && witness.contains_canonical_directory(actual.as_slice(), disk),
        _ => false,
    }
}

/// Why search paths have no digest. A number is the position of the input.
#[derive(Clone, Copy, Debug, PartialEq, Eq, Structural)]
pub enum LoaderInputsError {
    NestedLibraries,
    EscapedRoot(usize),
    ChangedLocation(usize),
    Unreadable(usize),
}

/// Whether an input still stands where it was placed.
pub open spec fn location_error(
    disk: Disk,
    path: Seq<u8>,
    root: Seq<u8>,
    expected: Seq<u8>,
    position: usize,
) -> Option<LoaderInputsError> {
    match relative_to(disk, path, root) {
        None => Some(LoaderInputsError::EscapedRoot(position)),
        Some(relative) => if same_path(relative, expected) {
            None
        } else {
            Some(LoaderInputsError::ChangedLocation(position))
        },
    }
}

/// Tells why an input no longer stands where it was placed.
pub fn validate_portable_loader_location(
    disk: &Disk,
    input: &CompilerLoaderInput,
    root: &[u8],
    expected_relative: &[u8],
    position: usize,
) -> (result: Result<(), LoaderInputsError>)
    ensures
        match result {
            Ok(_) => location_error(
                *disk,
                input.path@,
                root@,
                expected_relative@,
                position,
            ) is None,
            Err(error) => location_error(
                *disk,
                input.path@,
                root@,
                expected_relative@,
                position,
            ) == Some(error),
        },
{
    match canonical_relative(disk, input.path.as_slice(), root) {
        None => Err(LoaderInputsError::EscapedRoot(position)),
        Some(relative) => if paths_equal(relative.as_slice(), expected_relative) {
            Ok(())
        } else {
            Err(LoaderInputsError::ChangedLocation(position))
        },
    }
}

/// The name that stands for a root in the hashed text.
pub open spec fn root_name(root: Root) -> Seq<char> {
    match root {
        Root::CompilerSysroot => "/__cargo_artifact_cache_compiler_sysroot"@,
        Root::TargetProfile => "/__cargo_artifact_cache_target_profile"@,
        Root::BuildDir => "/__cargo_artifact_cache_build_dir"@,
        Root::RustcCwd => "/__cargo_artifact_cache_rustc_cwd_loader_root"@,
    }
}

/// The name that stands for a root in the hashed text.
pub fn portable_root_name(root: Root) -> (name: &'static str)
    ensures
        name@ == root_name(root),
{
    match root {
        Root::CompilerSysroot => "/__cargo_artifact_cache_compiler_sysroot",
        Root::TargetProfile => "/__cargo_artifact_cache_target_profile",
        Root::BuildDir => "/__cargo_artifact_cache_build_dir",
        Root::RustcCwd => "/__cargo_artifact_cache_rustc_cwd_loader_root",
    }
}

/// Whether the contents of an input are hashed: not where the compiler
/// identity covers them.
pub open spec fn hashes_contents(
    host: Host,
    disk: Disk,
    input: LoaderInput,
    directory: Directory,
    witness: Option<ArtifactCacheIdentityWitness>,
) -> bool {
    match (input.3, witness) {
        (Some((Root::CompilerSysroot, root, relative)), Some(witness)) => {
            !identity_covers_statically(host, disk, witness, input.2, root, relative)
                && !identity_covers(witness, directory, input.2, host.linux)
        },
        _ => true,
    }
}

/// The hashed text of one input.
pub open spec fn input_frames(
    host: Host,
    disk: Disk,
    input: LoaderInput,
    directory: Directory,
    witness: Option<ArtifactCacheIdentityWitness>,
    position: usize,
) -> Result<Seq<u8>, LoaderInputsError> {
    let error = match input.3 {
        Some((kind, root, relative)) => location_error(disk, input.2, root, relative, position),
        None => None,
    };
    match error {
        Some(error) => Err(error),
        None => {
            let named = frame(utf8(input.0)) + match input.3 {
                Some((kind, root, relative)) => frame(utf8(root_name(kind))) + frame(relative),
                None => frame(input.2),
            };
            if hashes_contents(host, disk, input, directory, witness) {
                match library_inputs(host, directory, input.2, input.3 is Some) {
                    Some(contents) => Ok(named + contents),
                    None => Err(LoaderInputsError::Unreadable(position)),
                }
            } else {
                Ok(named)
            }
        },
    }
}

/// The hashed text of the first `count` inputs.
pub open spec fn inputs_frames(
    host: Host,
    disk: Disk,
    inputs: Seq<CompilerLoaderInput>,
    directories: Seq<Directory>,
    witness: Option<ArtifactCacheIdentityWitness>,
    count: int,
) -> Result<Seq<u8>, LoaderInputsError>
    decreases count,
{
    if count <= 0 || count > inputs.len() || count > directories.len() {
        Ok(utf8("cargo-artifact-cache-compiler-loader-inputs-v2\0"@))
    } else {
        match inputs_frames(host, disk, inputs, directories, witness, count - 1) {
            Err(error) => Err(error),
            Ok(before) => match input_frames(
                host,
                disk,
                inputs[count - 1].input(),
                directories[count - 1],
                witness,
                (count - 1) as usize,
            ) {
                Err(error) => Err(error),
                Ok(last) => Ok(before + last),
            },
        }
    }
}

/// The text that is hashed for the search paths of a compiler.
pub open spec fn loader_text(
    host: Host,
    disk: Disk,
    inputs: Seq<CompilerLoaderInput>,
    directories: Seq<Directory>,
    witness: Option<ArtifactCacheIdentityWitness>,
) -> Result<Seq<u8>, LoaderInputsError> {
    if !searches_are_modeled(host, directories) {
        Err(LoaderInputsError::NestedLibraries)
    } else {
        inputs_frames(host, disk, inputs, directories, witness, inputs.len() as int)
    }
}

/// An error among the first inputs is the error of all.
proof fn lemma_inputs_frames_error(
    host: Host,
    disk: Disk,
    inputs: Seq<CompilerLoaderInput>,
    directories: Seq<Directory>,
    witness: Option<ArtifactCacheIdentityWitness>,
    count: int,
    total: int,
)
    requires
        0 <= count <= total <= inputs.len(),
        total <= directories.len(),
        inputs_frames(host, disk, inputs, directories, witness, count) is Err,
    ensures
        inputs_frames(host, disk, inputs, directories, witness, total) == inputs_frames(
            host,
            disk,
            inputs,
            directories,
            witness,
            count,
        ),
    decreases total - count,
{
    if count < total {
        lemma_inputs_frames_error(host, disk, inputs, directories, witness, count, total - 1);
    }
}

/// What an optional witness is.
pub open spec fn optional_witness(
    witness: Option<&ArtifactCacheIdentityWitness>,
) -> Option<ArtifactCacheIdentityWitness> {
    match witness {
        Some(witness) => Some(*witness),
        None => None,
    }
}

/// Appends the hashed text of one input.
fn hash_input(
    host: &Host,
    disk: &Disk,
    hasher: &mut Vec<u8>,
    input: &CompilerLoaderInput,
    directory: &Directory,
    witness: Option<&ArtifactCacheIdentityWitness>,
    position: usize,
) -> (result: Result<(), LoaderInputsError>)
    ensures
        match (
            result,
            input_frames(
                *host,
                *disk,
                input.input(),
                *directory,
                optional_witness(witness),
                position,
            ),
        ) {
            (Ok(_), Ok(bytes)) => final(hasher)@ == old(hasher)@ + bytes,
            (Err(error), Err(expected)) => error == expected,
            _ => false,
        },
{
    let ghost start = hasher@;
    update_framed_text(hasher, input.source.as_str());
    let mut hash_contents = true;
    let placed: Option<(Root, &Vec<u8>, &Vec<u8>)> = match &input.location {
        CompilerLoaderInputLocation::Absolute => None,
        CompilerLoaderInputLocation::CompilerSysroot { root, relative } => Some(
            (Root::CompilerSysroot, root, relative),
        ),
        CompilerLoaderInputLocation::TargetProfile { root, relative } => Some(
            (Root::TargetProfile, root, relative),
        ),
        CompilerLoaderInputLocation::BuildDir { root, relative } => Some(
            (Root::BuildDir, root, relative),
        ),
        CompilerLoaderInputLocation::RustcCwd { root, relative } => Some(
            (Root::RustcCwd, root, relative),
        ),
    };
    match placed {
        Some((kind, root, relative)) => {
            match validate_portable_loader_location(
                disk,
                input,
                root.as_slice(),
                relative.as_slice(),
                position,
            ) {
                Ok(_) => {},
                Err(error) => {
                    return Err(error);
                },
            }
            update_framed_text(hasher, portable_root_name(kind));
            update_framed_loader_digest(hasher, relative.as_slice());
            if kind == Root::CompilerSysroot {
                if let Some(witness) = witness {
                    hash_contents = !compiler_identity_statically_covers_loader_input(
                        host,
                        disk,
                        witness,
                        input,
                        root.as_slice(),
                        relative.as_slice(),
                    ) && !compiler_identity_covers_loader_input(
                        witness,
                        directory,
                        input.path.as_slice(),
                        host.linux,
                    );
                }
            }
        },
        None => {
            update_framed_loader_digest(hasher, input.path.as_slice());
        },
    }
    let ghost place = input.location.place();
    let ghost named = frame(utf8(input.source@)) + match place {
        Some((kind, root, relative)) => frame(utf8(root_name(kind))) + frame(relative),
        None => frame(input.path@),
    };
    proof {
        assert(hasher@ =~= start + named);
        assert(hash_contents == hashes_contents(
            *host,
            *disk,
            input.input(),
            *directory,
            optional_witness(witness),
        ));
    }
    if hash_contents {
        if !hash_dynamic_library_inputs(
            host,
            hasher,
            directory,
            input.path.as_slice(),
            placed.is_some(),
        ) {
            return Err(LoaderInputsError::Unreadable(position));
        }
        proof {
            let contents = library_inputs(*host, *directory, input.path@, place is Some)->0;
            assert(start + named + contents =~= start + (named + contents));
        }
    }
    Ok(())
}

/// The digest of the search paths of a compiler. `directories` holds what was
/// found at each of them.
pub fn compiler_loader_inputs_digest(
    host: &Host,
    disk: &Disk,
    loader_input_paths: &Vec<CompilerLoaderInput>,
    directories: &Vec<Directory>,
    identity_witness: Option<&ArtifactCacheIdentityWitness>,
) -> (digest: Result<[u8; 32], LoaderInputsError>)
    requires
        directories@.len() == loader_input_paths@.len(),
    ensures
        match (
            digest,
            loader_text(
                *host,
                *disk,
                loader_input_paths@,
                directories@,
                optional_witness(identity_witness),
            ),
        ) {
            (Ok(digest), Ok(text)) => digest@ == blake3_digest(text),
            (Err(error), Err(expected)) => error == expected,
            _ => false,
        },
{
    if !artifact_cache_loader_input_paths_are_modeled(host, directories) {
        return Err(LoaderInputsError::NestedLibraries);
    }
    let ghost witness = optional_witness(identity_witness);
    let mut hasher: Vec<u8> = Vec::new();
    push_bytes(&mut hasher, "cargo-artifact-cache-compiler-loader-inputs-v2\0".as_bytes());
    proof {
        assert(hasher@ =~= utf8("cargo-artifact-cache-compiler-loader-inputs-v2\0"@));
    }
    let mut index: usize = 0;
    while index < loader_input_paths.len()
        invariant
            index <= loader_input_paths@.len(),
            directories@.len() == loader_input_paths@.len(),
            searches_are_modeled(*host, directories@),
            witness == optional_witness(identity_witness),
            inputs_frames(
                *host,
                *disk,
                loader_input_paths@,
                directories@,
                witness,
                index as int,
            ) == Ok::<Seq<u8>, LoaderInputsError>(hasher@),
        decreases loader_input_paths@.len() - index,
    {
        match hash_input(
            host,
            disk,
            &mut hasher,
            &loader_input_paths[index],
            &directories[index],
            identity_witness,
            index,
        ) {
            Ok(_) => {},
            Err(error) => {
                proof {
                    lemma_inputs_frames_error(
                        *host,
                        *disk,
                        loader_input_paths@,
                        directories@,
                        witness,
                        index + 1,
                        loader_input_paths@.len() as int,
                    );
                }
                return Err(error);
            },
        }
        index = index + 1;
    }
    Ok(blake3_of(hasher.as_slice()))
}

/// Framed fields are read back one way only: what is framed first is
/// determined by the framed text.
pub proof fn law_frames_are_unambiguous(
    first: Seq<u8>,
    rest: Seq<u8>,
    other_first: Seq<u8>,
    other_rest: Seq<u8>,
)
    requires
        first.len() <= u64::MAX,
        other_first.len() <= u64::MAX,
        frame(first) + rest == frame(other_first) + other_rest,
    ensures
        first == other_first,
        rest == other_rest,
{
    vstd::bytes::lemma_auto_spec_u64_to_from_le_bytes();
    let left = frame(first) + rest;
    let right = frame(other_first) + other_rest;
    let prefix = spec_u64_to_le_bytes(first.len() as u64);
    let other_prefix = spec_u64_to_le_bytes(other_first.len() as u64);
    assert(prefix =~= left.take(8));
    assert(other_prefix =~= right.take(8));
    assert(first.len() == other_first.len());
    assert(first =~= left.subrange(8, 8 + first.len() as int));
    assert(other_first =~= right.subrange(8, 8 + other_first.len() as int));
    assert(rest =~= left.skip(8 + first.len() as int));
    assert(other_rest =~= right.skip(8 + other_first.len() as int));
}

} // verus!
