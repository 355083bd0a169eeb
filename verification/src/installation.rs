//! Reading a compiler installation: its files, its directories and the digest
//! that identifies it.

use vstd::bytes::spec_u64_to_le_bytes;
use vstd::bytes::u64_to_le_bytes;
use vstd::prelude::*;
use vstd::string::*;

use crate::admission::list_holds;
use crate::bytes::bytes_equal;
use crate::bytes::copy_bytes;
use crate::bytes::push_bytes;
use crate::bytes::push_text;
use crate::bytes::utf8;
use crate::compiler_identity::directories_bytes;
use crate::compiler_identity::directory_marks;
use crate::compiler_identity::directory_unchanged;
use crate::compiler_identity::file_marks;
use crate::compiler_identity::file_unchanged;
use crate::compiler_identity::files_bytes;
use crate::compiler_identity::is_codegen_backend;
use crate::compiler_identity::is_runtime_library;
use crate::compiler_identity::is_runtime_name;
use crate::compiler_identity::is_runtime_path;
use crate::compiler_identity::names_runtime_library;
use crate::compiler_identity::push_time;
use crate::compiler_identity::time_bytes;
use crate::compiler_identity::ArtifactCacheDirectoryWitness;
use crate::compiler_identity::ArtifactCacheFileWitness;
use crate::compiler_identity::ArtifactCacheIdentityWitness;
use crate::compiler_identity::DirectoryMark;
use crate::compiler_identity::FileMark;
use crate::digest::blake3_digest;
use crate::digest::blake3_of;
use crate::digest::lossy_text;
use crate::digest::text_from_utf8_lossy;
use crate::disk::Content;
use crate::disk::Directory;
use crate::disk::Disk;
use crate::disk::Entry;
use crate::disk::FileKind;
use crate::disk::Lookup;
use crate::disk::Metadata;
use crate::ordering::lemma_sorted_keys;
use crate::ordering::order_of;
use crate::ordering::sort;
use crate::ordering::sorted;
use crate::ordering::Ranked;
use crate::unix_path::byte_strings;
use crate::unix_path::components;
use crate::unix_path::join_path;
use crate::unix_path::joined;
use crate::unix_path::parent;
use crate::unix_path::path_before;
use crate::unix_path::path_below;
use crate::unix_path::path_less;
use crate::unix_path::path_parent;
use crate::unix_path::paths_equal;
use crate::unix_path::same_path;
use crate::unix_path::strip_path_prefix;

verus! {

/// A file of the installation: path, metadata and contents.
pub struct ModeledFile {
    pub path: Vec<u8>,
    pub metadata: Metadata,
    pub contents: Vec<u8>,
}

/// What a file of the installation is.
pub type FileItem = (Seq<u8>, Metadata, Seq<u8>);

impl ModeledFile {
    /// What the file is.
    pub open spec fn item(self) -> FileItem {
        (self.path@, self.metadata, self.contents@)
    }
}

impl Ranked for ModeledFile {
    open spec fn precedes(self, other: Self) -> bool {
        path_less(self.path@, other.path@)
    }

    fn comes_before(&self, other: &Self) -> (before: bool) {
        path_before(self.path.as_slice(), other.path.as_slice())
    }
}

/// What files of the installation are.
pub open spec fn items(files: Seq<ModeledFile>) -> Seq<FileItem> {
    files.map_values(|file: ModeledFile| file.item())
}

/// The order of files by path.
pub open spec fn item_order() -> spec_fn(FileItem, FileItem) -> bool {
    |a: FileItem, b: FileItem| path_less(a.0, b.0)
}

/// Sorts files by path.
fn sort_files(files: Vec<ModeledFile>) -> (list: Vec<ModeledFile>)
    ensures
        items(list@) == sorted(items(files@), item_order()),
{
    proof {
        lemma_sorted_keys(
            files@,
            order_of::<ModeledFile>(),
            |file: ModeledFile| file.item(),
            item_order(),
        );
    }
    sort(files)
}

/// The files of a directory, and of those below it where `recursive`, in the
/// order of paths at each level. `None` where something could not be read.
pub open spec fn files_below(directory: Directory, path: Seq<u8>, recursive: bool) -> Option<
    Seq<FileItem>,
>
    decreases directory,
{
    match directory.entries {
        Lookup::Found(entries) => match unsorted_files(
            entries,
            entries@.len() as int,
            path,
            recursive,
        ) {
            Some(files) => Some(sorted(files, item_order())),
            None => None,
        },
        Lookup::Missing => Some(Seq::empty()),
        Lookup::Failed => None,
    }
}

/// The files of the first `count` entries, in the order of the entries.
pub open spec fn unsorted_files(
    entries: Vec<Entry>,
    count: int,
    path: Seq<u8>,
    recursive: bool,
) -> Option<Seq<FileItem>>
    decreases entries, count,
{
    if count <= 0 || count > entries@.len() {
        Some(Seq::empty())
    } else {
        let place = joined(path, entries[count - 1].name@);
        match unsorted_files(entries, count - 1, path, recursive) {
            None => None,
            Some(files) => match entries[count - 1].content {
                Content::Unreadable => None,
                Content::File(file) => Some(files.push((place, file.metadata, file.contents@))),
                Content::Other => Some(files),
                Content::Directory(inner) => if recursive {
                    match files_below(inner, place, true) {
                        Some(more) => Some(files + more),
                        None => None,
                    }
                } else {
                    Some(files)
                },
            },
        }
    }
}

/// Entries that cannot be read up to some point cannot be read whole.
proof fn lemma_unsorted_none(
    entries: Vec<Entry>,
    count: int,
    total: int,
    path: Seq<u8>,
    recursive: bool,
)
    requires
        0 <= count <= total <= entries@.len(),
        unsorted_files(entries, count, path, recursive) is None,
    ensures
        unsorted_files(entries, total, path, recursive) is None,
    decreases total - count,
{
    if count < total {
        lemma_unsorted_none(entries, count, total - 1, path, recursive);
    }
}

/// Moves the files of `more` to the end of `files`.
fn append_files(files: &mut Vec<ModeledFile>, more: Vec<ModeledFile>)
    ensures
        items(final(files)@) == items(old(files)@) + items(more@),
{
    let ghost before = files@;
    let ghost added = more@;
    let mut more = more;
    files.append(&mut more);
    proof {
        assert(items(files@) =~= items(before) + items(added));
    }
}

/// The files of a directory, and of those below it where `recursive`.
pub fn directory_files(directory: &Directory, path: &[u8], recursive: bool) -> (files: Option<
    Vec<ModeledFile>,
>)
    ensures
        match files {
            Some(files) => files_below(*directory, path@, recursive) == Some(items(files@)),
            None => files_below(*directory, path@, recursive) is None,
        },
    decreases directory,
{
    let entries = match &directory.entries {
        Lookup::Found(entries) => entries,
        Lookup::Missing => {
            let none: Vec<ModeledFile> = Vec::new();
            proof {
                assert(items(none@) =~= Seq::empty());
            }
            return Some(none);
        },
        Lookup::Failed => {
            return None;
        },
    };
    let mut files: Vec<ModeledFile> = Vec::new();
    let mut index: usize = 0;
    proof {
        assert(items(files@) =~= Seq::empty());
    }
    while index < entries.len()
        invariant
            index <= entries@.len(),
            directory.entries == Lookup::Found(*entries),
            unsorted_files(*entries, index as int, path@, recursive) == Some(items(files@)),
        decreases entries@.len() - index,
    {
        let entry = &entries[index];
        let place = join_path(path, entry.name.as_slice());
        let ghost before = files@;
        match &entry.content {
            Content::Unreadable => {
                proof {
                    lemma_unsorted_none(
                        *entries,
                        index + 1,
                        entries@.len() as int,
                        path@,
                        recursive,
                    );
                }
                return None;
            },
            Content::File(file) => {
                let modeled = ModeledFile {
                    path: place,
                    metadata: file.metadata,
                    contents: copy_bytes(file.contents.as_slice()),
                };
                files.push(modeled);
                proof {
                    assert(items(files@) =~= items(before).push(
                        (joined(path@, entry.name@), file.metadata, file.contents@),
                    ));
                }
            },
            Content::Other => {},
            Content::Directory(inner) => {
                if recursive {
                    match directory_files(inner, place.as_slice(), true) {
                        Some(more) => {
                            append_files(&mut files, more);
                        },
                        None => {
                            proof {
                                lemma_unsorted_none(
                                    *entries,
                                    index + 1,
                                    entries@.len() as int,
                                    path@,
                                    recursive,
                                );
                            }
                            return None;
                        },
                    }
                }
            },
        }
        index = index + 1;
    }
    Some(sort_files(files))
}

/// A walk for runtime libraries in nested directories: the answer, `None`
/// where something could not be read, and the directories visited.
pub type Walk = (Option<bool>, Seq<Seq<u8>>);

/// Walks a directory that was not visited before.
pub open spec fn walk_directory(
    directory: Directory,
    nested: bool,
    excluded: Option<Seq<char>>,
    visited: Seq<Seq<u8>>,
) -> Walk
    decreases directory,
{
    match directory.canonical {
        Lookup::Missing => (Some(false), visited),
        Lookup::Failed => (None, visited),
        Lookup::Found(canonical) => if visited.contains(canonical@) {
            (Some(false), visited)
        } else {
            match directory.entries {
                Lookup::Missing => (Some(false), visited.push(canonical@)),
                Lookup::Failed => (None, visited.push(canonical@)),
                Lookup::Found(entries) => walk_entries(
                    entries,
                    entries@.len() as int,
                    nested,
                    excluded,
                    visited.push(canonical@),
                ),
            }
        },
    }
}

/// Whether an entry of the outermost directory is left out of the walk.
pub open spec fn is_excluded(nested: bool, excluded: Option<Seq<char>>, name: Seq<u8>) -> bool {
    !nested && excluded is Some && name == utf8(excluded->0)
}

/// Walks the last `left` entries of a directory.
pub open spec fn walk_entries(
    entries: Vec<Entry>,
    left: int,
    nested: bool,
    excluded: Option<Seq<char>>,
    visited: Seq<Seq<u8>>,
) -> Walk
    decreases entries, left,
{
    if left <= 0 || left > entries@.len() {
        (Some(false), visited)
    } else {
        let entry = entries[entries@.len() - left];
        if is_excluded(nested, excluded, entry.name@) {
            walk_entries(entries, left - 1, nested, excluded, visited)
        } else {
            match entry.content {
                Content::Unreadable => (None, visited),
                Content::Directory(inner) => {
                    let below = walk_directory(inner, true, None, visited);
                    if below.0 == Some(false) {
                        walk_entries(entries, left - 1, nested, excluded, below.1)
                    } else {
                        below
                    }
                },
                Content::File(_) => if nested && is_runtime_name(lossy_text(entry.name@)) {
                    (Some(true), visited)
                } else {
                    walk_entries(entries, left - 1, nested, excluded, visited)
                },
                Content::Other => walk_entries(entries, left - 1, nested, excluded, visited),
            }
        }
    }
}

/// The text of an optional name.
pub open spec fn optional_name(name: Option<&str>) -> Option<Seq<char>> {
    match name {
        Some(name) => Some(name@),
        None => None,
    }
}

/// Walks a directory that was not visited before.
fn walk(
    directory: &Directory,
    nested: bool,
    excluded: Option<&str>,
    visited: &mut Vec<Vec<u8>>,
) -> (found: Option<bool>)
    ensures
        (found, byte_strings(final(visited)@)) == walk_directory(
            *directory,
            nested,
            optional_name(excluded),
            byte_strings(old(visited)@),
        ),
    decreases directory,
{
    let canonical = match &directory.canonical {
        Lookup::Missing => {
            return Some(false);
        },
        Lookup::Failed => {
            return None;
        },
        Lookup::Found(canonical) => canonical,
    };
    if list_holds(visited, canonical.as_slice()) {
        return Some(false);
    }
    let ghost before = visited@;
    visited.push(copy_bytes(canonical.as_slice()));
    proof {
        assert(byte_strings(visited@) =~= byte_strings(before).push(canonical@));
    }
    let entries = match &directory.entries {
        Lookup::Missing => {
            return Some(false);
        },
        Lookup::Failed => {
            return None;
        },
        Lookup::Found(entries) => entries,
    };
    let ghost goal = walk_directory(
        *directory,
        nested,
        optional_name(excluded),
        byte_strings(before),
    );
    let mut index: usize = 0;
    while index < entries.len()
        invariant
            index <= entries@.len(),
            directory.entries == Lookup::Found(*entries),
            goal == walk_directory(
                *directory,
                nested,
                optional_name(excluded),
                byte_strings(before),
            ),
            before == old(visited)@,
            goal == walk_entries(
                *entries,
                entries@.len() - index,
                nested,
                optional_name(excluded),
                byte_strings(visited@),
            ),
        decreases entries@.len() - index,
    {
        let entry = &entries[index];
        let skipped = match excluded {
            Some(name) => !nested && bytes_equal(entry.name.as_slice(), name.as_bytes()),
            None => false,
        };
        if !skipped {
            match &entry.content {
                Content::Unreadable => {
                    return None;
                },
                Content::Directory(inner) => {
                    proof {
                        assert(directory.entries->Found_0 == *entries);
                        assert(decreases_to!(*directory => directory.entries->Found_0));
                        assert(decreases_to!(*entries => entries[index as int]));
                        assert(decreases_to!(entries[index as int] => *inner));
                    }
                    match walk(inner, true, None, visited) {
                        Some(false) => {},
                        Some(true) => {
                            return Some(true);
                        },
                        None => {
                            return None;
                        },
                    }
                },
                Content::File(_) => {
                    if nested && names_runtime_library(entry.name.as_slice()) {
                        return Some(true);
                    }
                },
                Content::Other => {},
            }
        }
        index = index + 1;
    }
    Some(false)
}

/// Whether a runtime library stands in a directory below the given one, which
/// is looked into without its entry `excluded`.
pub open spec fn nested_runtime_library(
    directory: Directory,
    excluded: Option<Seq<char>>,
) -> Option<bool> {
    walk_directory(directory, false, excluded, Seq::empty()).0
}

/// Whether a runtime library stands in a directory below the given one.
pub fn has_nested_runtime_library(
    directory: &Directory,
    excluded_root_child: Option<&str>,
) -> (found: Option<bool>)
    ensures
        found == nested_runtime_library(*directory, optional_name(excluded_root_child)),
{
    let mut visited: Vec<Vec<u8>> = Vec::new();
    proof {
        assert(byte_strings(visited@) =~= Seq::empty());
    }
    walk(directory, false, excluded_root_child, &mut visited)
}

/// The directories visited and the marks taken while collecting.
pub type Collected = (Seq<Seq<u8>>, Seq<DirectoryMark>);

/// Collects a directory, and those below it where `recursive`. `None` where
/// something could not be read.
pub open spec fn collect_directory(
    directory: Directory,
    path: Seq<u8>,
    recursive: bool,
    state: Collected,
) -> Option<Collected>
    decreases directory,
{
    match directory.metadata {
        Lookup::Missing => Some(state),
        Lookup::Failed => None,
        Lookup::Found(metadata) => match (directory.canonical, metadata.modified) {
            (Lookup::Found(canonical), _) if metadata.kind == FileKind::Directory
                && state.0.contains(canonical@) => Some(state),
            (Lookup::Found(canonical), Some(modified)) if metadata.kind == FileKind::Directory => {
                let next = (
                    state.0.push(canonical@),
                    state.1.push((path, modified, metadata.device, metadata.inode)),
                );
                if recursive {
                    match directory.entries {
                        Lookup::Found(entries) => collect_entries(
                            entries,
                            entries@.len() as int,
                            path,
                            next,
                        ),
                        _ => None,
                    }
                } else {
                    Some(next)
                }
            },
            _ => None,
        },
    }
}

/// Collects the directories among the last `left` entries.
pub open spec fn collect_entries(
    entries: Vec<Entry>,
    left: int,
    path: Seq<u8>,
    state: Collected,
) -> Option<Collected>
    decreases entries, left,
{
    if left <= 0 || left > entries@.len() {
        Some(state)
    } else {
        let entry = entries[entries@.len() - left];
        match entry.content {
            Content::Unreadable => None,
            Content::Directory(inner) => match collect_directory(
                inner,
                joined(path, entry.name@),
                true,
                state,
            ) {
                Some(next) => collect_entries(entries, left - 1, path, next),
                None => None,
            },
            _ => collect_entries(entries, left - 1, path, state),
        }
    }
}

/// Collects a directory into `visited` and `list`.
fn collect_directories(
    directory: &Directory,
    path: &[u8],
    recursive: bool,
    visited: &mut Vec<Vec<u8>>,
    list: &mut Vec<ArtifactCacheDirectoryWitness>,
) -> (collected: bool)
    ensures
        match collect_directory(
            *directory,
            path@,
            recursive,
            (byte_strings(old(visited)@), directory_marks(old(list)@)),
        ) {
            Some(state) => collected && byte_strings(final(visited)@) == state.0
                && directory_marks(final(list)@) == state.1,
            None => !collected,
        },
    decreases directory,
{
    let metadata = match &directory.metadata {
        Lookup::Missing => {
            return true;
        },
        Lookup::Failed => {
            return false;
        },
        Lookup::Found(metadata) => *metadata,
    };
    if metadata.kind != FileKind::Directory {
        return false;
    }
    let canonical = match &directory.canonical {
        Lookup::Found(canonical) => canonical,
        _ => {
            return false;
        },
    };
    if list_holds(visited, canonical.as_slice()) {
        return true;
    }
    let modified = match metadata.modified {
        Some(modified) => modified,
        None => {
            return false;
        },
    };
    let ghost old_visited = visited@;
    let ghost old_list = list@;
    visited.push(copy_bytes(canonical.as_slice()));
    list.push(
        ArtifactCacheDirectoryWitness {
            path: copy_bytes(path),
            modified,
            device: metadata.device,
            inode: metadata.inode,
        },
    );
    proof {
        assert(byte_strings(visited@) =~= byte_strings(old_visited).push(canonical@));
        assert(directory_marks(list@) =~= directory_marks(old_list).push(
            (path@, modified, metadata.device, metadata.inode),
        ));
    }
    if !recursive {
        return true;
    }
    let entries = match &directory.entries {
        Lookup::Found(entries) => entries,
        _ => {
            return false;
        },
    };
    let ghost goal = collect_directory(
        *directory,
        path@,
        recursive,
        (byte_strings(old_visited), directory_marks(old_list)),
    );
    let mut index: usize = 0;
    while index < entries.len()
        invariant
            index <= entries@.len(),
            directory.entries == Lookup::Found(*entries),
            old_visited == old(visited)@,
            old_list == old(list)@,
            goal == collect_directory(
                *directory,
                path@,
                recursive,
                (byte_strings(old_visited), directory_marks(old_list)),
            ),
            goal == collect_entries(
                *entries,
                entries@.len() - index,
                path@,
                (byte_strings(visited@), directory_marks(list@)),
            ),
        decreases entries@.len() - index,
    {
        let entry = &entries[index];
        match &entry.content {
            Content::Unreadable => {
                return false;
            },
            Content::Directory(inner) => {
                let place = join_path(path, entry.name.as_slice());
                proof {
                    assert(directory.entries->Found_0 == *entries);
                    assert(decreases_to!(*directory => directory.entries->Found_0));
                    assert(decreases_to!(*entries => entries[index as int]));
                    assert(decreases_to!(entries[index as int] => *inner));
                }
                if !collect_directories(inner, place.as_slice(), true, visited, list) {
                    return false;
                }
            },
            _ => {},
        }
        index = index + 1;
    }
    true
}

impl Ranked for ArtifactCacheDirectoryWitness {
    open spec fn precedes(self, other: Self) -> bool {
        path_less(self.path@, other.path@)
    }

    fn comes_before(&self, other: &Self) -> (before: bool) {
        path_before(self.path.as_slice(), other.path.as_slice())
    }
}

impl Ranked for ArtifactCacheFileWitness {
    open spec fn precedes(self, other: Self) -> bool {
        path_less(self.path@, other.path@)
    }

    fn comes_before(&self, other: &Self) -> (before: bool) {
        path_before(self.path.as_slice(), other.path.as_slice())
    }
}

/// The order of directory marks by path.
pub open spec fn directory_order() -> spec_fn(DirectoryMark, DirectoryMark) -> bool {
    |a: DirectoryMark, b: DirectoryMark| path_less(a.0, b.0)
}

/// The order of file marks by path.
pub open spec fn file_order() -> spec_fn(FileMark, FileMark) -> bool {
    |a: FileMark, b: FileMark| path_less(a.0, b.0)
}

/// The directories of an installation: `lib` and all below it, and `bin`.
pub open spec fn sysroot_directories(
    lib: Directory,
    bin: Directory,
    sysroot: Seq<u8>,
) -> Option<Seq<DirectoryMark>> {
    match collect_directory(
        lib,
        joined(sysroot, utf8("lib"@)),
        true,
        (Seq::empty(), Seq::empty()),
    ) {
        None => None,
        Some(state) => match collect_directory(
            bin,
            joined(sysroot, utf8("bin"@)),
            false,
            state,
        ) {
            None => None,
            Some(state) => Some(sorted(state.1, directory_order())),
        },
    }
}

/// The directories of an installation.
pub fn artifact_cache_identity_witness_for_sysroot(
    lib: &Directory,
    bin: &Directory,
    sysroot: &[u8],
) -> (list: Option<Vec<ArtifactCacheDirectoryWitness>>)
    ensures
        match list {
            Some(list) => sysroot_directories(*lib, *bin, sysroot@) == Some(
                directory_marks(list@),
            ),
            None => sysroot_directories(*lib, *bin, sysroot@) is None,
        },
{
    let mut visited: Vec<Vec<u8>> = Vec::new();
    let mut list: Vec<ArtifactCacheDirectoryWitness> = Vec::new();
    proof {
        assert(byte_strings(visited@) =~= Seq::empty());
        assert(directory_marks(list@) =~= Seq::empty());
    }
    let lib_path = join_path(sysroot, "lib".as_bytes());
    let bin_path = join_path(sysroot, "bin".as_bytes());
    if !collect_directories(lib, lib_path.as_slice(), true, &mut visited, &mut list) {
        return None;
    }
    if !collect_directories(bin, bin_path.as_slice(), false, &mut visited, &mut list) {
        return None;
    }
    proof {
        lemma_sorted_keys(
            list@,
            order_of::<ArtifactCacheDirectoryWitness>(),
            |witness: ArtifactCacheDirectoryWitness| witness.mark(),
            directory_order(),
        );
    }
    Some(sort(list))
}

/// The libraries of one target of an installation.
pub struct TargetLibraries {
    pub name: Vec<u8>,
    pub content: TargetContent,
}

/// What stands under the name of a target.
pub enum TargetContent {
    Unreadable,
    NotDirectory,
    Directory { lib: Directory, backends: Directory },
}

/// A compiler installation as it was found: the program, the directories
/// before and after its files were read, the targets below `lib/rustlib`, and
/// the disk once all was read.
pub struct Installation {
    pub program: Vec<u8>,
    pub program_metadata: Lookup<Metadata>,
    pub program_contents: Option<Vec<u8>>,
    pub lib: Directory,
    pub bin: Directory,
    pub targets: Lookup<Vec<TargetLibraries>>,
    pub lib_after: Directory,
    pub bin_after: Directory,
    pub disk: Disk,
}

/// The files whose path is that of a runtime library.
pub open spec fn runtime_files(files: Seq<FileItem>) -> Seq<FileItem>
    decreases files.len(),
{
    if files.len() == 0 {
        files
    } else if is_runtime_path(files.last().0) {
        runtime_files(files.drop_last()).push(files.last())
    } else {
        runtime_files(files.drop_last())
    }
}

/// The files of the first `count` targets. `None` where something could not
/// be read, or where, on Linux, a runtime library is nested.
pub open spec fn target_files(
    targets: Seq<TargetLibraries>,
    count: int,
    rustlib: Seq<u8>,
    linux: bool,
) -> Option<Seq<FileItem>>
    decreases count,
{
    if count <= 0 || count > targets.len() {
        Some(Seq::empty())
    } else {
        let place = joined(rustlib, targets[count - 1].name@);
        match (target_files(targets, count - 1, rustlib, linux), targets[count - 1].content) {
            (None, _) => None,
            (_, TargetContent::Unreadable) => None,
            (Some(files), TargetContent::NotDirectory) => Some(files),
            (Some(files), TargetContent::Directory { lib, backends }) => if linux
                && nested_runtime_library(lib, None) != Some(false) {
                None
            } else {
                match (files_below(lib, joined(place, utf8("lib"@)), true), files_below(
                    backends,
                    joined(place, utf8("codegen-backends"@)),
                    true,
                )) {
                    (Some(libraries), Some(plugins)) => Some(files + libraries + plugins),
                    _ => None,
                }
            },
        }
    }
}

/// The files of an installation in the order they were found.
pub open spec fn found_files(installation: Installation, sysroot: Seq<u8>, linux: bool) -> Option<
    Seq<FileItem>,
> {
    let lib = joined(sysroot, utf8("lib"@));
    if linux && nested_runtime_library(installation.lib, Some("rustlib"@)) != Some(false) {
        None
    } else {
        match (files_below(installation.lib, lib, false), files_below(
            installation.bin,
            joined(sysroot, utf8("bin"@)),
            false,
        ), installation.targets) {
            (Some(libraries), Some(programs), Lookup::Found(targets)) => match target_files(
                targets@,
                targets@.len() as int,
                joined(lib, utf8("rustlib"@)),
                linux,
            ) {
                Some(files) => Some(libraries + runtime_files(programs) + files),
                None => None,
            },
            _ => None,
        }
    }
}

/// Files in order without the repetition of a path.
pub open spec fn deduplicated(files: Seq<FileItem>) -> Seq<FileItem>
    decreases files.len(),
{
    if files.len() == 0 {
        files
    } else {
        let kept = deduplicated(files.drop_last());
        if kept.len() > 0 && same_path(kept.last().0, files.last().0) {
            kept
        } else {
            kept.push(files.last())
        }
    }
}

/// The mark of a file with a known modification time.
pub open spec fn mark_of(path: Seq<u8>, metadata: Metadata) -> Option<FileMark> {
    if metadata.kind == FileKind::File && metadata.modified is Some {
        Some((path, metadata.len, metadata.modified->0, metadata.device, metadata.inode))
    } else {
        None
    }
}

/// The marks of files, where each has one.
pub open spec fn marks_of(files: Seq<FileItem>) -> Option<Seq<FileMark>>
    decreases files.len(),
{
    if files.len() == 0 {
        Some(Seq::empty())
    } else {
        match (marks_of(files.drop_last()), mark_of(files.last().0, files.last().1)) {
            (Some(marks), Some(mark)) => Some(marks.push(mark)),
            _ => None,
        }
    }
}

/// What the digest says of an installed file: where it stands, how long it is,
/// when it was modified, and what it holds where it is a codegen backend.
pub open spec fn input_bytes(file: FileItem, sysroot: Seq<u8>) -> Option<Seq<u8>> {
    match (file.1.modified, path_below(file.0, sysroot)) {
        (Some(modified), Some(relative)) => match time_bytes(modified) {
            Some(time) => {
                let named = utf8("\0sysroot-input\0"@) + utf8(lossy_text(relative)) + utf8("\0"@)
                    + spec_u64_to_le_bytes(file.1.len) + time;
                if components(file.0).contains(utf8("codegen-backends"@)) {
                    Some(named + utf8("\0sysroot-codegen-backend-content\0"@) + file.2)
                } else {
                    Some(named)
                }
            },
            None => None,
        },
        _ => None,
    }
}

/// What the digest says of installed files, in order.
pub open spec fn inputs_bytes(files: Seq<FileItem>, sysroot: Seq<u8>) -> Option<Seq<u8>>
    decreases files.len(),
{
    if files.len() == 0 {
        Some(Seq::empty())
    } else {
        match (inputs_bytes(files.drop_last(), sysroot), input_bytes(files.last(), sysroot)) {
            (Some(before), Some(last)) => Some(before + last),
            _ => None,
        }
    }
}

/// Whether all directories and files are on disk as they were.
pub open spec fn all_unchanged(
    directories: Seq<DirectoryMark>,
    files: Seq<FileMark>,
    disk: Disk,
) -> bool {
    &&& forall|i: int|
        0 <= i < directories.len() ==> directory_unchanged(#[trigger] directories[i], disk)
    &&& forall|i: int| 0 <= i < files.len() ==> file_unchanged(#[trigger] files[i], disk)
}

/// What is hashed for an installation, and the marks of its witness. `None`
/// where something could not be read, changed while it was read, or cannot be
/// covered.
pub open spec fn identity_parts(installation: Installation, linux: bool) -> Option<
    (Seq<u8>, Seq<DirectoryMark>, Seq<FileMark>),
> {
    let program = installation.program@;
    match parent(program) {
        None => None,
        Some(above) => match parent(above) {
            None => None,
            Some(sysroot) => match (
                sysroot_directories(installation.lib, installation.bin, sysroot),
                sysroot_directories(installation.lib_after, installation.bin_after, sysroot),
                installation.program_metadata,
                installation.program_contents,
                found_files(installation, sysroot, linux),
            ) {
                (
                    Some(before),
                    Some(after),
                    Lookup::Found(metadata),
                    Some(contents),
                    Some(found),
                ) => {
                    let files = deduplicated(sorted(found, item_order()));
                    match (
                        mark_of(program, metadata),
                        marks_of(files),
                        inputs_bytes(files, sysroot),
                    ) {
                        (Some(own), Some(marks), Some(inputs)) => {
                            let witnesses = sorted(seq![own] + marks, file_order());
                            match (directories_bytes(after, sysroot), files_bytes(
                                witnesses,
                                sysroot,
                            )) {
                                (Some(directory_part), Some(file_part)) => if before == after
                                    && all_unchanged(after, witnesses, installation.disk) {
                                    Some(
                                        (
                                            utf8(lossy_text(program)) + utf8("\0"@) + contents@
                                                + inputs + directory_part + file_part,
                                            after,
                                            witnesses,
                                        ),
                                    )
                                } else {
                                    None
                                },
                                _ => None,
                            }
                        },
                        _ => None,
                    }
                },
                _ => None,
            },
        },
    }
}

/// The identity of a compiler: a digest, and what it was made of.
pub struct ArtifactCacheIdentity {
    pub digest: [u8; 32],
    pub witness: ArtifactCacheIdentityWitness,
}

/// Keeps the files whose path is that of a runtime library.
fn keep_runtime_files(files: Vec<ModeledFile>) -> (kept: Vec<ModeledFile>)
    ensures
        items(kept@) == runtime_files(items(files@)),
{
    let ghost all = items(files@);
    let mut kept: Vec<ModeledFile> = Vec::new();
    let mut index: usize = 0;
    proof {
        assert(all.take(0) =~= Seq::empty());
        assert(items(kept@) =~= runtime_files(all.take(0)));
    }
    while index < files.len()
        invariant
            index <= files@.len(),
            all == items(files@),
            items(kept@) == runtime_files(all.take(index as int)),
        decreases files@.len() - index,
    {
        let ghost before = kept@;
        let file = &files[index];
        proof {
            assert(all.take(index + 1).drop_last() =~= all.take(index as int));
            assert(all.take(index + 1).last() == file.item());
        }
        if is_runtime_library(file.path.as_slice()) {
            kept.push(
                ModeledFile {
                    path: copy_bytes(file.path.as_slice()),
                    metadata: file.metadata,
                    contents: copy_bytes(file.contents.as_slice()),
                },
            );
            proof {
                assert(items(kept@) =~= items(before).push(file.item()));
            }
        }
        index = index + 1;
    }
    proof {
        assert(all.take(index as int) =~= all);
    }
    kept
}

/// Drops the repetition of a path from files in order.
fn dedup_files(files: Vec<ModeledFile>) -> (kept: Vec<ModeledFile>)
    ensures
        items(kept@) == deduplicated(items(files@)),
{
    let ghost all = items(files@);
    let mut kept: Vec<ModeledFile> = Vec::new();
    let mut index: usize = 0;
    proof {
        assert(all.take(0) =~= Seq::empty());
        assert(items(kept@) =~= deduplicated(all.take(0)));
    }
    while index < files.len()
        invariant
            index <= files@.len(),
            all == items(files@),
            items(kept@) == deduplicated(all.take(index as int)),
        decreases files@.len() - index,
    {
        let ghost before = kept@;
        let file = &files[index];
        proof {
            assert(all.take(index + 1).drop_last() =~= all.take(index as int));
            assert(all.take(index + 1).last() == file.item());
            assert(items(kept@).len() == kept@.len());
            if kept@.len() > 0 {
                assert(items(kept@).last() == kept@.last().item());
            }
        }
        if kept.len() == 0 || !paths_equal(
            kept[kept.len() - 1].path.as_slice(),
            file.path.as_slice(),
        ) {
            kept.push(
                ModeledFile {
                    path: copy_bytes(file.path.as_slice()),
                    metadata: file.metadata,
                    contents: copy_bytes(file.contents.as_slice()),
                },
            );
            proof {
                assert(items(kept@) =~= items(before).push(file.item()));
            }
        }
        index = index + 1;
    }
    proof {
        assert(all.take(index as int) =~= all);
    }
    kept
}

/// Targets that cannot be read up to some point cannot be read whole.
proof fn lemma_target_files_none(
    targets: Seq<TargetLibraries>,
    count: int,
    total: int,
    rustlib: Seq<u8>,
    linux: bool,
)
    requires
        0 <= count <= total <= targets.len(),
        target_files(targets, count, rustlib, linux) is None,
    ensures
        target_files(targets, total, rustlib, linux) is None,
    decreases total - count,
{
    if count < total {
        lemma_target_files_none(targets, count, total - 1, rustlib, linux);
    }
}

/// The files of all targets.
fn read_target_files(targets: &Vec<TargetLibraries>, rustlib: &[u8], linux: bool) -> (files: Option<
    Vec<ModeledFile>,
>)
    ensures
        match files {
            Some(files) => target_files(targets@, targets@.len() as int, rustlib@, linux) == Some(
                items(files@),
            ),
            None => target_files(targets@, targets@.len() as int, rustlib@, linux) is None,
        },
{
    let mut files: Vec<ModeledFile> = Vec::new();
    let mut index: usize = 0;
    proof {
        assert(items(files@) =~= Seq::empty());
    }
    while index < targets.len()
        invariant
            index <= targets@.len(),
            target_files(targets@, index as int, rustlib@, linux) == Some(items(files@)),
        decreases targets@.len() - index,
    {
        let target = &targets[index];
        let mut readable = true;
        match &target.content {
            TargetContent::Unreadable => {
                readable = false;
            },
            TargetContent::NotDirectory => {},
            TargetContent::Directory { lib, backends } => {
                let place = join_path(rustlib, target.name.as_slice());
                let nested = if linux {
                    match has_nested_runtime_library(lib, None) {
                        Some(found) => found,
                        None => true,
                    }
                } else {
                    false
                };
                let lib_path = join_path(place.as_slice(), "lib".as_bytes());
                let backend_path = join_path(place.as_slice(), "codegen-backends".as_bytes());
                if nested {
                    readable = false;
                } else {
                    match (directory_files(lib, lib_path.as_slice(), true), directory_files(
                        backends,
                        backend_path.as_slice(),
                        true,
                    )) {
                        (Some(libraries), Some(plugins)) => {
                            append_files(&mut files, libraries);
                            append_files(&mut files, plugins);
                        },
                        _ => {
                            readable = false;
                        },
                    }
                }
            },
        }
        if !readable {
            proof {
                lemma_target_files_none(
                    targets@,
                    index + 1,
                    targets@.len() as int,
                    rustlib@,
                    linux,
                );
            }
            return None;
        }
        index = index + 1;
    }
    Some(files)
}

/// The files of an installation in the order they were found.
fn find_files(installation: &Installation, sysroot: &[u8], linux: bool) -> (files: Option<
    Vec<ModeledFile>,
>)
    ensures
        match files {
            Some(files) => found_files(*installation, sysroot@, linux) == Some(items(files@)),
            None => found_files(*installation, sysroot@, linux) is None,
        },
{
    let lib = join_path(sysroot, "lib".as_bytes());
    if linux {
        match has_nested_runtime_library(&installation.lib, Some("rustlib")) {
            Some(false) => {},
            _ => {
                return None;
            },
        }
    }
    let mut files = match directory_files(&installation.lib, lib.as_slice(), false) {
        Some(files) => files,
        None => {
            return None;
        },
    };
    let bin = join_path(sysroot, "bin".as_bytes());
    let programs = match directory_files(&installation.bin, bin.as_slice(), false) {
        Some(programs) => programs,
        None => {
            return None;
        },
    };
    let targets = match &installation.targets {
        Lookup::Found(targets) => targets,
        _ => {
            return None;
        },
    };
    let rustlib = join_path(lib.as_slice(), "rustlib".as_bytes());
    append_files(&mut files, keep_runtime_files(programs));
    match read_target_files(targets, rustlib.as_slice(), linux) {
        Some(more) => {
            append_files(&mut files, more);
            Some(files)
        },
        None => None,
    }
}

/// Appends what the digest says of one installed file.
fn push_input(out: &mut Vec<u8>, file: &ModeledFile, sysroot: &[u8]) -> (pushed: bool)
    ensures
        pushed == (input_bytes(file.item(), sysroot@) is Some),
        pushed ==> final(out)@ == old(out)@ + input_bytes(file.item(), sysroot@)->0,
{
    let ghost before = out@;
    let modified = match file.metadata.modified {
        Some(modified) => modified,
        None => {
            return false;
        },
    };
    let relative = match strip_path_prefix(file.path.as_slice(), sysroot) {
        Some(relative) => relative,
        None => {
            return false;
        },
    };
    push_text(out, "\0sysroot-input\0");
    push_text(out, text_from_utf8_lossy(relative.as_slice()).as_str());
    push_text(out, "\0");
    let len = u64_to_le_bytes(file.metadata.len);
    push_bytes(out, len.as_slice());
    if !push_time(out, modified) {
        return false;
    }
    if is_codegen_backend(file.path.as_slice()) {
        push_text(out, "\0sysroot-codegen-backend-content\0");
        push_bytes(out, file.contents.as_slice());
    }
    proof {
        assert(out@ =~= before + input_bytes(file.item(), sysroot@)->0);
    }
    true
}

/// Files that cannot be rendered up to some point cannot be rendered whole.
proof fn lemma_inputs_none(files: Seq<FileItem>, count: int, sysroot: Seq<u8>)
    requires
        0 <= count <= files.len(),
        inputs_bytes(files.take(count), sysroot) is None || marks_of(files.take(count)) is None,
    ensures
        inputs_bytes(files, sysroot) is None || marks_of(files) is None,
    decreases files.len() - count,
{
    if count < files.len() {
        assert(files.take(count + 1).drop_last() =~= files.take(count));
        lemma_inputs_none(files, count + 1, sysroot);
    } else {
        assert(files.take(count) =~= files);
    }
}

/// Appends what the digest says of installed files, and witnesses them.
fn push_inputs(
    out: &mut Vec<u8>,
    witnesses: &mut Vec<ArtifactCacheFileWitness>,
    files: &Vec<ModeledFile>,
    sysroot: &[u8],
) -> (pushed: bool)
    ensures
        pushed == (inputs_bytes(items(files@), sysroot@) is Some && marks_of(items(files@)) is Some),
        pushed ==> final(out)@ == old(out)@ + inputs_bytes(items(files@), sysroot@)->0,
        pushed ==> file_marks(final(witnesses)@) == file_marks(old(witnesses)@) + marks_of(
            items(files@),
        )->0,
{
    let ghost start = out@;
    let ghost first = file_marks(witnesses@);
    let ghost all = items(files@);
    let mut index: usize = 0;
    proof {
        assert(all.take(0) =~= Seq::empty());
        assert(start + Seq::<u8>::empty() =~= start);
        assert(first + Seq::<FileMark>::empty() =~= first);
    }
    while index < files.len()
        invariant
            index <= files@.len(),
            all == items(files@),
            inputs_bytes(all.take(index as int), sysroot@) is Some,
            marks_of(all.take(index as int)) is Some,
            out@ == start + inputs_bytes(all.take(index as int), sysroot@)->0,
            file_marks(witnesses@) == first + marks_of(all.take(index as int))->0,
        decreases files@.len() - index,
    {
        let file = &files[index];
        let ghost before = out@;
        let ghost listed = witnesses@;
        proof {
            assert(all.take(index + 1).drop_last() =~= all.take(index as int));
            assert(all.take(index + 1).last() == file.item());
        }
        match ArtifactCacheFileWitness::from_metadata(file.path.as_slice(), &file.metadata) {
            Some(witness) => {
                proof {
                    assert(file_marks(listed.push(witness)) =~= file_marks(listed).push(
                        witness.mark(),
                    ));
                    assert(first + marks_of(all.take(index as int))->0.push(witness.mark()) =~= (
                    first + marks_of(all.take(index as int))->0).push(witness.mark()));
                }
                witnesses.push(witness);
            },
            None => {
                proof {
                    lemma_inputs_none(all, index + 1, sysroot@);
                }
                return false;
            },
        }
        if !push_input(out, file, sysroot) {
            proof {
                lemma_inputs_none(all, index + 1, sysroot@);
            }
            return false;
        }
        proof {
            assert(out@ =~= start + (inputs_bytes(all.take(index as int), sysroot@)->0
                + input_bytes(file.item(), sysroot@)->0));
        }
        index = index + 1;
    }
    proof {
        assert(all.take(index as int) =~= all);
    }
    true
}

/// Whether two lists of directory witnesses hold the same.
fn directories_agree(
    left: &Vec<ArtifactCacheDirectoryWitness>,
    right: &Vec<ArtifactCacheDirectoryWitness>,
) -> (same: bool)
    ensures
        same == (directory_marks(left@) == directory_marks(right@)),
{
    proof {
        assert(directory_marks(left@).len() == left@.len());
        assert(directory_marks(right@).len() == right@.len());
    }
    if left.len() != right.len() {
        return false;
    }
    let mut index: usize = 0;
    while index < left.len()
        invariant
            index <= left@.len(),
            left@.len() == right@.len(),
            forall|i: int| 0 <= i < index ==> (#[trigger] left@[i]).mark() == right@[i].mark(),
        decreases left@.len() - index,
    {
        let a = &left[index];
        let b = &right[index];
        if !bytes_equal(a.path.as_slice(), b.path.as_slice()) || a.modified != b.modified
            || a.device != b.device || a.inode != b.inode {
            proof {
                assert(directory_marks(left@)[index as int] == left@[index as int].mark());
                assert(directory_marks(right@)[index as int] == right@[index as int].mark());
            }
            return false;
        }
        index = index + 1;
    }
    proof {
        assert(directory_marks(left@) =~= directory_marks(right@));
    }
    true
}

/// The identity of the compiler at the program of an installation.
#[verifier::rlimit(40)]
pub fn artifact_cache_identity_for_program(installation: &Installation, linux: bool) -> (identity:
    Option<ArtifactCacheIdentity>)
    ensures
        match (identity, identity_parts(*installation, linux)) {
            (Some(identity), Some(parts)) => identity.digest@ == blake3_digest(parts.0)
                && directory_marks(identity.witness.directories@) == parts.1 && file_marks(
                identity.witness.files@,
            ) == parts.2,
            (None, None) => true,
            _ => false,
        },
{
    let program = installation.program.as_slice();
    let above = match path_parent(program) {
        Some(above) => above,
        None => {
            return None;
        },
    };
    let sysroot = match path_parent(above.as_slice()) {
        Some(sysroot) => sysroot,
        None => {
            return None;
        },
    };
    let before = match artifact_cache_identity_witness_for_sysroot(
        &installation.lib,
        &installation.bin,
        sysroot.as_slice(),
    ) {
        Some(before) => before,
        None => {
            return None;
        },
    };
    let metadata = match &installation.program_metadata {
        Lookup::Found(metadata) => *metadata,
        _ => {
            return None;
        },
    };
    let own = match ArtifactCacheFileWitness::from_metadata(program, &metadata) {
        Some(own) => own,
        None => {
            return None;
        },
    };
    let contents = match &installation.program_contents {
        Some(contents) => contents,
        None => {
            return None;
        },
    };
    let files = match find_files(installation, sysroot.as_slice(), linux) {
        Some(files) => dedup_files(sort_files(files)),
        None => {
            return None;
        },
    };
    let mut hashed: Vec<u8> = Vec::new();
    push_text(&mut hashed, text_from_utf8_lossy(program).as_str());
    push_text(&mut hashed, "\0");
    push_bytes(&mut hashed, contents.as_slice());
    let mut witnesses: Vec<ArtifactCacheFileWitness> = Vec::new();
    let ghost own_mark = own.mark();
    witnesses.push(own);
    proof {
        assert(file_marks(witnesses@) =~= seq![own_mark]);
    }
    if !push_inputs(&mut hashed, &mut witnesses, &files, sysroot.as_slice()) {
        return None;
    }
    let after = match artifact_cache_identity_witness_for_sysroot(
        &installation.lib_after,
        &installation.bin_after,
        sysroot.as_slice(),
    ) {
        Some(after) => after,
        None => {
            return None;
        },
    };
    if !directories_agree(&before, &after) {
        return None;
    }
    proof {
        lemma_sorted_keys(
            witnesses@,
            order_of::<ArtifactCacheFileWitness>(),
            |witness: ArtifactCacheFileWitness| witness.mark(),
            file_order(),
        );
    }
    let witness = ArtifactCacheIdentityWitness { directories: after, files: sort(witnesses) };
    proof {
        let directories = directory_marks(witness.directories@);
        let marks = file_marks(witness.files@);
        assert(directories.len() == witness.directories@.len());
        assert(marks.len() == witness.files@.len());
        if witness.unchanged(installation.disk) {
            assert forall|i: int| 0 <= i < directories.len() implies directory_unchanged(
                #[trigger] directories[i],
                installation.disk,
            ) by {
                assert(directories[i] == witness.directories@[i].mark());
            }
            assert forall|i: int| 0 <= i < marks.len() implies file_unchanged(
                #[trigger] marks[i],
                installation.disk,
            ) by {
                assert(marks[i] == witness.files@[i].mark());
            }
        }
        if all_unchanged(directories, marks, installation.disk) {
            assert forall|i: int| 0 <= i < witness.directories@.len() implies directory_unchanged(
                (#[trigger] witness.directories@[i]).mark(),
                installation.disk,
            ) by {
                assert(directories[i] == witness.directories@[i].mark());
            }
            assert forall|i: int| 0 <= i < witness.files@.len() implies file_unchanged(
                (#[trigger] witness.files@[i]).mark(),
                installation.disk,
            ) by {
                assert(marks[i] == witness.files@[i].mark());
            }
        }
    }
    if !witness.is_current(&installation.disk) {
        return None;
    }
    if witness.update_digest(sysroot.as_slice(), &mut hashed).is_none() {
        return None;
    }
    proof {
        let parts = identity_parts(*installation, linux)->0;
        assert(hashed@ =~= parts.0);
    }
    Some(ArtifactCacheIdentity { digest: blake3_of(hashed.as_slice()), witness })
}

} // verus!
