//! The identity of a compiler: what its installation held when it was read.

use vstd::bytes::spec_u32_to_le_bytes;
use vstd::bytes::spec_u64_to_le_bytes;
use vstd::bytes::u32_to_le_bytes;
use vstd::bytes::u64_to_le_bytes;
use vstd::prelude::*;
use vstd::string::*;

use crate::admission::list_holds;
use crate::bytes::copy_bytes;
use crate::bytes::push_bytes;
use crate::bytes::push_text;
use crate::bytes::utf8;
use crate::digest::lossy_text;
use crate::digest::text_from_utf8_lossy;
use crate::disk::Directory;
use crate::disk::Disk;
use crate::disk::FileKind;
use crate::disk::Lookup;
use crate::disk::Metadata;
use crate::disk::Timestamp;
use crate::text::has_suffix;
use crate::text::has_text;
use crate::text::stands_in;
use crate::unix_path::components;
use crate::unix_path::file_name;
use crate::unix_path::path_below;
use crate::unix_path::path_components;
use crate::unix_path::path_file_name;
use crate::unix_path::paths_equal;
use crate::unix_path::same_path;
use crate::unix_path::strip_path_prefix;

verus! {

/// A directory as it was: path, modification time, device and inode.
pub struct ArtifactCacheDirectoryWitness {
    pub path: Vec<u8>,
    pub modified: Timestamp,
    pub device: u64,
    pub inode: u64,
}

/// A file as it was: path, length, modification time, device and inode.
pub struct ArtifactCacheFileWitness {
    pub path: Vec<u8>,
    pub len: u64,
    pub modified: Timestamp,
    pub device: u64,
    pub inode: u64,
}

/// The directories and files that a compiler identity was made of.
pub struct ArtifactCacheIdentityWitness {
    pub directories: Vec<ArtifactCacheDirectoryWitness>,
    pub files: Vec<ArtifactCacheFileWitness>,
}

/// What a directory witness holds.
pub type DirectoryMark = (Seq<u8>, Timestamp, u64, u64);

/// What a file witness holds.
pub type FileMark = (Seq<u8>, u64, Timestamp, u64, u64);

impl ArtifactCacheDirectoryWitness {
    /// What the witness holds.
    pub open spec fn mark(self) -> DirectoryMark {
        (self.path@, self.modified, self.device, self.inode)
    }
}

impl ArtifactCacheFileWitness {
    /// What the witness holds.
    pub open spec fn mark(self) -> FileMark {
        (self.path@, self.len, self.modified, self.device, self.inode)
    }
}

/// What directory witnesses hold.
pub open spec fn directory_marks(list: Seq<ArtifactCacheDirectoryWitness>) -> Seq<DirectoryMark> {
    list.map_values(|witness: ArtifactCacheDirectoryWitness| witness.mark())
}

/// What file witnesses hold.
pub open spec fn file_marks(list: Seq<ArtifactCacheFileWitness>) -> Seq<FileMark> {
    list.map_values(|witness: ArtifactCacheFileWitness| witness.mark())
}

/// Whether a directory is on disk as it was.
pub open spec fn directory_unchanged(mark: DirectoryMark, disk: Disk) -> bool {
    match disk.followed(mark.0) {
        Lookup::Found(now) => now.kind == FileKind::Directory && now.modified == Some(mark.1)
            && now.device == mark.2 && now.inode == mark.3,
        _ => false,
    }
}

/// Whether a file is on disk as it was.
pub open spec fn file_unchanged(mark: FileMark, disk: Disk) -> bool {
    match disk.followed(mark.0) {
        Lookup::Found(now) => now.kind == FileKind::File && now.len == mark.1 && now.modified
            == Some(mark.2) && now.device == mark.3 && now.inode == mark.4,
        _ => false,
    }
}

/// Whether an optional modification time is `wanted`.
fn modified_is(found: Option<Timestamp>, wanted: Timestamp) -> (same: bool)
    ensures
        same == (found == Some(wanted)),
{
    match found {
        Some(found) => found == wanted,
        None => false,
    }
}

impl ArtifactCacheDirectoryWitness {
    /// Whether the directory is on disk as it was.
    pub fn is_current(&self, disk: &Disk) -> (current: bool)
        ensures
            current == directory_unchanged(self.mark(), *disk),
    {
        match disk.metadata(self.path.as_slice()) {
            Lookup::Found(now) => now.kind == FileKind::Directory && modified_is(
                now.modified,
                self.modified,
            ) && now.device == self.device && now.inode == self.inode,
            _ => false,
        }
    }
}

impl ArtifactCacheFileWitness {
    /// The witness of a regular file with a known modification time.
    pub fn from_metadata(path: &[u8], metadata: &Metadata) -> (witness: Option<Self>)
        ensures
            match witness {
                Some(witness) => metadata.kind == FileKind::File && metadata.modified is Some
                    && witness.mark() == (
                    path@,
                    metadata.len,
                    metadata.modified->0,
                    metadata.device,
                    metadata.inode,
                ),
                None => !(metadata.kind == FileKind::File && metadata.modified is Some),
            },
    {
        if metadata.kind != FileKind::File {
            return None;
        }
        match metadata.modified {
            Some(modified) => Some(
                ArtifactCacheFileWitness {
                    path: copy_bytes(path),
                    len: metadata.len,
                    modified,
                    device: metadata.device,
                    inode: metadata.inode,
                },
            ),
            None => None,
        }
    }

    /// Whether the file is on disk as it was.
    pub fn is_current(&self, disk: &Disk) -> (current: bool)
        ensures
            current == file_unchanged(self.mark(), *disk),
    {
        match disk.metadata(self.path.as_slice()) {
            Lookup::Found(now) => now.kind == FileKind::File && now.len == self.len && modified_is(
                now.modified,
                self.modified,
            ) && now.device == self.device && now.inode == self.inode,
            _ => false,
        }
    }
}

impl ArtifactCacheIdentityWitness {
    /// Whether every directory and file is on disk as it was.
    pub open spec fn unchanged(&self, disk: Disk) -> bool {
        &&& forall|i: int|
            0 <= i < self.directories@.len() ==> directory_unchanged(
                (#[trigger] self.directories@[i]).mark(),
                disk,
            )
        &&& forall|i: int|
            0 <= i < self.files@.len() ==> file_unchanged((#[trigger] self.files@[i]).mark(), disk)
    }

    /// Whether every directory and file is on disk as it was.
    pub fn is_current(&self, disk: &Disk) -> (current: bool)
        ensures
            current == self.unchanged(*disk),
    {
        let mut index: usize = 0;
        while index < self.directories.len()
            invariant
                index <= self.directories@.len(),
                forall|i: int|
                    0 <= i < index ==> directory_unchanged(
                        (#[trigger] self.directories@[i]).mark(),
                        *disk,
                    ),
            decreases self.directories@.len() - index,
        {
            if !self.directories[index].is_current(disk) {
                return false;
            }
            index = index + 1;
        }
        let mut at: usize = 0;
        while at < self.files.len()
            invariant
                at <= self.files@.len(),
                forall|i: int|
                    0 <= i < self.directories@.len() ==> directory_unchanged(
                        (#[trigger] self.directories@[i]).mark(),
                        *disk,
                    ),
                forall|i: int|
                    0 <= i < at ==> file_unchanged((#[trigger] self.files@[i]).mark(), *disk),
            decreases self.files@.len() - at,
        {
            if !self.files[at].is_current(disk) {
                return false;
            }
            at = at + 1;
        }
        true
    }

    /// Whether the witness holds the file at `path`.
    pub fn contains_file(&self, path: &[u8]) -> (found: bool)
        ensures
            found == self.holds_file(path@),
    {
        let mut index: usize = 0;
        while index < self.files.len()
            invariant
                index <= self.files@.len(),
                forall|i: int|
                    0 <= i < index ==> !same_path((#[trigger] self.files@[i]).path@, path@),
            decreases self.files@.len() - index,
        {
            if paths_equal(self.files[index].path.as_slice(), path) {
                return true;
            }
            index = index + 1;
        }
        false
    }

    /// Whether the witness holds the file at `path`.
    pub open spec fn holds_file(&self, path: Seq<u8>) -> bool {
        exists|i: int|
            0 <= i < self.files@.len() && same_path((#[trigger] self.files@[i]).path@, path)
    }

    /// Whether the witness holds a directory whose canonical form is `path`.
    pub open spec fn holds_directory(&self, path: Seq<u8>, disk: Disk) -> bool {
        exists|i: int|
            0 <= i < self.directories@.len() && resolves_to(
                (#[trigger] self.directories@[i]).path@,
                path,
                disk,
            )
    }

    /// Whether the witness holds a directory whose canonical form is `path`.
    pub fn contains_canonical_directory(&self, path: &[u8], disk: &Disk) -> (found: bool)
        ensures
            found == self.holds_directory(path@, *disk),
    {
        let mut index: usize = 0;
        while index < self.directories.len()
            invariant
                index <= self.directories@.len(),
                forall|i: int|
                    0 <= i < index ==> !resolves_to(
                        (#[trigger] self.directories@[i]).path@,
                        path@,
                        *disk,
                    ),
            decreases self.directories@.len() - index,
        {
            if let Some(canonical) = disk.canonicalize(self.directories[index].path.as_slice()) {
                if paths_equal(canonical.as_slice(), path) {
                    return true;
                }
            }
            index = index + 1;
        }
        false
    }
}

/// Whether the canonical form of `path` is `canonical`.
pub open spec fn resolves_to(path: Seq<u8>, canonical: Seq<u8>, disk: Disk) -> bool {
    match disk.canonical(path) {
        Some(found) => same_path(found, canonical),
        None => false,
    }
}

/// The bytes of a modification time, where it is not before the Unix epoch.
pub open spec fn time_bytes(time: Timestamp) -> Option<Seq<u8>> {
    if time.seconds >= 0 {
        Some(spec_u64_to_le_bytes(time.seconds as u64) + spec_u32_to_le_bytes(time.nanoseconds))
    } else {
        None
    }
}

/// Appends the bytes of a modification time.
pub fn push_time(out: &mut Vec<u8>, time: Timestamp) -> (pushed: bool)
    ensures
        pushed == (time_bytes(time) is Some),
        pushed ==> final(out)@ == old(out)@ + time_bytes(time)->0,
        !pushed ==> final(out)@ == old(out)@,
{
    if time.seconds < 0 {
        return false;
    }
    let ghost before = out@;
    let seconds = u64_to_le_bytes(time.seconds as u64);
    let nanoseconds = u32_to_le_bytes(time.nanoseconds);
    push_bytes(out, seconds.as_slice());
    push_bytes(out, nanoseconds.as_slice());
    proof {
        assert(out@ =~= before + time_bytes(time)->0);
    }
    true
}

/// What the digest says of a directory below `sysroot`.
pub open spec fn directory_bytes(mark: DirectoryMark, sysroot: Seq<u8>) -> Option<Seq<u8>> {
    match (time_bytes(mark.1), path_below(mark.0, sysroot)) {
        (Some(time), Some(relative)) => Some(
            utf8("\0sysroot-directory-identity\0"@) + utf8(lossy_text(relative)) + utf8("\0"@)
                + time + spec_u64_to_le_bytes(mark.2) + spec_u64_to_le_bytes(mark.3),
        ),
        _ => None,
    }
}

/// What the digest says of a file below `sysroot`.
pub open spec fn file_bytes(mark: FileMark, sysroot: Seq<u8>) -> Option<Seq<u8>> {
    match (time_bytes(mark.2), path_below(mark.0, sysroot)) {
        (Some(time), Some(relative)) => Some(
            utf8("\0sysroot-file-identity\0"@) + utf8(lossy_text(relative)) + utf8("\0"@)
                + spec_u64_to_le_bytes(mark.1) + time + spec_u64_to_le_bytes(mark.3)
                + spec_u64_to_le_bytes(mark.4),
        ),
        _ => None,
    }
}

/// What the digest says of directories, in order.
pub open spec fn directories_bytes(marks: Seq<DirectoryMark>, sysroot: Seq<u8>) -> Option<Seq<u8>>
    decreases marks.len(),
{
    if marks.len() == 0 {
        Some(Seq::empty())
    } else {
        match (directories_bytes(marks.drop_last(), sysroot), directory_bytes(
            marks.last(),
            sysroot,
        )) {
            (Some(before), Some(last)) => Some(before + last),
            _ => None,
        }
    }
}

/// What the digest says of files, in order.
pub open spec fn files_bytes(marks: Seq<FileMark>, sysroot: Seq<u8>) -> Option<Seq<u8>>
    decreases marks.len(),
{
    if marks.len() == 0 {
        Some(Seq::empty())
    } else {
        match (files_bytes(marks.drop_last(), sysroot), file_bytes(marks.last(), sysroot)) {
            (Some(before), Some(last)) => Some(before + last),
            _ => None,
        }
    }
}

/// A list that cannot be rendered up to some point cannot be rendered whole.
proof fn lemma_directories_bytes_none(marks: Seq<DirectoryMark>, sysroot: Seq<u8>, count: int)
    requires
        0 <= count <= marks.len(),
        directories_bytes(marks.take(count), sysroot) is None,
    ensures
        directories_bytes(marks, sysroot) is None,
    decreases marks.len() - count,
{
    if count < marks.len() {
        assert(marks.take(count + 1).drop_last() =~= marks.take(count));
        lemma_directories_bytes_none(marks, sysroot, count + 1);
    } else {
        assert(marks.take(count) =~= marks);
    }
}

/// A list that cannot be rendered up to some point cannot be rendered whole.
proof fn lemma_files_bytes_none(marks: Seq<FileMark>, sysroot: Seq<u8>, count: int)
    requires
        0 <= count <= marks.len(),
        files_bytes(marks.take(count), sysroot) is None,
    ensures
        files_bytes(marks, sysroot) is None,
    decreases marks.len() - count,
{
    if count < marks.len() {
        assert(marks.take(count + 1).drop_last() =~= marks.take(count));
        lemma_files_bytes_none(marks, sysroot, count + 1);
    } else {
        assert(marks.take(count) =~= marks);
    }
}

/// What the digest says of a directory below `sysroot`.
fn render_directory(witness: &ArtifactCacheDirectoryWitness, sysroot: &[u8]) -> (bytes: Option<
    Vec<u8>,
>)
    ensures
        crate::bytes::optional(bytes) == directory_bytes(witness.mark(), sysroot@),
{
    let relative = match strip_path_prefix(witness.path.as_slice(), sysroot) {
        Some(relative) => relative,
        None => {
            return None;
        },
    };
    let mut out: Vec<u8> = Vec::new();
    push_text(&mut out, "\0sysroot-directory-identity\0");
    push_text(&mut out, text_from_utf8_lossy(relative.as_slice()).as_str());
    push_text(&mut out, "\0");
    if !push_time(&mut out, witness.modified) {
        return None;
    }
    let device = u64_to_le_bytes(witness.device);
    let inode = u64_to_le_bytes(witness.inode);
    push_bytes(&mut out, device.as_slice());
    push_bytes(&mut out, inode.as_slice());
    proof {
        assert(out@ =~= directory_bytes(witness.mark(), sysroot@)->0);
    }
    Some(out)
}

/// What the digest says of a file below `sysroot`.
fn render_file(witness: &ArtifactCacheFileWitness, sysroot: &[u8]) -> (bytes: Option<Vec<u8>>)
    ensures
        crate::bytes::optional(bytes) == file_bytes(witness.mark(), sysroot@),
{
    let relative = match strip_path_prefix(witness.path.as_slice(), sysroot) {
        Some(relative) => relative,
        None => {
            return None;
        },
    };
    let mut out: Vec<u8> = Vec::new();
    push_text(&mut out, "\0sysroot-file-identity\0");
    push_text(&mut out, text_from_utf8_lossy(relative.as_slice()).as_str());
    push_text(&mut out, "\0");
    let len = u64_to_le_bytes(witness.len);
    push_bytes(&mut out, len.as_slice());
    if !push_time(&mut out, witness.modified) {
        return None;
    }
    let device = u64_to_le_bytes(witness.device);
    let inode = u64_to_le_bytes(witness.inode);
    push_bytes(&mut out, device.as_slice());
    push_bytes(&mut out, inode.as_slice());
    proof {
        assert(out@ =~= file_bytes(witness.mark(), sysroot@)->0);
    }
    Some(out)
}

impl ArtifactCacheIdentityWitness {
    /// What the digest says of the witness.
    pub open spec fn witness_bytes(&self, sysroot: Seq<u8>) -> Option<Seq<u8>> {
        match (directories_bytes(directory_marks(self.directories@), sysroot), files_bytes(
            file_marks(self.files@),
            sysroot,
        )) {
            (Some(directories), Some(files)) => Some(directories + files),
            _ => None,
        }
    }

    /// Appends what the digest says of the witness. `None`, where a time is
    /// before the Unix epoch or a path is not below `sysroot`.
    pub fn update_digest(&self, sysroot: &[u8], hasher: &mut Vec<u8>) -> (updated: Option<()>)
        ensures
            updated is Some == self.witness_bytes(sysroot@) is Some,
            updated is Some ==> final(hasher)@ == old(hasher)@ + self.witness_bytes(sysroot@)->0,
    {
        let ghost start = hasher@;
        let ghost marks = directory_marks(self.directories@);
        let mut index: usize = 0;
        proof {
            assert(marks.take(0) =~= Seq::empty());
            assert(start + Seq::<u8>::empty() =~= start);
        }
        while index < self.directories.len()
            invariant
                index <= self.directories@.len(),
                marks == directory_marks(self.directories@),
                directories_bytes(marks.take(index as int), sysroot@) is Some,
                hasher@ == start + directories_bytes(marks.take(index as int), sysroot@)->0,
            decreases self.directories@.len() - index,
        {
            proof {
                assert(marks.take(index + 1).drop_last() =~= marks.take(index as int));
                assert(marks.take(index + 1).last() == self.directories@[index as int].mark());
            }
            match render_directory(&self.directories[index], sysroot) {
                Some(bytes) => {
                    let ghost before = hasher@;
                    push_bytes(hasher, bytes.as_slice());
                    proof {
                        assert(hasher@ =~= start + (directories_bytes(
                            marks.take(index as int),
                            sysroot@,
                        )->0 + bytes@));
                    }
                },
                None => {
                    proof {
                        lemma_directories_bytes_none(marks, sysroot@, index + 1);
                    }
                    return None;
                },
            }
            index = index + 1;
        }
        proof {
            assert(marks.take(index as int) =~= marks);
        }
        let ghost middle = hasher@;
        let ghost file_list = file_marks(self.files@);
        let mut at: usize = 0;
        proof {
            assert(file_list.take(0) =~= Seq::empty());
            assert(middle + Seq::<u8>::empty() =~= middle);
        }
        while at < self.files.len()
            invariant
                at <= self.files@.len(),
                file_list == file_marks(self.files@),
                files_bytes(file_list.take(at as int), sysroot@) is Some,
                hasher@ == middle + files_bytes(file_list.take(at as int), sysroot@)->0,
            decreases self.files@.len() - at,
        {
            proof {
                assert(file_list.take(at + 1).drop_last() =~= file_list.take(at as int));
                assert(file_list.take(at + 1).last() == self.files@[at as int].mark());
            }
            match render_file(&self.files[at], sysroot) {
                Some(bytes) => {
                    push_bytes(hasher, bytes.as_slice());
                    proof {
                        assert(hasher@ =~= middle + (files_bytes(
                            file_list.take(at as int),
                            sysroot@,
                        )->0 + bytes@));
                    }
                },
                None => {
                    proof {
                        lemma_files_bytes_none(file_list, sysroot@, at + 1);
                    }
                    return None;
                },
            }
            at = at + 1;
        }
        proof {
            assert(file_list.take(at as int) =~= file_list);
            assert(hasher@ =~= start + self.witness_bytes(sysroot@)->0);
        }
        Some(())
    }
}

/// Whether a file name is that of a runtime library.
pub open spec fn is_runtime_name(name: Seq<char>) -> bool {
    ".dylib"@.is_suffix_of(name) || ".dll"@.is_suffix_of(name) || stands_in(name, ".so"@)
}

/// Whether a file name is that of a runtime library.
pub fn names_runtime_library(name: &[u8]) -> (found: bool)
    ensures
        found == is_runtime_name(lossy_text(name@)),
{
    let name = text_from_utf8_lossy(name);
    has_suffix(name.as_str(), ".dylib") || has_suffix(name.as_str(), ".dll") || has_text(
        name.as_str(),
        ".so",
    )
}

/// Whether a path is that of a runtime library.
pub open spec fn is_runtime_path(path: Seq<u8>) -> bool {
    match file_name(path) {
        Some(name) => is_runtime_name(lossy_text(name)),
        None => false,
    }
}

/// Whether a path is that of a runtime library.
pub fn is_runtime_library(path: &[u8]) -> (found: bool)
    ensures
        found == is_runtime_path(path@),
{
    match path_file_name(path) {
        Some(name) => names_runtime_library(name.as_slice()),
        None => false,
    }
}

/// Whether a path leads through a directory of codegen backends.
pub fn is_codegen_backend(path: &[u8]) -> (found: bool)
    ensures
        found == components(path@).contains(utf8("codegen-backends"@)),
{
    let list = path_components(path);
    list_holds(&list, "codegen-backends".as_bytes())
}

} // verus!
