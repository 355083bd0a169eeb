//! The files and trees that one compilation reads beside its sources.

use vstd::prelude::*;

use crate::bytes::copy_bytes;
use crate::disk::Disk;
use crate::disk::FileKind;
use crate::disk::Lookup;
use crate::disk::Metadata;
use crate::disk::Timestamp;
use crate::ordering::lemma_sorted_keys;
use crate::ordering::order_of;
use crate::ordering::sort;
use crate::ordering::sorted;
use crate::ordering::Ranked;
use crate::unix_path::path_before;
use crate::unix_path::path_less;
use crate::unix_path::paths_equal;
use crate::unix_path::same_path;

verus! {

/// What an input is expected to be.
#[derive(Clone, Copy, Debug, PartialEq, Eq, Structural)]
pub enum ArtifactCacheActionInputPathKind {
    File,
    Directory,
}

/// An input as it was.
#[derive(Clone, Copy, Debug, PartialEq, Eq, Structural)]
pub struct ArtifactCacheActionInputMetadataWitness {
    pub len: u64,
    pub modified: Timestamp,
    pub device: u64,
    pub inode: u64,
    pub changed_seconds: i64,
    pub changed_nanoseconds: i64,
}

/// An input as it was, or that it was absent.
pub struct ArtifactCacheActionInputPathWitness {
    pub path: Vec<u8>,
    pub kind: ArtifactCacheActionInputPathKind,
    pub metadata: Option<ArtifactCacheActionInputMetadataWitness>,
}

/// What the witness of an input holds.
pub type InputMark = (
    Seq<u8>,
    ArtifactCacheActionInputPathKind,
    Option<ArtifactCacheActionInputMetadataWitness>,
);

/// Why inputs have no digest.
#[derive(Clone, Copy, Debug, PartialEq, Eq, Structural)]
pub enum ActionInputError {
    UnsupportedFileType,
    TimeUnavailable,
    Unreadable,
    ChangedWhileOpening,
    ChangedWhileHashing,
    NotADirectory,
    ContainsSymlink,
    Disappeared,
    UnsupportedNode,
    DirectoryChanged,
}

impl ArtifactCacheActionInputPathWitness {
    /// What the witness holds.
    pub open spec fn mark(self) -> InputMark {
        (self.path@, self.kind, self.metadata)
    }
}

/// The mark of an input with the given metadata.
pub open spec fn mark_from(
    path: Seq<u8>,
    kind: ArtifactCacheActionInputPathKind,
    metadata: Metadata,
) -> Result<InputMark, ActionInputError> {
    if !(kind == ArtifactCacheActionInputPathKind::File && metadata.kind == FileKind::File || kind
        == ArtifactCacheActionInputPathKind::Directory && metadata.kind == FileKind::Directory) {
        Err(ActionInputError::UnsupportedFileType)
    } else {
        match metadata.modified {
            None => Err(ActionInputError::TimeUnavailable),
            Some(modified) => Ok(
                (
                    path,
                    kind,
                    Some(
                        ArtifactCacheActionInputMetadataWitness {
                            len: metadata.len,
                            modified,
                            device: metadata.device,
                            inode: metadata.inode,
                            changed_seconds: metadata.changed_seconds,
                            changed_nanoseconds: metadata.changed_nanoseconds,
                        },
                    ),
                ),
            ),
        }
    }
}

/// The mark of an input as it is found.
pub open spec fn captured(
    path: Seq<u8>,
    kind: ArtifactCacheActionInputPathKind,
    found: Lookup<Metadata>,
) -> Result<InputMark, ActionInputError> {
    match found {
        Lookup::Found(metadata) => mark_from(path, kind, metadata),
        Lookup::Missing => Ok((path, kind, None)),
        Lookup::Failed => Err(ActionInputError::Unreadable),
    }
}

/// Whether an executed result is the specified one.
pub open spec fn is_mark(
    result: Result<ArtifactCacheActionInputPathWitness, ActionInputError>,
    expected: Result<InputMark, ActionInputError>,
) -> bool {
    match (result, expected) {
        (Ok(witness), Ok(mark)) => witness.mark() == mark,
        (Err(error), Err(wanted)) => error == wanted,
        _ => false,
    }
}

/// Whether two marks are equal: their paths by components.
pub open spec fn same_mark(left: InputMark, right: InputMark) -> bool {
    same_path(left.0, right.0) && left.1 == right.1 && left.2 == right.2
}

/// Whether optional metadata are equal.
fn metadata_equal(
    left: &Option<ArtifactCacheActionInputMetadataWitness>,
    right: &Option<ArtifactCacheActionInputMetadataWitness>,
) -> (equal: bool)
    ensures
        equal == (*left == *right),
{
    match (left, right) {
        (Some(left), Some(right)) => *left == *right,
        (None, None) => true,
        _ => false,
    }
}

impl ArtifactCacheActionInputPathWitness {
    /// The witness of an input with the given metadata.
    pub fn from_metadata(
        path: &[u8],
        kind: ArtifactCacheActionInputPathKind,
        metadata: &Metadata,
    ) -> (witness: Result<Self, ActionInputError>)
        ensures
            is_mark(witness, mark_from(path@, kind, *metadata)),
    {
        if !(kind == ArtifactCacheActionInputPathKind::File && metadata.kind == FileKind::File
            || kind == ArtifactCacheActionInputPathKind::Directory && metadata.kind
            == FileKind::Directory) {
            return Err(ActionInputError::UnsupportedFileType);
        }
        match metadata.modified {
            None => Err(ActionInputError::TimeUnavailable),
            Some(modified) => Ok(
                ArtifactCacheActionInputPathWitness {
                    path: copy_bytes(path),
                    kind,
                    metadata: Some(
                        ArtifactCacheActionInputMetadataWitness {
                            len: metadata.len,
                            modified,
                            device: metadata.device,
                            inode: metadata.inode,
                            changed_seconds: metadata.changed_seconds,
                            changed_nanoseconds: metadata.changed_nanoseconds,
                        },
                    ),
                },
            ),
        }
    }

    /// The witness of an input as it is found.
    pub fn capture(
        path: &[u8],
        kind: ArtifactCacheActionInputPathKind,
        found: &Lookup<Metadata>,
    ) -> (witness: Result<Self, ActionInputError>)
        ensures
            is_mark(witness, captured(path@, kind, *found)),
    {
        match found {
            Lookup::Found(metadata) => Self::from_metadata(path, kind, metadata),
            Lookup::Missing => Ok(
                ArtifactCacheActionInputPathWitness {
                    path: copy_bytes(path),
                    kind,
                    metadata: None,
                },
            ),
            Lookup::Failed => Err(ActionInputError::Unreadable),
        }
    }

    /// Whether two witnesses are equal.
    pub fn same_as(&self, other: &Self) -> (same: bool)
        ensures
            same == same_mark(self.mark(), other.mark()),
    {
        paths_equal(self.path.as_slice(), other.path.as_slice()) && self.kind == other.kind
            && metadata_equal(&self.metadata, &other.metadata)
    }

    /// Whether the input is on disk as it was.
    pub open spec fn unchanged(self, disk: Disk) -> bool {
        match captured(self.path@, self.kind, disk.own(self.path@)) {
            Ok(now) => same_mark(now, self.mark()),
            Err(_) => false,
        }
    }

    /// Whether the input is on disk as it was.
    pub fn is_current(&self, disk: &Disk) -> (current: bool)
        ensures
            current == self.unchanged(*disk),
    {
        let found = disk.symlink_metadata(self.path.as_slice());
        match Self::capture(self.path.as_slice(), self.kind, &found) {
            Ok(now) => now.same_as(self),
            Err(_) => false,
        }
    }
}

impl Ranked for ArtifactCacheActionInputPathWitness {
    open spec fn precedes(self, other: Self) -> bool {
        mark_less(self.mark(), other.mark())
    }

    fn comes_before(&self, other: &Self) -> (before: bool) {
        path_before(self.path.as_slice(), other.path.as_slice()) || (paths_equal(
            self.path.as_slice(),
            other.path.as_slice(),
        ) && self.kind == ArtifactCacheActionInputPathKind::File && other.kind
            == ArtifactCacheActionInputPathKind::Directory)
    }
}

/// The order of marks: by path, files before directories.
pub open spec fn mark_less(left: InputMark, right: InputMark) -> bool {
    path_less(left.0, right.0) || (same_path(left.0, right.0) && left.1
        == ArtifactCacheActionInputPathKind::File && right.1
        == ArtifactCacheActionInputPathKind::Directory)
}

/// The order of marks.
pub open spec fn mark_order() -> spec_fn(InputMark, InputMark) -> bool {
    |a: InputMark, b: InputMark| mark_less(a, b)
}

/// What witnesses hold.
pub open spec fn marks(list: Seq<ArtifactCacheActionInputPathWitness>) -> Seq<InputMark> {
    list.map_values(|witness: ArtifactCacheActionInputPathWitness| witness.mark())
}

/// Adds a witness to a list.
pub fn push_witness(
    list: &mut Vec<ArtifactCacheActionInputPathWitness>,
    witness: ArtifactCacheActionInputPathWitness,
)
    ensures
        marks(final(list)@) == marks(old(list)@).push(witness.mark()),
{
    let ghost before = list@;
    list.push(witness);
    proof {
        assert(marks(list@) =~= marks(before).push(witness.mark()));
    }
}

/// Marks without the repetition of one right behind it.
pub open spec fn without_repetition(list: Seq<InputMark>) -> Seq<InputMark>
    decreases list.len(),
{
    if list.len() == 0 {
        list
    } else {
        let kept = without_repetition(list.drop_last());
        if kept.len() > 0 && same_mark(kept.last(), list.last()) {
            kept
        } else {
            kept.push(list.last())
        }
    }
}

/// The witness of all inputs of a compilation.
pub struct ArtifactCacheActionInputWitness {
    pub paths: Vec<ArtifactCacheActionInputPathWitness>,
    pub supports_fast_path: bool,
}

impl ArtifactCacheActionInputWitness {
    /// The witness of `paths`, in order and without repetitions.
    pub fn new(
        paths: Vec<ArtifactCacheActionInputPathWitness>,
        supports_fast_path: bool,
    ) -> (witness: Self)
        ensures
            marks(witness.paths@) == without_repetition(sorted(marks(paths@), mark_order())),
            witness.supports_fast_path == supports_fast_path,
    {
        proof {
            lemma_sorted_keys(
                paths@,
                order_of::<ArtifactCacheActionInputPathWitness>(),
                |witness: ArtifactCacheActionInputPathWitness| witness.mark(),
                mark_order(),
            );
        }
        let ordered = sort(paths);
        let ghost all = marks(ordered@);
        let mut kept: Vec<ArtifactCacheActionInputPathWitness> = Vec::new();
        let mut index: usize = 0;
        proof {
            assert(all.take(0) =~= Seq::empty());
            assert(marks(kept@) =~= without_repetition(all.take(0)));
        }
        while index < ordered.len()
            invariant
                index <= ordered@.len(),
                all == marks(ordered@),
                marks(kept@) == without_repetition(all.take(index as int)),
            decreases ordered@.len() - index,
        {
            let ghost before = kept@;
            let item = &ordered[index];
            proof {
                assert(all.take(index + 1).drop_last() =~= all.take(index as int));
                assert(all.take(index + 1).last() == item.mark());
                assert(marks(kept@).len() == kept@.len());
                if kept@.len() > 0 {
                    assert(marks(kept@).last() == kept@.last().mark());
                }
            }
            if kept.len() == 0 || !kept[kept.len() - 1].same_as(item) {
                kept.push(
                    ArtifactCacheActionInputPathWitness {
                        path: copy_bytes(item.path.as_slice()),
                        kind: item.kind,
                        metadata: item.metadata,
                    },
                );
                proof {
                    assert(marks(kept@) =~= marks(before).push(item.mark()));
                }
            }
            index = index + 1;
        }
        proof {
            assert(all.take(index as int) =~= all);
        }
        ArtifactCacheActionInputWitness { paths: kept, supports_fast_path }
    }

    /// Whether every input is on disk as it was.
    pub open spec fn unchanged(&self, disk: Disk) -> bool {
        forall|i: int| 0 <= i < self.paths@.len() ==> (#[trigger] self.paths@[i]).unchanged(disk)
    }

    /// Whether every input is on disk as it was.
    pub fn is_current(&self, disk: &Disk) -> (current: bool)
        ensures
            current == self.unchanged(*disk),
    {
        let mut index: usize = 0;
        while index < self.paths.len()
            invariant
                index <= self.paths@.len(),
                forall|i: int| 0 <= i < index ==> (#[trigger] self.paths@[i]).unchanged(*disk),
            decreases self.paths@.len() - index,
        {
            if !self.paths[index].is_current(disk) {
                return false;
            }
            index = index + 1;
        }
        true
    }
}

/// One reading of an input file: what was found at its path, the open file
/// before and after its contents were read, and what was found then. Whether
/// its file system keeps change times that can be relied on.
pub struct InputFile {
    pub before: Lookup<Metadata>,
    pub opened: Lookup<Metadata>,
    pub contents: Vec<u8>,
    pub closed: Lookup<Metadata>,
    pub after: Lookup<Metadata>,
    pub reliable: bool,
}

/// What the reading of an input file gives: its contents, whether its witness
/// can be relied on, and its mark.
pub type FileReading = (Option<Seq<u8>>, bool, InputMark);

/// The mark of an open file.
pub open spec fn handle_mark(path: Seq<u8>, found: Lookup<Metadata>) -> Result<
    InputMark,
    ActionInputError,
> {
    match found {
        Lookup::Found(metadata) => mark_from(path, ArtifactCacheActionInputPathKind::File, metadata),
        _ => Err(ActionInputError::Unreadable),
    }
}

/// What the reading of an input file gives.
pub open spec fn file_reading(path: Seq<u8>, file: InputFile) -> Result<
    FileReading,
    ActionInputError,
> {
    match captured(path, ArtifactCacheActionInputPathKind::File, file.before) {
        Err(error) => Err(error),
        Ok(before) => if before.2 is None {
            Ok((None, false, before))
        } else {
            match handle_mark(path, file.opened) {
                Err(error) => Err(error),
                Ok(opened) => if !same_mark(before, opened) {
                    Err(ActionInputError::ChangedWhileOpening)
                } else {
                    match (handle_mark(path, file.closed), captured(
                        path,
                        ArtifactCacheActionInputPathKind::File,
                        file.after,
                    )) {
                        (Err(error), _) => Err(error),
                        (_, Err(error)) => Err(error),
                        (Ok(closed), Ok(after)) => if !same_mark(before, closed) || !same_mark(
                            before,
                            after,
                        ) {
                            Err(ActionInputError::ChangedWhileHashing)
                        } else {
                            Ok((Some(file.contents@), file.reliable, after))
                        },
                    }
                },
            }
        },
    }
}

/// The witness of an open file.
fn capture_handle(path: &[u8], found: &Lookup<Metadata>) -> (witness: Result<
    ArtifactCacheActionInputPathWitness,
    ActionInputError,
>)
    ensures
        is_mark(witness, handle_mark(path@, *found)),
{
    match found {
        Lookup::Found(metadata) => ArtifactCacheActionInputPathWitness::from_metadata(
            path,
            ArtifactCacheActionInputPathKind::File,
            metadata,
        ),
        _ => Err(ActionInputError::Unreadable),
    }
}

/// Checks the reading of an input file and witnesses it. Gives its contents,
/// where it was there, and whether its witness can be relied on.
pub fn hash_artifact_cache_action_input_file<'a>(
    path: &[u8],
    file: &'a InputFile,
    witnesses: &mut Vec<ArtifactCacheActionInputPathWitness>,
) -> (result: Result<(Option<&'a [u8]>, bool), ActionInputError>)
    ensures
        match (result, file_reading(path@, *file)) {
            (Ok((contents, reliable)), Ok(reading)) => {
                &&& match contents {
                    Some(contents) => reading.0 == Some(contents@),
                    None => reading.0 is None,
                }
                &&& reliable == reading.1
                &&& marks(final(witnesses)@) == marks(old(witnesses)@).push(reading.2)
            },
            (Err(error), Err(expected)) => error == expected,
            _ => false,
        },
{
    let before = match ArtifactCacheActionInputPathWitness::capture(
        path,
        ArtifactCacheActionInputPathKind::File,
        &file.before,
    ) {
        Ok(before) => before,
        Err(error) => {
            return Err(error);
        },
    };
    if before.metadata.is_none() {
        push_witness(witnesses, before);
        return Ok((None, false));
    }
    let opened = match capture_handle(path, &file.opened) {
        Ok(opened) => opened,
        Err(error) => {
            return Err(error);
        },
    };
    if !before.same_as(&opened) {
        return Err(ActionInputError::ChangedWhileOpening);
    }
    let closed = match capture_handle(path, &file.closed) {
        Ok(closed) => closed,
        Err(error) => {
            return Err(error);
        },
    };
    let after = match ArtifactCacheActionInputPathWitness::capture(
        path,
        ArtifactCacheActionInputPathKind::File,
        &file.after,
    ) {
        Ok(after) => after,
        Err(error) => {
            return Err(error);
        },
    };
    if !before.same_as(&closed) || !before.same_as(&after) {
        return Err(ActionInputError::ChangedWhileHashing);
    }
    push_witness(witnesses, after);
    Ok((Some(file.contents.as_slice()), file.reliable))
}

} // verus!
