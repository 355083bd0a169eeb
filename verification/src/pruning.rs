//! Which entries are evicted when the cache is too large.

use vstd::prelude::*;
use vstd::string::*;

use crate::bytes::bytes_equal;
use crate::bytes::copy_bytes;
use crate::bytes::optional;
use crate::bytes::utf8;
use crate::cache_size::added;
use crate::cache_size::artifact_cache_entry_size;
use crate::cache_size::directory_size;
use crate::cache_size::dirty_state;
use crate::cache_size::mark_rlib_cache_size_dirty;
use crate::cache_size::size_state;
use crate::cache_size::write_rlib_cache_size;
use crate::cache_size::SizeError;
use crate::cache_size::SizedDirectory;
use crate::digest::lossy_text;
use crate::digest::text_from_utf8_lossy;
use crate::disk::FileKind;
use crate::disk::Lookup;
use crate::disk::Timestamp;
use crate::ordering::lemma_sorted_keys;
use crate::ordering::order_of;
use crate::ordering::sort;
use crate::ordering::sorted;
use crate::ordering::Ranked;
use crate::source_inputs::earlier;
use crate::source_inputs::is_earlier;
use crate::text::has_prefix;
use crate::unix_path::file_name;
use crate::unix_path::path_file_name;
use crate::unix_path::paths_equal;
use crate::unix_path::same_path;

verus! {

/// An entry below an action root, as it was found.
pub struct EntryListing {
    pub path: Vec<u8>,
    pub kind: Lookup<FileKind>,
    /// Whether its completion mark is a regular file.
    pub complete: bool,
    pub directory: SizedDirectory,
    pub modified: Option<Timestamp>,
}

/// An action root, as it was found.
pub struct RootListing {
    pub name: Vec<u8>,
    pub kind: Lookup<FileKind>,
    pub entries: Option<Vec<EntryListing>>,
}

/// A completed entry: when it was modified, its size and its path.
pub struct CompletedEntry {
    pub modified: Timestamp,
    pub size: u64,
    pub path: Vec<u8>,
}

/// A completed entry as plain values.
pub type Completed = (Timestamp, u64, Seq<u8>);

impl CompletedEntry {
    /// The entry as plain values.
    pub open spec fn plain(self) -> Completed {
        (self.modified, self.size, self.path@)
    }
}

/// Completed entries as plain values.
pub open spec fn completed(list: Seq<CompletedEntry>) -> Seq<Completed> {
    list.map_values(|entry: CompletedEntry| entry.plain())
}

impl Ranked for CompletedEntry {
    open spec fn precedes(self, other: Self) -> bool {
        earlier(self.modified, other.modified)
    }

    fn comes_before(&self, other: &Self) -> (before: bool) {
        is_earlier(self.modified, other.modified)
    }
}

/// The order of completed entries: the oldest first.
pub open spec fn age_order() -> spec_fn(Completed, Completed) -> bool {
    |a: Completed, b: Completed| earlier(a.0, b.0)
}

/// Why the cache could not be brought within its limit.
#[derive(Clone, Copy, Debug, PartialEq, Eq, Structural)]
pub enum PruneError {
    Unreadable,
    SymlinkedActionRoot,
    SymlinkedEntry,
    Size(SizeError),
    EvictionFailed,
}

/// Whether a path has a name that starts with a dot.
pub open spec fn is_hidden(path: Seq<u8>) -> bool {
    match file_name(path) {
        Some(name) => "."@.is_prefix_of(lossy_text(name)),
        None => false,
    }
}

/// Whether a path has a name that starts with a dot.
pub fn path_is_hidden(path: &[u8]) -> (hidden: bool)
    ensures
        hidden == is_hidden(path@),
{
    match path_file_name(path) {
        Some(name) => has_prefix(text_from_utf8_lossy(name.as_slice()).as_str(), "."),
        None => false,
    }
}

/// The moment that stands for an unknown modification time.
pub open spec fn epoch() -> Timestamp {
    Timestamp { seconds: 0, nanoseconds: 0 }
}

/// The completed entry that an entry is, if it is one.
pub open spec fn entry_found(entry: EntryListing) -> Result<Option<Completed>, PruneError> {
    match entry.kind {
        Lookup::Found(kind) => if kind == FileKind::Symlink {
            Err(PruneError::SymlinkedEntry)
        } else if kind != FileKind::Directory || is_hidden(entry.path@) || !entry.complete {
            Ok(None)
        } else {
            match directory_size(entry.directory) {
                Err(error) => Err(PruneError::Size(error)),
                Ok(size) => Ok(
                    Some(
                        (
                            match entry.modified {
                                Some(modified) => modified,
                                None => epoch(),
                            },
                            size,
                            entry.path@,
                        ),
                    ),
                ),
            }
        },
        _ => Err(PruneError::Unreadable),
    }
}

/// The completed entries among entries, in order.
pub open spec fn entries_found(entries: Seq<EntryListing>) -> Result<Seq<Completed>, PruneError>
    decreases entries.len(),
{
    if entries.len() == 0 {
        Ok(Seq::empty())
    } else {
        match entries_found(entries.drop_last()) {
            Err(error) => Err(error),
            Ok(before) => match entry_found(entries.last()) {
                Err(error) => Err(error),
                Ok(None) => Ok(before),
                Ok(Some(entry)) => Ok(before.push(entry)),
            },
        }
    }
}

/// The completed entries below an action root. The size state may be a
/// symbolic link; an action root may not.
pub open spec fn root_found(root: RootListing) -> Result<Seq<Completed>, PruneError> {
    match root.kind {
        Lookup::Found(kind) => if kind == FileKind::Symlink {
            if root.name@ == utf8(".cargo-artifact-cache-size"@) {
                Ok(Seq::empty())
            } else {
                Err(PruneError::SymlinkedActionRoot)
            }
        } else if kind != FileKind::Directory {
            Ok(Seq::empty())
        } else {
            match root.entries {
                Some(entries) => entries_found(entries@),
                None => Err(PruneError::Unreadable),
            }
        },
        _ => Err(PruneError::Unreadable),
    }
}

/// The completed entries below action roots, in order.
pub open spec fn roots_found(roots: Seq<RootListing>) -> Result<Seq<Completed>, PruneError>
    decreases roots.len(),
{
    if roots.len() == 0 {
        Ok(Seq::empty())
    } else {
        match roots_found(roots.drop_last()) {
            Err(error) => Err(error),
            Ok(before) => match root_found(roots.last()) {
                Err(error) => Err(error),
                Ok(more) => Ok(before + more),
            },
        }
    }
}

/// The size of completed entries together.
pub open spec fn total_size(list: Seq<Completed>) -> u64
    decreases list.len(),
{
    if list.len() == 0 {
        0
    } else {
        added(total_size(list.drop_last()), list.last().1)
    }
}

/// An error among the first entries is the error of all.
proof fn lemma_entries_error(entries: Seq<EntryListing>, count: int)
    requires
        0 <= count <= entries.len(),
        entries_found(entries.take(count)) is Err,
    ensures
        entries_found(entries) == entries_found(entries.take(count)),
    decreases entries.len() - count,
{
    if count < entries.len() {
        assert(entries.take(count + 1).drop_last() =~= entries.take(count));
        lemma_entries_error(entries, count + 1);
    } else {
        assert(entries.take(count) =~= entries);
    }
}

/// An error among the first roots is the error of all.
proof fn lemma_roots_error(roots: Seq<RootListing>, count: int)
    requires
        0 <= count <= roots.len(),
        roots_found(roots.take(count)) is Err,
    ensures
        roots_found(roots) == roots_found(roots.take(count)),
    decreases roots.len() - count,
{
    if count < roots.len() {
        assert(roots.take(count + 1).drop_last() =~= roots.take(count));
        lemma_roots_error(roots, count + 1);
    } else {
        assert(roots.take(count) =~= roots);
    }
}

/// The completed entry that an entry is, if it is one.
fn read_entry(entry: &EntryListing) -> (found: Result<Option<CompletedEntry>, PruneError>)
    ensures
        match (found, entry_found(*entry)) {
            (Ok(Some(found)), Ok(Some(expected))) => found.plain() == expected,
            (Ok(None), Ok(None)) => true,
            (Err(error), Err(expected)) => error == expected,
            _ => false,
        },
{
    let kind = match &entry.kind {
        Lookup::Found(kind) => *kind,
        _ => {
            return Err(PruneError::Unreadable);
        },
    };
    if kind == FileKind::Symlink {
        return Err(PruneError::SymlinkedEntry);
    }
    if kind != FileKind::Directory || path_is_hidden(entry.path.as_slice()) || !entry.complete {
        return Ok(None);
    }
    match artifact_cache_entry_size(&entry.directory) {
        Err(error) => Err(PruneError::Size(error)),
        Ok(size) => {
            let modified = match entry.modified {
                Some(modified) => modified,
                None => Timestamp { seconds: 0, nanoseconds: 0 },
            };
            Ok(Some(CompletedEntry { modified, size, path: copy_bytes(entry.path.as_slice()) }))
        },
    }
}

/// Adds the completed entries among `entries` to a list.
fn read_entries(list: &mut Vec<CompletedEntry>, entries: &Vec<EntryListing>) -> (result: Result<
    (),
    PruneError,
>)
    ensures
        match (result, entries_found(entries@)) {
            (Ok(_), Ok(found)) => completed(final(list)@) == completed(old(list)@) + found,
            (Err(error), Err(expected)) => error == expected,
            _ => false,
        },
{
    let ghost start = completed(list@);
    let mut index: usize = 0;
    proof {
        assert(entries@.take(0) =~= Seq::empty());
        assert(start + Seq::<Completed>::empty() =~= start);
    }
    while index < entries.len()
        invariant
            index <= entries@.len(),
            entries_found(entries@.take(index as int)) is Ok,
            completed(list@) == start + entries_found(entries@.take(index as int))->Ok_0,
        decreases entries@.len() - index,
    {
        let ghost before = list@;
        proof {
            assert(entries@.take(index + 1).drop_last() =~= entries@.take(index as int));
            assert(entries@.take(index + 1).last() == entries@[index as int]);
        }
        match read_entry(&entries[index]) {
            Ok(Some(entry)) => {
                proof {
                    assert(completed(before.push(entry)) =~= completed(before).push(
                        entry.plain(),
                    ));
                    assert(completed(before.push(entry)) =~= start + entries_found(
                        entries@.take(index as int),
                    )->Ok_0.push(entry.plain()));
                }
                list.push(entry);
            },
            Ok(None) => {},
            Err(error) => {
                proof {
                    lemma_entries_error(entries@, index + 1);
                }
                return Err(error);
            },
        }
        index = index + 1;
    }
    proof {
        assert(entries@.take(index as int) =~= entries@);
    }
    Ok(())
}

/// The completed entries of the cache, in the order they were found.
fn read_roots(roots: &Vec<RootListing>) -> (list: Result<Vec<CompletedEntry>, PruneError>)
    ensures
        match (list, roots_found(roots@)) {
            (Ok(list), Ok(found)) => completed(list@) == found,
            (Err(error), Err(expected)) => error == expected,
            _ => false,
        },
{
    let mut list: Vec<CompletedEntry> = Vec::new();
    let mut index: usize = 0;
    proof {
        assert(roots@.take(0) =~= Seq::empty());
        assert(completed(list@) =~= Seq::empty());
    }
    while index < roots.len()
        invariant
            index <= roots@.len(),
            roots_found(roots@.take(index as int)) == Ok::<Seq<Completed>, PruneError>(
                completed(list@),
            ),
        decreases roots@.len() - index,
    {
        let root = &roots[index];
        let ghost before = completed(list@);
        proof {
            assert(roots@.take(index + 1).drop_last() =~= roots@.take(index as int));
            assert(roots@.take(index + 1).last() == roots@[index as int]);
            assert(before + Seq::<Completed>::empty() =~= before);
        }
        let result: Result<(), PruneError> = match &root.kind {
            Lookup::Found(kind) => {
                if *kind == FileKind::Symlink {
                    if bytes_equal(
                        root.name.as_slice(),
                        ".cargo-artifact-cache-size".as_bytes(),
                    ) {
                        Ok(())
                    } else {
                        Err(PruneError::SymlinkedActionRoot)
                    }
                } else if *kind != FileKind::Directory {
                    Ok(())
                } else {
                    match &root.entries {
                        Some(entries) => read_entries(&mut list, entries),
                        None => Err(PruneError::Unreadable),
                    }
                }
            },
            _ => Err(PruneError::Unreadable),
        };
        match result {
            Ok(_) => {},
            Err(error) => {
                proof {
                    lemma_roots_error(roots@, index + 1);
                }
                return Err(error);
            },
        }
        index = index + 1;
    }
    proof {
        assert(roots@.take(index as int) =~= roots@);
    }
    Ok(list)
}

/// The size of completed entries together.
fn sum_sizes(list: &Vec<CompletedEntry>) -> (total: u64)
    ensures
        total == total_size(completed(list@)),
{
    let ghost all = completed(list@);
    let mut total: u64 = 0;
    let mut index: usize = 0;
    proof {
        assert(all.take(0) =~= Seq::empty());
    }
    while index < list.len()
        invariant
            index <= list@.len(),
            all == completed(list@),
            total == total_size(all.take(index as int)),
        decreases list@.len() - index,
    {
        proof {
            assert(all.take(index + 1).drop_last() =~= all.take(index as int));
            assert(all.take(index + 1).last() == list@[index as int].plain());
        }
        total = total.saturating_add(list[index].size);
        index = index + 1;
    }
    proof {
        assert(all.take(index as int) =~= all);
    }
    total
}

/// Whether an entry is the one that is kept in any case.
pub open spec fn is_retained(retained: Option<Seq<u8>>, path: Seq<u8>) -> bool {
    retained is Some && same_path(path, retained->0)
}

/// What is left of a size when `size` is taken from it.
pub open spec fn reduced(total: u64, size: u64) -> u64 {
    if size <= total {
        (total - size) as u64
    } else {
        0
    }
}

/// The progress of an eviction over entries in the order of their age.
pub struct Eviction {
    pub entries: Vec<CompletedEntry>,
    pub position: usize,
    pub total: u64,
    pub max_size: u64,
    pub retained: Option<Vec<u8>>,
}

/// The position of the first entry from `from` on that may be evicted.
pub open spec fn candidate(list: Seq<Completed>, from: int, retained: Option<Seq<u8>>) -> int
    decreases list.len() - from,
{
    if from >= list.len() {
        list.len() as int
    } else if is_retained(retained, list[from].2) {
        candidate(list, from + 1, retained)
    } else {
        from
    }
}

impl Eviction {
    /// Whether the progress is at an entry or at the end.
    pub open spec fn well_formed(&self) -> bool {
        self.position <= self.entries@.len()
    }

    /// The entries as plain values.
    pub open spec fn list(&self) -> Seq<Completed> {
        completed(self.entries@)
    }

    /// The entry to evict next, while the cache is too large.
    pub open spec fn wanted(&self) -> Option<int> {
        let at = candidate(self.list(), self.position as int, optional(self.retained));
        if self.total > self.max_size && at < self.entries@.len() {
            Some(at)
        } else {
            None
        }
    }

    /// The entry to evict next, while the cache is too large: the oldest one
    /// that was not tried and is not kept in any case.
    pub fn next_eviction(&self) -> (next: Option<usize>)
        requires
            self.well_formed(),
        ensures
            match next {
                Some(next) => self.wanted() == Some(next as int) && next < self.entries@.len(),
                None => self.wanted() is None,
            },
    {
        if self.total <= self.max_size {
            return None;
        }
        let ghost list = self.list();
        let ghost kept = optional(self.retained);
        let mut at: usize = self.position;
        while at < self.entries.len()
            invariant
                at <= self.entries@.len(),
                list == self.list(),
                kept == optional(self.retained),
                self.total > self.max_size,
                candidate(list, self.position as int, kept) == candidate(list, at as int, kept),
            decreases self.entries@.len() - at,
        {
            proof {
                assert(list[at as int] == self.entries@[at as int].plain());
            }
            let retained = match &self.retained {
                Some(retained) => paths_equal(
                    self.entries[at].path.as_slice(),
                    retained.as_slice(),
                ),
                None => false,
            };
            if !retained {
                return Some(at);
            }
            at = at + 1;
        }
        None
    }

    /// Records whether the entry that was to be evicted is gone.
    pub fn evicted(&mut self, at: usize, removed: bool)
        requires
            old(self).well_formed(),
            old(self).wanted() == Some(at as int),
            at < old(self).entries@.len(),
        ensures
            final(self).well_formed(),
            final(self).position == at + 1,
            final(self).total == if removed {
                reduced(old(self).total, old(self).entries@[at as int].size)
            } else {
                old(self).total
            },
            final(self).entries == old(self).entries,
            final(self).max_size == old(self).max_size,
            final(self).retained == old(self).retained,
    {
        let count: usize = self.entries.len();
        if removed {
            self.total = self.total.saturating_sub(self.entries[at].size);
        }
        proof {
            assert(at < count);
        }
        self.position = at + 1;
    }

    /// The size of the cache at the end, where it is within its limit.
    pub fn finish(&self) -> (size: Result<u64, PruneError>)
        ensures
            size == if self.total > self.max_size {
                Err::<u64, PruneError>(PruneError::EvictionFailed)
            } else {
                Ok::<u64, PruneError>(self.total)
            },
    {
        if self.total > self.max_size {
            Err(PruneError::EvictionFailed)
        } else {
            Ok(self.total)
        }
    }
}

/// How pruning starts: with a cache that is small enough, or with an eviction.
pub enum Pruning {
    WithinLimit(u64),
    Evict(Eviction),
}

/// Finds the completed entries of the cache, and whether some of them are to
/// be evicted: the oldest first.
pub fn start_pruning(
    roots: &Vec<RootListing>,
    max_size: Option<u64>,
    retained_entry: Option<Vec<u8>>,
) -> (pruning: Result<Pruning, PruneError>)
    ensures
        match (pruning, roots_found(roots@)) {
            (Err(error), Err(expected)) => error == expected,
            (Ok(Pruning::WithinLimit(size)), Ok(found)) => {
                size == total_size(found) && (max_size is None || size <= max_size->0)
            },
            (Ok(Pruning::Evict(eviction)), Ok(found)) => {
                &&& max_size == Some(eviction.max_size)
                &&& eviction.total == total_size(found)
                &&& eviction.total > eviction.max_size
                &&& eviction.list() == sorted(found, age_order())
                &&& eviction.position == 0
                &&& optional(eviction.retained) == optional(retained_entry)
                &&& eviction.well_formed()
            },
            _ => false,
        },
{
    let list = match read_roots(roots) {
        Ok(list) => list,
        Err(error) => {
            return Err(error);
        },
    };
    let total: u64 = sum_sizes(&list);
    match max_size {
        None => Ok(Pruning::WithinLimit(total)),
        Some(max_size) => {
            if total <= max_size {
                return Ok(Pruning::WithinLimit(total));
            }
            proof {
                lemma_sorted_keys(
                    list@,
                    order_of::<CompletedEntry>(),
                    |entry: CompletedEntry| entry.plain(),
                    age_order(),
                );
            }
            Ok(
                Pruning::Evict(
                    Eviction {
                        entries: sort(list),
                        position: 0,
                        total,
                        max_size,
                        retained: retained_entry,
                    },
                ),
            )
        },
    }
}

/// The entries that an eviction tries, and the size at its end, when removing
/// the entry at each position succeeds or not as `outcomes` says.
pub open spec fn eviction_run(
    list: Seq<Completed>,
    from: int,
    total: u64,
    max_size: u64,
    retained: Option<Seq<u8>>,
    outcomes: spec_fn(int) -> bool,
) -> (Seq<int>, u64)
    decreases list.len() - from,
    via eviction_run_terminates
{
    let at = candidate(list, from, retained);
    if total <= max_size || !(0 <= from <= at < list.len()) {
        (Seq::empty(), total)
    } else {
        let left = if outcomes(at) {
            reduced(total, list[at].1)
        } else {
            total
        };
        let rest = eviction_run(list, at + 1, left, max_size, retained, outcomes);
        (seq![at] + rest.0, rest.1)
    }
}

#[via_fn]
proof fn eviction_run_terminates(
    list: Seq<Completed>,
    from: int,
    total: u64,
    max_size: u64,
    retained: Option<Seq<u8>>,
    outcomes: spec_fn(int) -> bool,
) {
}

/// The candidate is at or behind where the search starts.
proof fn lemma_candidate(list: Seq<Completed>, from: int, retained: Option<Seq<u8>>)
    requires
        0 <= from,
    ensures
        from <= list.len() ==> from <= candidate(list, from, retained) <= list.len(),
        candidate(list, from, retained) < list.len() ==> !is_retained(
            retained,
            list[candidate(list, from, retained)].2,
        ),
    decreases list.len() - from,
{
    if from < list.len() && is_retained(retained, list[from].2) {
        lemma_candidate(list, from + 1, retained);
    }
}

/// Whether removing an entry succeeded, in the order of age.
pub open spec fn removal(outcomes: Seq<bool>) -> spec_fn(int) -> bool {
    |at: int| 0 <= at < outcomes.len() && outcomes[at]
}

/// The size of the cache once entries were evicted, when removing the entry at
/// each position in the order of age succeeds or not as `outcomes` says.
pub fn prune_rlib_cache_entries_with(
    roots: &Vec<RootListing>,
    max_size: Option<u64>,
    retained_entry: Option<Vec<u8>>,
    outcomes: &Vec<bool>,
) -> (size: Result<u64, PruneError>)
    ensures
        match roots_found(roots@) {
            Err(error) => size == Err::<u64, PruneError>(error),
            Ok(found) => match max_size {
                None => size == Ok::<u64, PruneError>(total_size(found)),
                Some(max_size) => {
                    let run = eviction_run(
                        sorted(found, age_order()),
                        0,
                        total_size(found),
                        max_size,
                        optional(retained_entry),
                        removal(outcomes@),
                    );
                    size == if run.1 > max_size {
                        Err::<u64, PruneError>(PruneError::EvictionFailed)
                    } else {
                        Ok::<u64, PruneError>(run.1)
                    }
                },
            },
        },
{
    let ghost kept = optional(retained_entry);
    let mut eviction = match start_pruning(roots, max_size, retained_entry) {
        Err(error) => {
            return Err(error);
        },
        Ok(Pruning::WithinLimit(size)) => {
            return Ok(size);
        },
        Ok(Pruning::Evict(eviction)) => eviction,
    };
    let ghost list = eviction.list();
    let ghost goal = eviction_run(
        list,
        0,
        eviction.total,
        eviction.max_size,
        kept,
        removal(outcomes@),
    );
    let ghost limit = eviction.max_size;
    loop
        invariant
            eviction.well_formed(),
            eviction.list() == list,
            eviction.max_size == limit,
            optional(eviction.retained) == kept,
            goal.1 == eviction_run(
                list,
                eviction.position as int,
                eviction.total,
                limit,
                kept,
                removal(outcomes@),
            ).1,
        ensures
            goal.1 == eviction.total,
            eviction.max_size == limit,
        decreases eviction.entries@.len() - eviction.position,
    {
        proof {
            lemma_candidate(list, eviction.position as int, kept);
            assert(list.len() == eviction.entries@.len());
        }
        match eviction.next_eviction() {
            None => {
                break;
            },
            Some(at) => {
                let removed = at < outcomes.len() && outcomes[at];
                proof {
                    assert(list[at as int] == eviction.entries@[at as int].plain());
                    assert(removed == removal(outcomes@)(at as int));
                }
                eviction.evicted(at, removed);
            },
        }
    }
    eviction.finish()
}

/// An eviction never tries the entry that is kept in any case, tries entries in
/// the order of their age, and never lets the size grow.
pub proof fn law_eviction_run(
    list: Seq<Completed>,
    from: int,
    total: u64,
    max_size: u64,
    retained: Option<Seq<u8>>,
    outcomes: spec_fn(int) -> bool,
)
    requires
        0 <= from,
    ensures
        ({
            let run = eviction_run(list, from, total, max_size, retained, outcomes);
            &&& run.1 <= total
            &&& forall|i: int|
                0 <= i < run.0.len() ==> from <= #[trigger] run.0[i] < list.len() && !is_retained(
                    retained,
                    list[run.0[i]].2,
                )
            &&& forall|i: int, j: int|
                0 <= i < j < run.0.len() ==> #[trigger] run.0[i] < #[trigger] run.0[j]
        }),
    decreases list.len() - from,
{
    lemma_candidate(list, from, retained);
    let at = candidate(list, from, retained);
    if !(total <= max_size || !(0 <= from <= at < list.len())) {
        let left = if outcomes(at) {
            reduced(total, list[at].1)
        } else {
            total
        };
        law_eviction_run(list, at + 1, left, max_size, retained, outcomes);
        let rest = eviction_run(list, at + 1, left, max_size, retained, outcomes);
        let run = eviction_run(list, from, total, max_size, retained, outcomes);
        assert(run.0 == seq![at] + rest.0);
        assert forall|i: int| 0 <= i < run.0.len() implies from <= #[trigger] run.0[i] < list.len()
            && !is_retained(retained, list[run.0[i]].2) by {
            if i > 0 {
                assert(run.0[i] == rest.0[i - 1]);
            }
        }
        assert forall|i: int, j: int| 0 <= i < j < run.0.len() implies #[trigger] run.0[i]
            < #[trigger] run.0[j] by {
            assert(run.0[j] == rest.0[j - 1]);
            if i > 0 {
                assert(run.0[i] == rest.0[i - 1]);
            }
        }
    }
}

/// An eviction that ends with the cache still too large has tried every entry
/// that may be evicted.
pub proof fn law_failed_eviction_tried_everything(
    list: Seq<Completed>,
    from: int,
    total: u64,
    max_size: u64,
    retained: Option<Seq<u8>>,
    outcomes: spec_fn(int) -> bool,
    at: int,
)
    requires
        0 <= from <= at < list.len(),
        !is_retained(retained, list[at].2),
        eviction_run(list, from, total, max_size, retained, outcomes).1 > max_size,
    ensures
        eviction_run(list, from, total, max_size, retained, outcomes).0.contains(at),
    decreases list.len() - from,
{
    lemma_candidate(list, from, retained);
    let first = candidate(list, from, retained);
    let run = eviction_run(list, from, total, max_size, retained, outcomes);
    law_eviction_run(list, from, total, max_size, retained, outcomes);
    lemma_candidate_is_first(list, from, retained, at);
    assert(first <= at);
    let left = if outcomes(first) {
        reduced(total, list[first].1)
    } else {
        total
    };
    let rest = eviction_run(list, first + 1, left, max_size, retained, outcomes);
    assert(run.0 == seq![first] + rest.0);
    if first == at {
        assert(run.0[0] == at);
    } else {
        law_failed_eviction_tried_everything(
            list,
            first + 1,
            left,
            max_size,
            retained,
            outcomes,
            at,
        );
        let k = choose|k: int| 0 <= k < rest.0.len() && rest.0[k] == at;
        assert(run.0[k + 1] == at);
    }
}

/// Nothing before the candidate may be evicted.
proof fn lemma_candidate_is_first(
    list: Seq<Completed>,
    from: int,
    retained: Option<Seq<u8>>,
    at: int,
)
    requires
        0 <= from <= at < list.len(),
        !is_retained(retained, list[at].2),
    ensures
        candidate(list, from, retained) <= at,
    decreases at - from,
{
    if from < at && is_retained(retained, list[from].2) {
        lemma_candidate_is_first(list, from + 1, retained, at);
    }
}

/// The size state that is written once entries have been pruned: what is known
/// of the size, or that nothing is where pruning failed or something is being
/// removed still.
pub fn reconcile_rlib_cache_size(pruned: Result<u64, PruneError>, has_transients: bool) -> (state: String)
    ensures
        state@ == match pruned {
            Ok(size) => if has_transients {
                dirty_state()
            } else {
                size_state(size as nat)
            },
            Err(_) => dirty_state(),
        },
{
    match pruned {
        Ok(size) => write_rlib_cache_size(has_transients, size),
        Err(_) => mark_rlib_cache_size_dirty(),
    }
}

} // verus!
