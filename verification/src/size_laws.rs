//! How large entries are, and which of them are evicted first.

use vstd::prelude::*;
use vstd::seq_lib::*;
use vstd::string::*;

use crate::bytes::utf8;
use crate::cache_size::directory_size;
use crate::cache_size::nodes_size;
use crate::cache_size::within_limit;
use crate::cache_size::SizeError;
use crate::cache_size::SizedDirectory;
use crate::cache_size::SizedNode;
use crate::digest::lossy_text;
use crate::disk::FileKind;
use crate::disk::Lookup;
use crate::disk::Timestamp;
use crate::ordering::is_ranking;
use crate::ordering::law_sorting_keeps_items;
use crate::ordering::law_sorting_orders;
use crate::ordering::sorted;
use crate::pruning::age_order;
use crate::pruning::candidate;
use crate::pruning::entries_found;
use crate::pruning::eviction_run;
use crate::pruning::law_eviction_run;
use crate::pruning::root_found;
use crate::pruning::roots_found;
use crate::pruning::total_size;
use crate::pruning::Completed;
use crate::pruning::EntryListing;
use crate::pruning::RootListing;
use crate::unix_path::file_name;

verus! {

/// The size of a node that is a file or a directory with a size.
pub open spec fn node_size(node: SizedNode) -> Option<int> {
    match node {
        SizedNode::File(len) => Some(len as int),
        SizedNode::Directory(inner) => match directory_size(inner) {
            Ok(size) => Some(size as int),
            Err(_) => None,
        },
        _ => None,
    }
}

/// A number, or the largest size where it is greater.
pub open spec fn at_most_largest(sum: int) -> int {
    if sum <= u64::MAX {
        sum
    } else {
        u64::MAX as int
    }
}

/// The size of the first nodes is that of the same nodes elsewhere.
proof fn lemma_same_nodes(left: Vec<SizedNode>, right: Vec<SizedNode>, count: int)
    requires
        0 <= count <= left@.len(),
        count <= right@.len(),
        forall|i: int| 0 <= i < count ==> left@[i] == right@[i],
    ensures
        nodes_size(left, count) == nodes_size(right, count),
    decreases count,
{
    if count > 0 {
        lemma_same_nodes(left, right, count - 1);
        assert(left@[count - 1] == right@[count - 1]);
    }
}

/// The size of a directory grows by that of a node that is added to it, up to the
/// largest size. It has a size where it had one and the node has one.
pub proof fn law_sizes_add_up(left: SizedDirectory, right: SizedDirectory, node: SizedNode)
    requires
        left.nodes is Found,
        right.nodes is Found,
        right.nodes->Found_0@ == left.nodes->Found_0@.push(node),
    ensures
        directory_size(right) is Ok == (directory_size(left) is Ok && node_size(node) is Some),
        directory_size(right) is Ok ==> directory_size(right)->Ok_0 == at_most_largest(
            directory_size(left)->Ok_0 + node_size(node)->Some_0,
        ),
{
    let l = left.nodes->Found_0;
    let r = right.nodes->Found_0;
    let count = l@.len() as int;
    lemma_same_nodes(l, r, count);
    assert(r@[count] == node);
}

/// An empty directory has size zero, and what is no directory or could not be
/// read has none.
pub proof fn law_empty_directories_are_empty(directory: SizedDirectory)
    ensures
        directory.nodes is Found && directory.nodes->Found_0@.len() == 0 ==> directory_size(
            directory,
        ) == Ok::<u64, SizeError>(0),
        directory.nodes is Missing ==> directory_size(directory) is Err,
        directory.nodes is Failed ==> directory_size(directory) is Err,
{
}

/// What a node adds to a sum.
spec fn counted_node() -> spec_fn(SizedNode, int) -> int {
    |node: SizedNode, sum: int|
        sum + match node_size(node) {
            Some(size) => size,
            None => 0,
        }
}

/// Adding up nodes from the back, starting with a sum.
proof fn lemma_fold_start(list: Seq<SizedNode>, start: int)
    ensures
        list.fold_right(counted_node(), start) == list.fold_right(counted_node(), 0) + start,
        list.fold_right(counted_node(), 0) >= 0,
    decreases list.len(),
{
    reveal_with_fuel(Seq::fold_right, 2);
    if list.len() > 0 {
        let f = counted_node();
        lemma_fold_start(list.drop_last(), f(list.last(), start));
        lemma_fold_start(list.drop_last(), f(list.last(), 0));
    }
}

/// Where nodes have a size, each has one, and it is their sum.
proof fn lemma_nodes_sum(nodes: Vec<SizedNode>, count: int)
    requires
        0 <= count <= nodes@.len(),
        nodes_size(nodes, count) is Ok,
    ensures
        nodes_size(nodes, count)->Ok_0 == at_most_largest(
            nodes@.take(count).fold_right(counted_node(), 0),
        ),
        forall|i: int|
            0 <= i < count ==> node_size(#[trigger] nodes@[i]) is Some && node_size(
                nodes@[i],
            )->Some_0 <= nodes_size(nodes, count)->Ok_0,
    decreases count,
{
    reveal_with_fuel(Seq::fold_right, 2);
    let list = nodes@.take(count);
    if count > 0 {
        lemma_nodes_sum(nodes, count - 1);
        assert(list.drop_last() =~= nodes@.take(count - 1));
        assert(list.last() == nodes@[count - 1]);
        let f = counted_node();
        lemma_fold_start(list.drop_last(), f(list.last(), 0));
        lemma_fold_start(list.drop_last(), 0);
    } else {
        assert(list =~= Seq::empty());
    }
}

/// The size of a directory is that of all that stands in it, in whatever order
/// it was read: of two directories of the same nodes with sizes, both have the
/// same. It is at least that of each node, each node has one, and it is not less
/// than the sum unless that is larger than any size.
pub proof fn law_sizes_do_not_depend_on_order(left: SizedDirectory, right: SizedDirectory)
    requires
        left.nodes is Found,
        right.nodes is Found,
        left.nodes->Found_0@.to_multiset() == right.nodes->Found_0@.to_multiset(),
        directory_size(left) is Ok,
        directory_size(right) is Ok,
    ensures
        directory_size(left)->Ok_0 == directory_size(right)->Ok_0,
        forall|i: int|
            0 <= i < left.nodes->Found_0@.len() ==> node_size(
                #[trigger] left.nodes->Found_0@[i],
            ) is Some && node_size(left.nodes->Found_0@[i])->Some_0 <= directory_size(left)->Ok_0,
{
    let l = left.nodes->Found_0;
    let r = right.nodes->Found_0;
    lemma_nodes_sum(l, l@.len() as int);
    lemma_nodes_sum(r, r@.len() as int);
    assert(l@.take(l@.len() as int) =~= l@);
    assert(r@.take(r@.len() as int) =~= r@);
    assert(commutative_foldr(counted_node()));
    lemma_fold_right_permutation(l@, r@, counted_node(), 0);
}

/// A symbolic link, a node of another kind, one that could not be read, or a
/// directory without a size, wherever it stands, leaves a directory without a
/// size.
pub proof fn law_unsized_nodes_have_no_size(directory: SizedDirectory, at: int)
    requires
        directory.nodes is Found,
        0 <= at < directory.nodes->Found_0@.len(),
        match directory.nodes->Found_0@[at] {
            SizedNode::File(_) => false,
            SizedNode::Directory(inner) => directory_size(inner) is Err,
            _ => true,
        },
    ensures
        directory_size(directory) is Err,
{
    let nodes = directory.nodes->Found_0;
    if directory_size(directory) is Ok {
        lemma_nodes_sum(nodes, nodes@.len() as int);
        assert(node_size(nodes@[at]) is Some);
    }
}

/// A limit is inclusive, and without one every size is within.
pub proof fn law_limits_are_inclusive(size: u64, limit: u64)
    ensures
        within_limit(size, Some(limit)) == (size <= limit),
        within_limit(size, None),
{
}

/// The sizes of entries together, as a number without bounds.
pub open spec fn sum_of_sizes(list: Seq<Completed>) -> int
    decreases list.len(),
{
    if list.len() == 0 {
        0
    } else {
        sum_of_sizes(list.drop_last()) + list.last().1
    }
}

/// The size of the cache is the sum of the sizes of its entries, up to the
/// largest size.
pub proof fn law_cache_size_is_the_sum_of_entries(list: Seq<Completed>)
    ensures
        total_size(list) == at_most_largest(sum_of_sizes(list)),
        sum_of_sizes(list) >= 0,
    decreases list.len(),
{
    if list.len() > 0 {
        law_cache_size_is_the_sum_of_entries(list.drop_last());
    }
}

/// Whether a completed entry stands below an action root of the cache.
pub open spec fn is_completed_entry(root: RootListing, entry: EntryListing) -> bool {
    &&& root.kind == Lookup::Found(FileKind::Directory)
    &&& root.entries is Some
    &&& root.entries->Some_0@.contains(entry)
    &&& entry.kind == Lookup::Found(FileKind::Directory)
    &&& entry.complete
    &&& match file_name(entry.path@) {
        Some(name) => !"."@.is_prefix_of(lossy_text(name)),
        None => true,
    }
}

/// Whether an entry is one that was found, with its size and its time, which is
/// the start of time where it is not known.
pub open spec fn is_listed_as(entry: EntryListing, found: Completed) -> bool {
    &&& found.2 == entry.path@
    &&& directory_size(entry.directory) == Ok::<u64, SizeError>(found.1)
    &&& match entry.modified {
        Some(modified) => found.0 == modified,
        None => found.0.seconds == 0 && found.0.nanoseconds == 0,
    }
}

/// Whether an entry is listed among those that were found.
pub open spec fn is_listed_in(found: Seq<Completed>, entry: EntryListing) -> bool {
    exists|k: int| 0 <= k < found.len() && is_listed_as(entry, #[trigger] found[k])
}

/// Whether what was found is a completed entry below an action root.
pub open spec fn stands_below(root: RootListing, item: Completed) -> bool {
    exists|entry: EntryListing| #[trigger]
        is_completed_entry(root, entry) && is_listed_as(entry, item)
}

/// Whether what was found is a completed entry of the cache.
pub open spec fn stands_in_cache(roots: Seq<RootListing>, item: Completed) -> bool {
    exists|r: int| 0 <= r < roots.len() && #[trigger] stands_below(roots[r], item)
}

/// What is found among entries.
proof fn lemma_entries_found(root: RootListing, entries: Seq<EntryListing>)
    requires
        root.kind == Lookup::Found(FileKind::Directory),
        root.entries is Some,
        forall|i: int|
            0 <= i < entries.len() ==> root.entries->Some_0@.contains(#[trigger] entries[i]),
        entries_found(entries) is Ok,
    ensures
        forall|i: int|
            0 <= i < entries.len() && is_completed_entry(root, #[trigger] entries[i])
                ==> is_listed_in(entries_found(entries)->Ok_0, entries[i]),
        forall|k: int|
            0 <= k < entries_found(entries)->Ok_0.len() ==> stands_below(
                root,
                #[trigger] entries_found(entries)->Ok_0[k],
            ),
    decreases entries.len(),
{
    if entries.len() > 0 {
        let before = entries.drop_last();
        let last = entries.last();
        assert forall|i: int| 0 <= i < before.len() implies root.entries->Some_0@.contains(
            #[trigger] before[i],
        ) by {
            assert(before[i] == entries[i]);
        }
        lemma_entries_found(root, before);
        let earlier = entries_found(before)->Ok_0;
        let found = entries_found(entries)->Ok_0;
        assert(last == entries[entries.len() - 1]);
        assert forall|i: int|
            0 <= i < entries.len() && is_completed_entry(
                root,
                #[trigger] entries[i],
            ) implies is_listed_in(found, entries[i]) by {
            if i < before.len() {
                assert(before[i] == entries[i]);
                let k = choose|k: int|
                    0 <= k < earlier.len() && is_listed_as(before[i], #[trigger] earlier[k]);
                assert(found[k] == earlier[k]);
            } else {
                assert(is_listed_as(entries[i], found[found.len() - 1]));
            }
        }
        assert forall|k: int| 0 <= k < found.len() implies stands_below(
            root,
            #[trigger] found[k],
        ) by {
            if k < earlier.len() {
                assert(found[k] == earlier[k]);
            } else {
                assert(is_completed_entry(root, last) && is_listed_as(last, found[k]));
            }
        }
    }
}

/// Every completed entry of the cache is found, with its size and its time, and
/// nothing else is: what is hidden, incomplete, or no directory is not.
pub proof fn law_completed_entries_are_found(roots: Seq<RootListing>)
    requires
        roots_found(roots) is Ok,
    ensures
        forall|r: int, entry: EntryListing|
            0 <= r < roots.len() && #[trigger] is_completed_entry(roots[r], entry)
                ==> is_listed_in(roots_found(roots)->Ok_0, entry),
        forall|k: int|
            0 <= k < roots_found(roots)->Ok_0.len() ==> stands_in_cache(
                roots,
                #[trigger] roots_found(roots)->Ok_0[k],
            ),
    decreases roots.len(),
{
    if roots.len() > 0 {
        let before = roots.drop_last();
        let last = roots.last();
        law_completed_entries_are_found(before);
        let earlier = roots_found(before)->Ok_0;
        let more = root_found(last)->Ok_0;
        let found = roots_found(roots)->Ok_0;
        assert(found == earlier + more);
        assert(last == roots[roots.len() - 1]);
        if last.kind == Lookup::Found(FileKind::Directory) {
            lemma_entries_found(last, last.entries->Some_0@);
        }
        assert forall|r: int, entry: EntryListing|
            0 <= r < roots.len() && #[trigger] is_completed_entry(
                roots[r],
                entry,
            ) implies is_listed_in(found, entry) by {
            if r < before.len() {
                assert(before[r] == roots[r]);
                assert(is_completed_entry(before[r], entry));
                let k = choose|k: int|
                    0 <= k < earlier.len() && is_listed_as(entry, #[trigger] earlier[k]);
                assert(found[k] == earlier[k]);
            } else {
                let entries = last.entries->Some_0@;
                let i = choose|i: int| 0 <= i < entries.len() && entries[i] == entry;
                assert(is_completed_entry(last, entries[i]));
                let k = choose|k: int|
                    0 <= k < more.len() && is_listed_as(entries[i], #[trigger] more[k]);
                assert(found[earlier.len() + k] == more[k]);
            }
        }
        assert forall|k: int| 0 <= k < found.len() implies stands_in_cache(
            roots,
            #[trigger] found[k],
        ) by {
            if k < earlier.len() {
                assert(found[k] == earlier[k]);
                let r = choose|r: int|
                    0 <= r < before.len() && #[trigger] stands_below(before[r], earlier[k]);
                assert(roots[r] == before[r]);
                assert(stands_below(roots[r], found[k]));
            } else {
                assert(found[k] == more[k - earlier.len()]);
                assert(stands_below(roots[roots.len() - 1], found[k]));
            }
        }
    }
}

/// Whether an entry of the cache is one that pruning can go on with.
pub open spec fn is_prunable_entry(entry: EntryListing) -> bool {
    entry.kind is Found && entry.kind->Found_0 != FileKind::Symlink
}

/// Whether an action root is one that pruning can go on with: it can be told
/// what it is, it is no symbolic link unless it is the recorded size, and its
/// entries are such.
pub open spec fn is_prunable_root(root: RootListing) -> bool {
    &&& root.kind is Found
    &&& root.kind->Found_0 == FileKind::Symlink ==> root.name@ == utf8(
        ".cargo-artifact-cache-size"@,
    )
    &&& root.kind->Found_0 == FileKind::Directory ==> root.entries is Some && forall|i: int|
        0 <= i < root.entries->Some_0@.len() ==> is_prunable_entry(
            #[trigger] root.entries->Some_0@[i],
        )
}

/// Entries among which something is found are such that pruning can go on.
proof fn lemma_prunable_entries(entries: Seq<EntryListing>)
    requires
        entries_found(entries) is Ok,
    ensures
        forall|i: int| 0 <= i < entries.len() ==> is_prunable_entry(#[trigger] entries[i]),
    decreases entries.len(),
{
    if entries.len() > 0 {
        let before = entries.drop_last();
        lemma_prunable_entries(before);
        assert forall|i: int| 0 <= i < entries.len() implies is_prunable_entry(
            #[trigger] entries[i],
        ) by {
            if i < before.len() {
                assert(before[i] == entries[i]);
            }
        }
    }
}

/// Pruning does not follow symbolic links: a link among the action roots or the
/// entries, or something that could not be read, stops it.
pub proof fn law_pruning_does_not_follow_links(roots: Seq<RootListing>, at: int)
    requires
        0 <= at < roots.len(),
        !is_prunable_root(roots[at]),
    ensures
        roots_found(roots) is Err,
    decreases roots.len(),
{
    if at < roots.len() - 1 {
        law_pruning_does_not_follow_links(roots.drop_last(), at);
    } else if root_found(roots.last()) is Ok && roots.last().kind == Lookup::Found(
        FileKind::Directory,
    ) {
        lemma_prunable_entries(roots.last().entries->Some_0@);
    }
}

/// Entries are tried in the order of their age: none is behind one that was
/// modified later, and all of them are tried or none is lost.
pub proof fn law_oldest_entries_come_first(found: Seq<Completed>)
    ensures
        ({
            let list = sorted(found, age_order());
            &&& list.to_multiset() == found.to_multiset()
            &&& forall|i: int, j: int|
                0 <= i < j < list.len() ==> {
                    let a: Timestamp = (#[trigger] list[i]).0;
                    let b: Timestamp = (#[trigger] list[j]).0;
                    a.seconds < b.seconds || (a.seconds == b.seconds && a.nanoseconds
                        <= b.nanoseconds)
                }
        }),
{
    law_sorting_keeps_items(found, age_order());
    assert(is_ranking(age_order()));
    law_sorting_orders(found, age_order());
    let list = sorted(found, age_order());
    assert forall|i: int, j: int| 0 <= i < j < list.len() implies {
        let a: Timestamp = (#[trigger] list[i]).0;
        let b: Timestamp = (#[trigger] list[j]).0;
        a.seconds < b.seconds || (a.seconds == b.seconds && a.nanoseconds <= b.nanoseconds)
    } by {
        let order = age_order();
        assert(!order(list[j], list[i]));
    }
}

/// The sizes of the entries at positions whose removal succeeded.
pub open spec fn freed(
    list: Seq<Completed>,
    tried: Seq<int>,
    outcomes: spec_fn(int) -> bool,
) -> int
    decreases tried.len(),
{
    if tried.len() == 0 {
        0
    } else {
        freed(list, tried.drop_first(), outcomes) + if outcomes(tried[0]) {
            list[tried[0]].1 as int
        } else {
            0
        }
    }
}

/// The sizes of the entries from `from` on together.
spec fn size_from(list: Seq<Completed>, from: int) -> int
    decreases list.len() - from,
{
    if 0 <= from < list.len() {
        list[from].1 + size_from(list, from + 1)
    } else {
        0
    }
}

/// What is behind is no larger.
proof fn lemma_size_from(list: Seq<Completed>, from: int, at: int)
    requires
        0 <= from <= at <= list.len(),
    ensures
        0 <= size_from(list, at) <= size_from(list, from),
    decreases list.len() - from,
{
    if from < at {
        lemma_size_from(list, from + 1, at);
    } else if at < list.len() {
        lemma_size_from(list, at + 1, at + 1);
    }
}

/// The sum of all sizes, from the front.
proof fn lemma_size_from_all(list: Seq<Completed>, from: int)
    requires
        0 <= from <= list.len(),
    ensures
        size_from(list, from) == sum_of_sizes(list) - sum_of_sizes(list.take(from)),
    decreases list.len() - from,
{
    if from < list.len() {
        lemma_size_from_all(list, from + 1);
        assert(list.take(from + 1).drop_last() =~= list.take(from));
    } else {
        assert(list.take(from) =~= list);
    }
}

/// An eviction takes from the size of the cache exactly the sizes of the entries
/// that it removed, and tries an entry only while the cache is too large: what
/// was left before the last one was over the limit.
proof fn lemma_eviction_frees(
    list: Seq<Completed>,
    from: int,
    total: u64,
    max_size: u64,
    retained: Option<Seq<u8>>,
    outcomes: spec_fn(int) -> bool,
)
    requires
        0 <= from <= list.len(),
        size_from(list, from) <= total,
    ensures
        ({
            let run = eviction_run(list, from, total, max_size, retained, outcomes);
            &&& run.1 == total - freed(list, run.0, outcomes)
            &&& freed(list, run.0, outcomes) >= 0
            &&& forall|k: int|
                0 <= k < run.0.len() ==> total - freed(list, #[trigger] run.0.take(k), outcomes)
                    > max_size
        }),
    decreases list.len() - from,
{
    law_eviction_run(list, from, total, max_size, retained, outcomes);
    let run = eviction_run(list, from, total, max_size, retained, outcomes);
    let at = candidate(list, from, retained);
    if !(total <= max_size || !(0 <= from <= at < list.len())) {
        let left = if outcomes(at) {
            (total - list[at].1) as u64
        } else {
            total
        };
        lemma_size_from(list, from, at);
        lemma_size_from(list, at + 1, list.len() as int);
        assert(size_from(list, at) == list[at].1 + size_from(list, at + 1));
        lemma_eviction_frees(list, at + 1, left, max_size, retained, outcomes);
        let rest = eviction_run(list, at + 1, left, max_size, retained, outcomes);
        assert(run.0 == seq![at] + rest.0);
        assert(run.0.drop_first() =~= rest.0);
        assert forall|k: int| 0 <= k < run.0.len() implies total - freed(
            list,
            #[trigger] run.0.take(k),
            outcomes,
        ) > max_size by {
            let front = run.0.take(k);
            if k > 0 {
                assert(front.drop_first() =~= rest.0.take(k - 1));
                assert(total - freed(list, front, outcomes) == left - freed(
                    list,
                    rest.0.take(k - 1),
                    outcomes,
                ));
            }
        }
    } else {
        assert(run.0 =~= Seq::empty());
    }
}

/// An eviction takes from the size of the cache exactly the sizes of the entries
/// that it removed, and tries an entry only while what is left is over the
/// limit. So it removes no more than it has to. The entries together have to be
/// of a size that can be told.
pub proof fn law_evictions_free_what_they_remove(
    list: Seq<Completed>,
    max_size: u64,
    retained: Option<Seq<u8>>,
    outcomes: spec_fn(int) -> bool,
)
    requires
        sum_of_sizes(list) <= u64::MAX,
    ensures
        ({
            let run = eviction_run(list, 0, total_size(list), max_size, retained, outcomes);
            &&& run.1 == sum_of_sizes(list) - freed(list, run.0, outcomes)
            &&& forall|k: int|
                0 <= k < run.0.len() ==> sum_of_sizes(list) - freed(
                    list,
                    #[trigger] run.0.take(k),
                    outcomes,
                ) > max_size
        }),
{
    law_cache_size_is_the_sum_of_entries(list);
    lemma_size_from_all(list, 0);
    assert(list.take(0) =~= Seq::empty());
    lemma_eviction_frees(list, 0, total_size(list), max_size, retained, outcomes);
}

} // verus!
