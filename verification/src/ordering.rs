//! Stable insertion sorting by a strict order on the items.

use vstd::prelude::*;
use vstd::seq_lib::*;

verus! {

/// Items with a strict order.
pub trait Ranked: Sized {
    /// Whether `self` comes strictly before `other`.
    spec fn precedes(self, other: Self) -> bool;

    /// Whether `self` comes strictly before `other`.
    fn comes_before(&self, other: &Self) -> (before: bool)
        ensures
            before == (*self).precedes(*other),
    ;
}

/// The order of a type.
pub open spec fn order_of<T: Ranked>() -> spec_fn(T, T) -> bool {
    |a: T, b: T| a.precedes(b)
}

/// `list` with `item` put behind the last item that it does not precede.
pub open spec fn inserted<T>(list: Seq<T>, item: T, less: spec_fn(T, T) -> bool) -> Seq<T>
    decreases list.len(),
{
    if list.len() == 0 {
        seq![item]
    } else if less(item, list.last()) {
        inserted(list.drop_last(), item, less).push(list.last())
    } else {
        list.push(item)
    }
}

/// `list` in order: items of equal rank keep their relative order.
pub open spec fn sorted<T>(list: Seq<T>, less: spec_fn(T, T) -> bool) -> Seq<T>
    decreases list.len(),
{
    if list.len() == 0 {
        list
    } else {
        inserted(sorted(list.drop_last(), less), list.last(), less)
    }
}

/// Puts `item` into `list` behind the last item that it does not precede.
fn insert_ranked<T: Ranked>(list: &mut Vec<T>, item: T)
    ensures
        final(list)@ == inserted(old(list)@, item, order_of()),
{
    let ghost before = list@;
    let mut at: usize = list.len();
    proof {
        assert(before.take(at as int) =~= before);
        assert(before.skip(at as int) =~= Seq::<T>::empty());
        assert(inserted(before, item, order_of()) + Seq::<T>::empty() =~= inserted(before, item, order_of()));
    }
    while at > 0 && item.comes_before(&list[at - 1])
        invariant
            at <= list@.len(),
            list@ == before,
            inserted(before, item, order_of()) == inserted(before.take(at as int), item, order_of()) + before.skip(
                at as int,
            ),
        decreases at,
    {
        proof {
            assert(before.take(at as int).last() == before[at - 1]);
            assert(before.take(at as int).drop_last() =~= before.take(at - 1));
            assert(inserted(before.take(at - 1), item, order_of()).push(before[at - 1]) + before.skip(at as int)
                =~= inserted(before.take(at - 1), item, order_of()) + before.skip(at - 1));
        }
        at = at - 1;
    }
    proof {
        if at > 0 {
            assert(before.take(at as int).last() == before[at - 1]);
            assert(inserted(before.take(at as int), item, order_of()) == before.take(at as int).push(item));
        } else {
            assert(before.take(0) =~= Seq::<T>::empty());
            assert(before.take(0).push(item) =~= seq![item]);
        }
    }
    list.insert(at, item);
    proof {
        assert(list@ =~= before.take(at as int).push(item) + before.skip(at as int));
    }
}

/// The items in order.
pub fn sort<T: Ranked>(items: Vec<T>) -> (list: Vec<T>)
    ensures
        list@ == sorted(items@, order_of()),
{
    let ghost all = items@;
    let mut rest = items;
    let mut reversed: Vec<T> = Vec::new();
    proof {
        assert(all.take(rest@.len() as int) =~= rest@);
        assert(reversed@ =~= all.skip(rest@.len() as int).reverse());
    }
    while rest.len() > 0
        invariant
            rest@.len() <= all.len(),
            rest@ == all.take(rest@.len() as int),
            reversed@ == all.skip(rest@.len() as int).reverse(),
        decreases rest@.len(),
    {
        let ghost length = rest@.len() as int;
        if let Some(item) = rest.pop() {
            reversed.push(item);
            proof {
                assert(rest@ =~= all.take(length - 1));
                assert(reversed@ =~= all.skip(length - 1).reverse());
            }
        }
    }
    let mut list: Vec<T> = Vec::new();
    proof {
        assert(all.take(0) =~= Seq::<T>::empty());
        assert(list@ =~= sorted(all.take(0), order_of()));
    }
    while reversed.len() > 0
        invariant
            reversed@.len() <= all.len(),
            reversed@ == all.skip(all.len() - reversed@.len()).reverse(),
            list@ == sorted(all.take(all.len() - reversed@.len()), order_of()),
        decreases reversed@.len(),
    {
        let ghost left = reversed@.len() as int;
        if let Some(item) = reversed.pop() {
            proof {
                assert(item == all[all.len() - left]);
                assert(reversed@ =~= all.skip(all.len() - left + 1).reverse());
                assert(all.take(all.len() - left + 1).drop_last() =~= all.take(all.len() - left));
                assert(all.take(all.len() - left + 1).last() == item);
            }
            insert_ranked(&mut list, item);
        }
    }
    proof {
        assert(all.take(all.len() as int) =~= all);
    }
    list
}

/// Inserting keeps the items and adds the new one.
pub proof fn lemma_inserted_multiset<T>(list: Seq<T>, item: T, less: spec_fn(T, T) -> bool)
    ensures
        inserted(list, item, less).to_multiset() == list.to_multiset().insert(item),
        inserted(list, item, less).len() == list.len() + 1,
    decreases list.len(),
{
    broadcast use group_to_multiset_ensures;

    if list.len() == 0 {
        assert(seq![item] =~= list.push(item));
        list.to_multiset_ensures();
    } else if less(item, list.last()) {
        let rest = list.drop_last();
        lemma_inserted_multiset(rest, item, less);
        assert(rest.push(list.last()) =~= list);
        rest.to_multiset_ensures();
        inserted(rest, item, less).to_multiset_ensures();
        assert(inserted(rest, item, less).push(list.last()).to_multiset()
            =~= list.to_multiset().insert(item));
    } else {
        list.to_multiset_ensures();
    }
}

/// Sorting neither adds nor loses an item.
pub proof fn law_sorting_keeps_items<T>(list: Seq<T>, less: spec_fn(T, T) -> bool)
    ensures
        sorted(list, less).to_multiset() == list.to_multiset(),
        sorted(list, less).len() == list.len(),
    decreases list.len(),
{
    broadcast use group_to_multiset_ensures;

    if list.len() > 0 {
        law_sorting_keeps_items(list.drop_last(), less);
        lemma_inserted_multiset(sorted(list.drop_last(), less), list.last(), less);
        assert(list.drop_last().push(list.last()) =~= list);
        list.drop_last().to_multiset_ensures();
    }
}

/// Whether no item of `list` precedes one before it.
pub open spec fn in_order<T>(list: Seq<T>, less: spec_fn(T, T) -> bool) -> bool {
    forall|i: int, j: int|
        0 <= i < j < list.len() ==> !less(#[trigger] list[j], #[trigger] list[i])
}

/// Whether an order is transitive both in what precedes and in what does not,
/// and no two items precede each other.
pub open spec fn is_ranking<T>(less: spec_fn(T, T) -> bool) -> bool {
    &&& forall|a: T, b: T, c: T|
        #![trigger less(a, b), less(b, c)]
        !less(a, b) && !less(b, c) ==> !less(a, c)
    &&& forall|a: T, b: T| #[trigger] less(a, b) ==> !less(b, a)
}

/// Inserting into items in order leaves them in order.
proof fn lemma_inserted_in_order<T>(list: Seq<T>, item: T, less: spec_fn(T, T) -> bool)
    requires
        is_ranking(less),
        in_order(list, less),
    ensures
        in_order(inserted(list, item, less), less),
        forall|i: int|
            0 <= i < inserted(list, item, less).len() ==> #[trigger] inserted(list, item, less)[i]
                == item || list.contains(inserted(list, item, less)[i]),
    decreases list.len(),
{
    let result = inserted(list, item, less);
    if list.len() == 0 {
    } else if less(item, list.last()) {
        let rest = list.drop_last();
        assert(in_order(rest, less)) by {
            assert forall|i: int, j: int| 0 <= i < j < rest.len() implies !less(
                #[trigger] rest[j],
                #[trigger] rest[i],
            ) by {
                assert(rest[i] == list[i]);
                assert(rest[j] == list[j]);
            }
        }
        lemma_inserted_in_order(rest, item, less);
        let inner = inserted(rest, item, less);
        assert forall|i: int| 0 <= i < result.len() implies #[trigger] result[i] == item
            || list.contains(result[i]) by {
            if i < inner.len() {
                assert(result[i] == inner[i]);
                if inner[i] != item {
                    let k = choose|k: int| 0 <= k < rest.len() && rest[k] == inner[i];
                    assert(list[k] == inner[i]);
                }
            } else {
                assert(result[i] == list[list.len() - 1]);
            }
        }
        assert forall|i: int, j: int| 0 <= i < j < result.len() implies !less(
            #[trigger] result[j],
            #[trigger] result[i],
        ) by {
            assert(result[i] == inner[i]);
            if j < inner.len() {
                assert(result[j] == inner[j]);
            } else {
                assert(result[j] == list.last());
                if inner[i] == item {
                    assert(less(item, list.last()));
                } else {
                    let k = choose|k: int| 0 <= k < rest.len() && rest[k] == inner[i];
                    assert(list[k] == inner[i]);
                    assert(!less(list[list.len() - 1], list[k]));
                }
            }
        }
    } else {
        assert forall|i: int, j: int| 0 <= i < j < result.len() implies !less(
            #[trigger] result[j],
            #[trigger] result[i],
        ) by {
            if j == list.len() {
                assert(result[j] == item);
                assert(result[i] == list[i]);
                if i < list.len() - 1 {
                    assert(!less(list[list.len() - 1], list[i]));
                    assert(!less(item, list.last()));
                    assert(!less(list.last(), list[i]));
                }
            } else {
                assert(result[i] == list[i]);
                assert(result[j] == list[j]);
            }
        }
        assert forall|i: int| 0 <= i < result.len() implies #[trigger] result[i] == item
            || list.contains(result[i]) by {
            if i < list.len() {
                assert(result[i] == list[i]);
            }
        }
    }
}

/// Sorting puts the items in order.
pub proof fn law_sorting_orders<T>(list: Seq<T>, less: spec_fn(T, T) -> bool)
    requires
        is_ranking(less),
    ensures
        in_order(sorted(list, less), less),
    decreases list.len(),
{
    if list.len() > 0 {
        law_sorting_orders(list.drop_last(), less);
        lemma_inserted_in_order(sorted(list.drop_last(), less), list.last(), less);
    }
}

/// Inserting by a key and taking keys commute.
proof fn lemma_inserted_keys<T, K>(
    list: Seq<T>,
    item: T,
    less: spec_fn(T, T) -> bool,
    key: spec_fn(T) -> K,
    key_less: spec_fn(K, K) -> bool,
)
    requires
        forall|a: T, b: T| #[trigger] less(a, b) == key_less(key(a), key(b)),
    ensures
        inserted(list, item, less).map_values(key) == inserted(
            list.map_values(key),
            key(item),
            key_less,
        ),
    decreases list.len(),
{
    if list.len() == 0 {
        assert(inserted(list, item, less).map_values(key) =~= seq![key(item)]);
    } else if less(item, list.last()) {
        lemma_inserted_keys(list.drop_last(), item, less, key, key_less);
        assert(list.map_values(key).drop_last() =~= list.drop_last().map_values(key));
        assert(inserted(list, item, less).map_values(key) =~= inserted(
            list.drop_last(),
            item,
            less,
        ).map_values(key).push(key(list.last())));
    } else {
        assert(list.push(item).map_values(key) =~= list.map_values(key).push(key(item)));
    }
}

/// Sorting by a key and taking keys commute.
pub proof fn lemma_sorted_keys<T, K>(
    list: Seq<T>,
    less: spec_fn(T, T) -> bool,
    key: spec_fn(T) -> K,
    key_less: spec_fn(K, K) -> bool,
)
    requires
        forall|a: T, b: T| #[trigger] less(a, b) == key_less(key(a), key(b)),
    ensures
        sorted(list, less).map_values(key) == sorted(list.map_values(key), key_less),
    decreases list.len(),
{
    if list.len() == 0 {
        assert(sorted(list, less).map_values(key) =~= sorted(list.map_values(key), key_less));
    } else {
        lemma_sorted_keys(list.drop_last(), less, key, key_less);
        lemma_inserted_keys(
            sorted(list.drop_last(), less),
            list.last(),
            less,
            key,
            key_less,
        );
        assert(list.map_values(key).drop_last() =~= list.drop_last().map_values(key));
    }
}

/// Every item of a sorted list is an item of the list.
pub proof fn lemma_sorted_members<T>(list: Seq<T>, less: spec_fn(T, T) -> bool)
    ensures
        sorted(list, less).len() == list.len(),
        forall|i: int|
            0 <= i < sorted(list, less).len() ==> list.contains(#[trigger] sorted(list, less)[i]),
{
    broadcast use group_to_multiset_ensures;

    law_sorting_keeps_items(list, less);
    let result = sorted(list, less);
    assert forall|i: int| 0 <= i < result.len() implies list.contains(#[trigger] result[i]) by {
        assert(result.contains(result[i]));
        result.to_multiset_ensures();
        list.to_multiset_ensures();
        assert(result.to_multiset().count(result[i]) > 0);
        assert(list.to_multiset().count(result[i]) > 0);
    }
}

/// Every item of a list is an item of the sorted list.
pub proof fn lemma_sorted_holds<T>(list: Seq<T>, less: spec_fn(T, T) -> bool, index: int)
    requires
        0 <= index < list.len(),
    ensures
        sorted(list, less).contains(list[index]),
{
    broadcast use group_to_multiset_ensures;

    law_sorting_keeps_items(list, less);
    let result = sorted(list, less);
    assert(list.contains(list[index]));
    result.to_multiset_ensures();
    list.to_multiset_ensures();
    assert(list.to_multiset().count(list[index]) > 0);
    assert(result.to_multiset().count(list[index]) > 0);
}

} // verus!
