//! The order in which the jobs for units are queued.

use vstd::prelude::*;

use crate::preflight::clear_count;
use crate::preflight::lemma_clear_count_all;
use crate::preflight::lemma_clear_count_update;
use crate::reach::is_edge_list;
use crate::reach::is_reachable;
use crate::reach::lemma_closed;
use crate::reach::lemma_step;
use crate::reach::reaches;
use crate::recorder::lemma_contains_push;

verus! {

/// How far queueing has come.
#[verifier::ext_equal]
pub struct Queueing {
    /// The units that were entered.
    pub entered: Seq<bool>,
    /// The units whose jobs were queued.
    pub queued: Seq<usize>,
}

/// Queueing a unit and what it depends on: the unit itself first, unless it is
/// skipped, then its dependencies, each where it was not entered before. `depth`
/// bounds how deep it goes.
pub open spec fn queued(
    edges: Seq<Vec<usize>>,
    skipped: Seq<bool>,
    unit: usize,
    state: Queueing,
    depth: nat,
) -> Queueing
    decreases depth, 0nat,
{
    if depth == 0 || state.entered[unit as int] {
        state
    } else {
        queued_all(
            edges,
            skipped,
            edges[unit as int]@,
            Queueing {
                entered: state.entered.update(unit as int, true),
                queued: if skipped[unit as int] {
                    state.queued
                } else {
                    state.queued.push(unit)
                },
            },
            (depth - 1) as nat,
        )
    }
}

/// Queueing units in order.
pub open spec fn queued_all(
    edges: Seq<Vec<usize>>,
    skipped: Seq<bool>,
    list: Seq<usize>,
    state: Queueing,
    depth: nat,
) -> Queueing
    decreases depth, list.len(),
{
    if list.len() == 0 {
        state
    } else {
        queued(
            edges,
            skipped,
            list.last(),
            queued_all(edges, skipped, list.drop_last(), state, depth),
            depth,
        )
    }
}

/// Queues a unit and what it depends on. A unit that was entered before is left
/// alone.
pub fn compile(
    edges: &Vec<Vec<usize>>,
    skipped: &Vec<bool>,
    unit: usize,
    entered: &mut Vec<bool>,
    jobs: &mut Vec<usize>,
    depth: usize,
)
    requires
        is_edge_list(edges@),
        skipped@.len() == edges@.len(),
        old(entered)@.len() == edges@.len(),
        unit < edges@.len(),
    ensures
        final(entered)@.len() == edges@.len(),
        (Queueing { entered: final(entered)@, queued: final(jobs)@ }) == queued(
            edges@,
            skipped@,
            unit,
            (Queueing { entered: old(entered)@, queued: old(jobs)@ }),
            depth as nat,
        ),
    decreases depth,
{
    if depth == 0 || entered[unit] {
        return;
    }
    entered.set(unit, true);
    if !skipped[unit] {
        jobs.push(unit);
    }
    let ghost start = Queueing { entered: entered@, queued: jobs@ };
    let ghost all = edges@[unit as int]@;
    let mut index: usize = 0;
    proof {
        assert(all.take(0) =~= Seq::empty());
    }
    while index < edges[unit].len()
        invariant
            is_edge_list(edges@),
            skipped@.len() == edges@.len(),
            unit < edges@.len(),
            depth > 0,
            all == edges@[unit as int]@,
            index <= all.len(),
            entered@.len() == edges@.len(),
            (Queueing { entered: entered@, queued: jobs@ }) == queued_all(
                edges@,
                skipped@,
                all.take(index as int),
                start,
                (depth - 1) as nat,
            ),
        decreases all.len() - index,
    {
        proof {
            assert(all.take(index + 1).drop_last() =~= all.take(index as int));
            assert(all.take(index + 1).last() == all[index as int]);
        }
        compile(edges, skipped, edges[unit][index], entered, jobs, depth - 1);
        index = index + 1;
    }
    proof {
        assert(all.take(index as int) =~= all);
    }
}

/// Whether a unit was entered in between.
pub open spec fn is_new(before: Queueing, after: Queueing, unit: int) -> bool {
    !before.entered[unit] && after.entered[unit]
}

/// Whether what is queued was entered, and no unit is queued twice.
pub open spec fn is_queueing(edges: Seq<Vec<usize>>, state: Queueing) -> bool {
    &&& state.entered.len() == edges.len()
    &&& state.queued.no_duplicates()
    &&& forall|u: usize|
        #[trigger] state.queued.contains(u) ==> u < edges.len() && state.entered[u as int]
}

/// What queueing does.
pub open spec fn extends_queueing(
    edges: Seq<Vec<usize>>,
    skipped: Seq<bool>,
    before: Queueing,
    after: Queueing,
) -> bool {
    &&& is_queueing(edges, after)
    &&& clear_count(after.entered) <= clear_count(before.entered)
    &&& forall|u: int| 0 <= u < edges.len() && before.entered[u] ==> #[trigger] after.entered[u]
    &&& forall|u: usize|
        #[trigger] after.queued.contains(u) <==> before.queued.contains(u) || (u < edges.len()
            && is_new(before, after, u as int) && !skipped[u as int])
}

/// Whether what was entered in between has its dependencies entered, but for one
/// unit.
pub open spec fn is_closed_but(
    edges: Seq<Vec<usize>>,
    before: Queueing,
    after: Queueing,
    unit: int,
) -> bool {
    forall|u: int, i: int|
        0 <= u < edges.len() && is_new(before, after, u) && u != unit && 0 <= i < edges[u]@.len()
            ==> after.entered[(#[trigger] edges[u]@[i]) as int]
}

/// What entering a unit does.
proof fn lemma_queued(
    edges: Seq<Vec<usize>>,
    skipped: Seq<bool>,
    unit: usize,
    state: Queueing,
    depth: nat,
    root: int,
)
    requires
        is_edge_list(edges),
        skipped.len() == edges.len(),
        unit < edges.len(),
        is_queueing(edges, state),
        clear_count(state.entered) <= depth,
        is_reachable(edges, root, unit as int),
    ensures
        extends_queueing(edges, skipped, state, queued(edges, skipped, unit, state, depth)),
        is_closed_but(edges, state, queued(edges, skipped, unit, state, depth), -1),
        queued(edges, skipped, unit, state, depth).entered[unit as int],
        forall|u: int|
            0 <= u < edges.len() && #[trigger] is_new(
                state,
                queued(edges, skipped, unit, state, depth),
                u,
            ) ==> is_reachable(edges, root, u),
    decreases depth, 0nat,
{
    let after = queued(edges, skipped, unit, state, depth);
    if !state.entered[unit as int] {
        lemma_clear_count_update(state.entered, unit as int);
        let start = Queueing {
            entered: state.entered.update(unit as int, true),
            queued: if skipped[unit as int] {
                state.queued
            } else {
                state.queued.push(unit)
            },
        };
        let list = edges[unit as int]@;
        assert(!state.queued.contains(unit));
        assert forall|u: usize| #[trigger] start.queued.contains(u) <==> state.queued.contains(u)
            || (u == unit && !skipped[unit as int]) by {
            lemma_contains_push(state.queued, unit, u);
        }
        assert(is_queueing(edges, start)) by {
            if !skipped[unit as int] {
                assert forall|i: int, j: int|
                    0 <= i < start.queued.len() && 0 <= j < start.queued.len() && i
                        != j implies start.queued[i] != start.queued[j] by {
                    if i == state.queued.len() {
                        assert(state.queued.contains(state.queued[j]));
                    } else if j == state.queued.len() {
                        assert(state.queued.contains(state.queued[i]));
                    }
                }
            }
        }
        assert forall|i: int| 0 <= i < list.len() implies (#[trigger] list[i]) < edges.len()
            && is_reachable(edges, root, list[i] as int) by {
            assert(edges[unit as int]@[i] == list[i]);
            lemma_step(edges, root, unit as int, i);
        }
        lemma_queued_all(edges, skipped, list, start, (depth - 1) as nat, root);
        assert(start.entered[unit as int]);
        assert(after.entered[unit as int]);
        assert forall|u: int| 0 <= u < edges.len() && state.entered[u] implies
            #[trigger] after.entered[u] by {
            assert(start.entered[u]);
        }
        assert forall|u: usize| #[trigger] after.queued.contains(u) <==> state.queued.contains(u)
            || (u < edges.len() && is_new(state, after, u as int) && !skipped[u as int]) by {
            assert(after.queued.contains(u) <==> start.queued.contains(u) || (u < edges.len()
                && is_new(start, after, u as int) && !skipped[u as int]));
            if u < edges.len() && u != unit {
                assert(start.entered[u as int] == state.entered[u as int]);
            }
        }
        assert forall|u: int, i: int|
            0 <= u < edges.len() && is_new(state, after, u) && u != -1 && 0 <= i
                < edges[u]@.len() implies after.entered[(#[trigger] edges[u]@[i]) as int] by {
            if u == unit {
                assert(list[i] == edges[u]@[i]);
                assert(after.entered[list[i] as int]);
            } else {
                assert(is_new(start, after, u));
            }
        }
        assert forall|u: int| 0 <= u < edges.len() && #[trigger] is_new(
            state,
            after,
            u,
        ) implies is_reachable(edges, root, u) by {
            if u != unit {
                assert(is_new(start, after, u));
            }
        }
    }
}

/// What entering units in order does.
proof fn lemma_queued_all(
    edges: Seq<Vec<usize>>,
    skipped: Seq<bool>,
    list: Seq<usize>,
    state: Queueing,
    depth: nat,
    root: int,
)
    requires
        is_edge_list(edges),
        skipped.len() == edges.len(),
        is_queueing(edges, state),
        clear_count(state.entered) <= depth,
        forall|i: int|
            0 <= i < list.len() ==> (#[trigger] list[i]) < edges.len() && is_reachable(
                edges,
                root,
                list[i] as int,
            ),
    ensures
        extends_queueing(edges, skipped, state, queued_all(edges, skipped, list, state, depth)),
        is_closed_but(edges, state, queued_all(edges, skipped, list, state, depth), -1),
        forall|i: int|
            0 <= i < list.len() ==> queued_all(edges, skipped, list, state, depth).entered[(
            #[trigger] list[i]) as int],
        forall|u: int|
            0 <= u < edges.len() && #[trigger] is_new(
                state,
                queued_all(edges, skipped, list, state, depth),
                u,
            ) ==> is_reachable(edges, root, u),
    decreases depth, list.len(),
{
    if list.len() > 0 {
        let front = list.drop_last();
        assert forall|i: int| 0 <= i < front.len() implies (#[trigger] front[i]) < edges.len()
            && is_reachable(edges, root, front[i] as int) by {
            assert(front[i] == list[i]);
        }
        lemma_queued_all(edges, skipped, front, state, depth, root);
        let before = queued_all(edges, skipped, front, state, depth);
        let after = queued_all(edges, skipped, list, state, depth);
        assert(list.last() == list[list.len() - 1]);
        lemma_queued(edges, skipped, list.last(), before, depth, root);
        assert forall|u: int| 0 <= u < edges.len() && state.entered[u] implies
            #[trigger] after.entered[u] by {
            assert(before.entered[u]);
        }
        assert forall|u: usize| #[trigger] after.queued.contains(u) <==> state.queued.contains(u)
            || (u < edges.len() && is_new(state, after, u as int) && !skipped[u as int]) by {
            assert(after.queued.contains(u) <==> before.queued.contains(u) || (u < edges.len()
                && is_new(before, after, u as int) && !skipped[u as int]));
            assert(before.queued.contains(u) <==> state.queued.contains(u) || (u < edges.len()
                && is_new(state, before, u as int) && !skipped[u as int]));
            if u < edges.len() && before.entered[u as int] {
                assert(after.entered[u as int]);
            }
        }
        assert forall|u: int, i: int|
            0 <= u < edges.len() && is_new(state, after, u) && u != -1 && 0 <= i
                < edges[u]@.len() implies after.entered[(#[trigger] edges[u]@[i]) as int] by {
            if before.entered[u] {
                assert(is_new(state, before, u));
                assert(before.entered[edges[u]@[i] as int]);
            } else {
                assert(is_new(before, after, u));
            }
        }
        assert forall|i: int| 0 <= i < list.len() implies after.entered[(
        #[trigger] list[i]) as int] by {
            if i < front.len() {
                assert(front[i] == list[i]);
                assert(before.entered[front[i] as int]);
            }
        }
        assert forall|u: int| 0 <= u < edges.len() && #[trigger] is_new(
            state,
            after,
            u,
        ) implies is_reachable(edges, root, u) by {
            if before.entered[u] {
                assert(is_new(state, before, u));
            } else {
                assert(is_new(before, after, u));
            }
        }
    }
}

/// Nothing was entered yet.
pub open spec fn no_queueing(edges: Seq<Vec<usize>>) -> Queueing {
    Queueing { entered: Seq::new(edges.len(), |i: int| false), queued: Seq::empty() }
}

/// Every unit that a root leads to is queued exactly once, unless it is skipped.
pub proof fn law_reachable_units_are_queued_once(
    edges: Seq<Vec<usize>>,
    skipped: Seq<bool>,
    root: usize,
)
    requires
        is_edge_list(edges),
        skipped.len() == edges.len(),
        root < edges.len(),
    ensures
        ({
            let jobs = queued(edges, skipped, root, no_queueing(edges), edges.len()).queued;
            &&& jobs.no_duplicates()
            &&& forall|u: usize|
                #[trigger] jobs.contains(u) <==> u < edges.len() && is_reachable(
                    edges,
                    root as int,
                    u as int,
                ) && !skipped[u as int]
        }),
{
    let start = no_queueing(edges);
    lemma_clear_count_all(edges.len());
    assert(start.entered =~= Seq::new(edges.len(), |i: int| false));
    assert(reaches(edges, root as int, root as int, 0));
    lemma_queued(edges, skipped, root, start, edges.len(), root as int);
    let end = queued(edges, skipped, root, start, edges.len());
    assert forall|u: int, i: int|
        0 <= u < edges.len() && end.entered[u] && 0 <= i < edges[u]@.len() implies end.entered[(
    #[trigger] edges[u]@[i]) as int] by {
        assert(is_new(start, end, u));
    }
    assert forall|u: usize| #[trigger] end.queued.contains(u) <==> u < edges.len() && is_reachable(
        edges,
        root as int,
        u as int,
    ) && !skipped[u as int] by {
        assert(end.queued.contains(u) <==> start.queued.contains(u) || (u < edges.len() && is_new(
            start,
            end,
            u as int,
        ) && !skipped[u as int]));
        if u < edges.len() {
            if is_reachable(edges, root as int, u as int) {
                let steps = choose|steps: nat| #[trigger]
                    reaches(edges, root as int, u as int, steps);
                lemma_closed(edges, end.entered, root as int, u as int, steps);
            } else if end.entered[u as int] {
                assert(is_new(start, end, u as int));
            }
        }
    }
}

} // verus!
