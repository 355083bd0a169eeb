//! What can be reached in a graph.
//!
//! Nodes are numbered by their positions in a list, which holds for each node
//! the numbers of those that it points to.

use vstd::prelude::*;

use crate::preflight::clear_count;
use crate::preflight::lemma_clear_count_update;

verus! {

/// Whether all edges point to nodes.
pub open spec fn is_edge_list(edges: Seq<Vec<usize>>) -> bool {
    forall|u: int, i: int|
        0 <= u < edges.len() && 0 <= i < edges[u]@.len() ==> (#[trigger] edges[u]@[i])
            < edges.len()
}

/// Whether `to` can be reached from `from` in so many steps.
pub open spec fn reaches(edges: Seq<Vec<usize>>, from: int, to: int, steps: nat) -> bool
    decreases steps,
{
    if steps == 0 {
        from == to
    } else {
        exists|u: int|
            #[trigger] points_to(edges, u, to) && reaches(edges, from, u, (steps - 1) as nat)
    }
}

/// Whether there is an edge between two nodes.
pub open spec fn points_to(edges: Seq<Vec<usize>>, from: int, to: int) -> bool {
    0 <= from < edges.len() && exists|i: int|
        0 <= i < edges[from]@.len() && (#[trigger] edges[from]@[i]) == to
}

/// Whether `to` can be reached from `from`.
pub open spec fn is_reachable(edges: Seq<Vec<usize>>, from: int, to: int) -> bool {
    exists|steps: nat| #[trigger] reaches(edges, from, to, steps)
}

/// What stays in a set that holds all that its nodes point to.
pub proof fn lemma_closed(edges: Seq<Vec<usize>>, flags: Seq<bool>, from: int, to: int, steps: nat)
    requires
        is_edge_list(edges),
        flags.len() == edges.len(),
        forall|u: int, i: int|
            0 <= u < edges.len() && flags[u] && 0 <= i < edges[u]@.len() ==> flags[(
            #[trigger] edges[u]@[i]) as int],
        0 <= from < edges.len(),
        flags[from],
        reaches(edges, from, to, steps),
    ensures
        0 <= to < edges.len(),
        flags[to],
    decreases steps,
{
    if steps > 0 {
        let u = choose|u: int|
            #[trigger] points_to(edges, u, to) && reaches(edges, from, u, (steps - 1) as nat);
        lemma_closed(edges, flags, from, u, (steps - 1) as nat);
        let i = choose|i: int| 0 <= i < edges[u]@.len() && (#[trigger] edges[u]@[i]) == to;
        assert(flags[edges[u]@[i] as int]);
    }
}

/// One step more.
pub proof fn lemma_step(edges: Seq<Vec<usize>>, from: int, u: int, i: int)
    requires
        0 <= u < edges.len(),
        0 <= i < edges[u]@.len(),
        is_reachable(edges, from, u),
    ensures
        is_reachable(edges, from, edges[u]@[i] as int),
{
    let steps = choose|steps: nat| #[trigger] reaches(edges, from, u, steps);
    let to = edges[u]@[i] as int;
    assert(points_to(edges, u, to));
    assert(reaches(edges, from, to, steps + 1));
}

/// Which nodes can be reached from a node.
pub fn reachable(edges: &Vec<Vec<usize>>, from: usize) -> (flags: Vec<bool>)
    requires
        is_edge_list(edges@),
        from < edges@.len(),
    ensures
        flags@.len() == edges@.len(),
        forall|u: int|
            0 <= u < edges@.len() ==> #[trigger] flags@[u] == is_reachable(edges@, from as int, u),
{
    let mut flags: Vec<bool> = Vec::new();
    let mut index: usize = 0;
    while index < edges.len()
        invariant
            index <= edges@.len(),
            flags@.len() == index,
            forall|i: int| 0 <= i < index ==> !flags@[i],
        decreases edges@.len() - index,
    {
        flags.push(false);
        index = index + 1;
    }
    flags.set(from, true);
    let mut waiting: Vec<usize> = Vec::new();
    waiting.push(from);
    proof {
        assert(reaches(edges@, from as int, from as int, 0));
        assert(waiting@[0] == from);
        assert(waiting@.contains(from));
    }
    while waiting.len() > 0
        invariant
            is_edge_list(edges@),
            from < edges@.len(),
            flags@.len() == edges@.len(),
            flags@[from as int],
            forall|k: int|
                0 <= k < waiting@.len() ==> (#[trigger] waiting@[k]) < edges@.len()
                    && flags@[waiting@[k] as int],
            forall|u: int|
                0 <= u < edges@.len() && #[trigger] flags@[u] ==> is_reachable(
                    edges@,
                    from as int,
                    u,
                ),
            forall|u: int, i: int|
                0 <= u < edges@.len() && flags@[u] && !waiting@.contains(u as usize) && 0 <= i
                    < edges@[u]@.len() ==> flags@[(#[trigger] edges@[u]@[i]) as int],
        decreases clear_count(flags@), waiting@.len(),
    {
        let ghost before = waiting@;
        let ghost flags_before = flags@;
        let node: usize = waiting[waiting.len() - 1];
        proof {
            assert(before[before.len() - 1] == node);
        }
        waiting.pop();
        let mut at: usize = 0;
        proof {
            assert(waiting@ =~= before.drop_last());
            assert forall|k: int| 0 <= k < waiting@.len() implies (#[trigger] waiting@[k])
                < edges@.len() && flags@[waiting@[k] as int] by {
                assert(waiting@[k] == before[k]);
            }
            assert forall|u: int, i: int|
                0 <= u < edges@.len() && flags@[u] && !waiting@.contains(u as usize) && u != node
                    && 0 <= i < edges@[u]@.len() implies flags@[(
            #[trigger] edges@[u]@[i]) as int] by {
                if before.contains(u as usize) {
                    let k = choose|k: int| 0 <= k < before.len() && before[k] == u as usize;
                    if k < waiting@.len() {
                        assert(waiting@[k] == u as usize);
                    }
                }
            }
        }
        while at < edges[node].len()
            invariant
                is_edge_list(edges@),
                from < edges@.len(),
                node < edges@.len(),
                at <= edges@[node as int]@.len(),
                flags@.len() == edges@.len(),
                flags@[from as int],
                flags@[node as int],
                forall|k: int|
                    0 <= k < waiting@.len() ==> (#[trigger] waiting@[k]) < edges@.len()
                        && flags@[waiting@[k] as int],
                forall|u: int|
                    0 <= u < edges@.len() && #[trigger] flags@[u] ==> is_reachable(
                        edges@,
                        from as int,
                        u,
                    ),
                forall|u: int, i: int|
                    0 <= u < edges@.len() && flags@[u] && !waiting@.contains(u as usize) && u
                        != node && 0 <= i < edges@[u]@.len() ==> flags@[(
                    #[trigger] edges@[u]@[i]) as int],
                forall|i: int|
                    0 <= i < at ==> flags@[(#[trigger] edges@[node as int]@[i]) as int],
                clear_count(flags@) < clear_count(flags_before) || (flags@ == flags_before
                    && waiting@.len() + 1 == before.len()),
            decreases edges@[node as int]@.len() - at,
        {
            let next: usize = edges[node][at];
            if !flags[next] {
                let ghost so_far = flags@;
                let ghost waited = waiting@;
                proof {
                    lemma_step(edges@, from as int, node as int, at as int);
                    lemma_clear_count_update(so_far, next as int);
                }
                flags.set(next, true);
                waiting.push(next);
                proof {
                    assert(waiting@[waited.len() as int] == next);
                    assert(waiting@.contains(next));
                    assert forall|k: int| 0 <= k < waiting@.len() implies (#[trigger] waiting@[k])
                        < edges@.len() && flags@[waiting@[k] as int] by {
                        if k < waited.len() {
                            assert(waiting@[k] == waited[k]);
                        }
                    }
                    assert forall|u: int, i: int|
                        0 <= u < edges@.len() && flags@[u] && !waiting@.contains(u as usize) && u
                            != node && 0 <= i < edges@[u]@.len() implies flags@[(
                    #[trigger] edges@[u]@[i]) as int] by {
                        if waited.contains(u as usize) {
                            let k = choose|k: int| 0 <= k < waited.len() && waited[k] == u as usize;
                            assert(waiting@[k] == u as usize);
                        }
                        assert(u != next);
                        assert(so_far[u]);
                        assert(so_far[edges@[u]@[i] as int]);
                    }
                }
            }
            at = at + 1;
        }
        proof {
            assert forall|u: int, i: int|
                0 <= u < edges@.len() && flags@[u] && !waiting@.contains(u as usize) && 0 <= i
                    < edges@[u]@.len() implies flags@[(#[trigger] edges@[u]@[i]) as int] by {
                if u == node {
                    assert(flags@[edges@[node as int]@[i] as int]);
                }
            }
        }
    }
    proof {
        assert forall|u: int| 0 <= u < edges@.len() implies #[trigger] flags@[u] == is_reachable(
            edges@,
            from as int,
            u,
        ) by {
            if is_reachable(edges@, from as int, u) {
                let steps = choose|steps: nat| #[trigger] reaches(edges@, from as int, u, steps);
                lemma_closed(edges@, flags@, from as int, u, steps);
            }
        }
    }
    flags
}

} // verus!
