//! Why dependencies can be ordered exactly if they do not run in a cycle.
//!
//! That a cycle rules out an order is shown with the graph. Here stands the
//! other half: a package that no schedule can hold lies on a cycle or
//! depends on a package that does.

use crate::graph::{
    acyclic, depends, edges_of, is_order, is_path, is_schedule, law_cycle_cannot_be_scheduled,
    lemma_edges_in_range, lemma_schedule_grows, reaches, ready, schedulable, PackageView,
};
use vstd::prelude::*;
use vstd::set_lib::{lemma_int_range, lemma_len_subset, set_int_range};

verus! {

/// Whether every dependency is a package.
pub open spec fn edges_in_range(edges: Seq<Seq<int>>) -> bool {
    forall|a: int, b: int| #[trigger] depends(edges, a, b) ==> 0 <= b < edges.len()
}

/// Whether some package depends on itself, directly or through others.
pub open spec fn has_cycle(edges: Seq<Seq<int>>) -> bool {
    exists|y: int| #[trigger] reaches(edges, y, y)
}

/// What a sequence holds once an item is put at its end.
proof fn lemma_push_contains(s: Seq<int>, y: int, x: int)
    ensures
        s.push(y).contains(x) <==> (s.contains(x) || x == y),
{
    let t = s.push(y);
    if s.contains(x) {
        let i = choose|i: int| 0 <= i < s.len() && s[i] == x;
        assert(t[i] == x);
    }
    if x == y {
        assert(t[s.len() as int] == x);
    }
    if t.contains(x) {
        let i = choose|i: int| 0 <= i < t.len() && t[i] == x;
        if i < s.len() {
            assert(s[i] == x);
        }
    }
}

/// A schedule without its last package is a schedule.
proof fn lemma_schedule_front(edges: Seq<Seq<int>>, q: Seq<int>)
    requires
        is_schedule(edges, q),
        q.len() > 0,
    ensures
        is_schedule(edges, q.drop_last()),
        ready(edges, q.drop_last(), q.last()),
{
    let front = q.drop_last();
    assert forall|i: int, b: int|
        0 <= i < front.len() && #[trigger] depends(edges, front[i], b) implies front.take(
        i,
    ).contains(b) by {
        assert(depends(edges, q[i], b));
        assert(front.take(i) =~= q.take(i));
    }
    assert forall|i: int, j: int| 0 <= i < j < front.len() implies front[i] != front[j] by {
        assert(q[i] != q[j]);
    }
    let last = q.len() - 1;
    assert(front =~= q.take(last));
    if front.contains(q.last()) {
        let i = choose|i: int| 0 <= i < front.len() && front[i] == q.last();
        assert(q[i] != q[last]);
    }
    assert forall|b: int| #[trigger] depends(edges, q.last(), b) implies front.contains(b) by {
        assert(depends(edges, q[last], b));
    }
}

/// Two schedules can be joined: there is a schedule that holds what either
/// holds.
proof fn lemma_merge(edges: Seq<Seq<int>>, p: Seq<int>, q: Seq<int>) -> (r: Seq<int>)
    requires
        is_schedule(edges, p),
        is_schedule(edges, q),
    ensures
        is_schedule(edges, r),
        forall|x: int| p.contains(x) ==> r.contains(x),
        forall|x: int| q.contains(x) ==> r.contains(x),
    decreases q.len(),
{
    if q.len() == 0 {
        p
    } else {
        let front = q.drop_last();
        let last = q.last();
        lemma_schedule_front(edges, q);
        let joined = lemma_merge(edges, p, front);
        assert(q =~= front.push(last));
        if joined.contains(last) {
            assert forall|x: int| q.contains(x) implies joined.contains(x) by {
                lemma_push_contains(front, last, x);
            }
            joined
        } else {
            assert(ready(edges, joined, last));
            lemma_schedule_grows(edges, joined, last);
            let r = joined.push(last);
            assert forall|x: int| p.contains(x) implies r.contains(x) by {
                lemma_push_contains(joined, last, x);
            }
            assert forall|x: int| q.contains(x) implies r.contains(x) by {
                lemma_push_contains(front, last, x);
                lemma_push_contains(joined, last, x);
            }
            r
        }
    }
}

/// Where each of the first `upto` of `wanted` stands in some schedule, one
/// schedule holds them all.
proof fn lemma_schedule_of_all(edges: Seq<Seq<int>>, wanted: Seq<int>, upto: int) -> (r: Seq<int>)
    requires
        0 <= upto <= wanted.len(),
        forall|k: int| 0 <= k < wanted.len() ==> schedulable(edges, #[trigger] wanted[k]),
    ensures
        is_schedule(edges, r),
        forall|k: int| 0 <= k < upto ==> r.contains(#[trigger] wanted[k]),
    decreases upto,
{
    if upto == 0 {
        Seq::empty()
    } else {
        let before = lemma_schedule_of_all(edges, wanted, upto - 1);
        let d = wanted[upto - 1];
        let own = choose|p: Seq<int>| #[trigger] is_schedule(edges, p) && p.contains(d);
        lemma_merge(edges, before, own)
    }
}

/// A package that no schedule can hold depends on a package that no
/// schedule can hold. The result is such a dependency.
proof fn lemma_blocked_dependency(edges: Seq<Seq<int>>, x: int) -> (d: int)
    requires
        0 <= x < edges.len(),
        !schedulable(edges, x),
    ensures
        depends(edges, x, d),
        !schedulable(edges, d),
{
    let deps = edges[x];
    if forall|k: int| 0 <= k < deps.len() ==> schedulable(edges, #[trigger] deps[k]) {
        let r = lemma_schedule_of_all(edges, deps, deps.len() as int);
        if !r.contains(x) {
            assert forall|b: int| #[trigger] depends(edges, x, b) implies r.contains(b) by {
                let k = choose|k: int| 0 <= k < deps.len() && deps[k] == b;
                assert(r.contains(deps[k]));
            }
            lemma_schedule_grows(edges, r, x);
            lemma_push_contains(r, x, x);
            assert(is_schedule(edges, r.push(x)) && r.push(x).contains(x));
        } else {
            assert(is_schedule(edges, r) && r.contains(x));
        }
        0
    } else {
        let k = choose|k: int| 0 <= k < deps.len() && !schedulable(edges, #[trigger] deps[k]);
        assert(deps.contains(deps[k]));
        deps[k]
    }
}

/// Whether `walk` goes from package to package along dependencies, through
/// packages that no schedule can hold.
pub open spec fn is_blocked_walk(edges: Seq<Seq<int>>, walk: Seq<int>) -> bool {
    &&& forall|i: int|
        0 <= i < walk.len() ==> 0 <= #[trigger] walk[i] < edges.len() && !schedulable(
            edges,
            walk[i],
        )
    &&& forall|i: int| 0 <= i < walk.len() - 1 ==> depends(edges, #[trigger] walk[i], walk[i + 1])
}

/// From a package that no schedule can hold, a walk of any length leads
/// through such packages.
proof fn lemma_blocked_walk(edges: Seq<Seq<int>>, x: int, steps: int) -> (walk: Seq<int>)
    requires
        edges_in_range(edges),
        0 <= x < edges.len(),
        !schedulable(edges, x),
        0 <= steps,
    ensures
        walk.len() == steps + 1,
        walk[0] == x,
        is_blocked_walk(edges, walk),
    decreases steps,
{
    if steps == 0 {
        seq![x]
    } else {
        let before = lemma_blocked_walk(edges, x, steps - 1);
        let d = lemma_blocked_dependency(edges, before.last());
        let walk = before.push(d);
        assert forall|i: int| 0 <= i < walk.len() - 1 implies depends(
            edges,
            #[trigger] walk[i],
            walk[i + 1],
        ) by {
            if i < before.len() - 1 {
                assert(depends(edges, before[i], before[i + 1]));
            }
        }
        walk
    }
}

/// A walk that is longer than the number of packages comes by a package
/// twice. The result is two places at which it does.
proof fn lemma_walk_repeats(edges: Seq<Seq<int>>, walk: Seq<int>) -> (places: (int, int))
    requires
        forall|i: int| 0 <= i < walk.len() ==> 0 <= #[trigger] walk[i] < edges.len(),
        walk.len() > edges.len(),
    ensures
        0 <= places.0 < places.1 < walk.len(),
        walk[places.0] == walk[places.1],
{
    if walk.no_duplicates() {
        let n = edges.len() as int;
        let held = walk.to_set();
        let all = set_int_range(0, n);
        lemma_int_range(0, n);
        walk.unique_seq_to_set();
        assert(held.subset_of(all)) by {
            assert forall|x: int| held.contains(x) implies all.contains(x) by {
                let i = choose|i: int| 0 <= i < walk.len() && walk[i] == x;
                assert(0 <= walk[i] < n);
            }
        }
        lemma_len_subset(held, all);
        (0, 0)
    } else {
        let (i, j) = choose|i: int, j: int|
            0 <= i < walk.len() && 0 <= j < walk.len() && i != j && walk[i] == walk[j];
        if i < j {
            (i, j)
        } else {
            (j, i)
        }
    }
}

/// A stretch of a walk over at least one dependency is a path.
proof fn lemma_stretch_is_path(edges: Seq<Seq<int>>, walk: Seq<int>, from: int, to: int)
    requires
        is_blocked_walk(edges, walk),
        0 <= from < to < walk.len(),
    ensures
        reaches(edges, walk[from], walk[to]),
{
    let path = walk.subrange(from, to + 1);
    assert forall|i: int| 0 <= i < path.len() - 1 implies depends(
        edges,
        #[trigger] path[i],
        path[i + 1],
    ) by {
        assert(depends(edges, walk[from + i], walk[from + i + 1]));
    }
    assert(is_path(edges, path) && path[0] == walk[from] && path.last() == walk[to]);
}

/// A package that no schedule can hold lies on a cycle or depends on a
/// package that does. The result is a package on such a cycle.
pub proof fn law_blocked_package_reaches_cycle(edges: Seq<Seq<int>>, x: int) -> (y: int)
    requires
        edges_in_range(edges),
        0 <= x < edges.len(),
        !schedulable(edges, x),
    ensures
        reaches(edges, y, y),
        y == x || reaches(edges, x, y),
{
    let walk = lemma_blocked_walk(edges, x, edges.len() as int);
    let (i, j) = lemma_walk_repeats(edges, walk);
    lemma_stretch_is_path(edges, walk, i, j);
    if i > 0 {
        lemma_stretch_is_path(edges, walk, 0, i);
    }
    walk[i]
}

/// Where every package stands in some schedule, there is an order.
proof fn lemma_all_schedulable(edges: Seq<Seq<int>>)
    requires
        forall|x: int| 0 <= x < edges.len() ==> schedulable(edges, x),
    ensures
        acyclic(edges),
{
    let all = Seq::new(edges.len(), |i: int| i);
    let r = lemma_schedule_of_all(edges, all, all.len() as int);
    assert forall|x: int| 0 <= x < edges.len() implies r.contains(x) by {
        assert(r.contains(all[x]));
    }
    assert(is_order(edges, r));
}

/// Dependencies can be ordered exactly if they do not run in a cycle.
pub proof fn law_order_exists_unless_cycle(edges: Seq<Seq<int>>)
    requires
        edges_in_range(edges),
    ensures
        acyclic(edges) <==> !has_cycle(edges),
{
    if has_cycle(edges) {
        let y = choose|y: int| #[trigger] reaches(edges, y, y);
        law_cycle_cannot_be_scheduled(edges, y);
    }
    if !acyclic(edges) {
        if forall|x: int| 0 <= x < edges.len() ==> schedulable(edges, x) {
            lemma_all_schedulable(edges);
        }
        let x = choose|x: int| 0 <= x < edges.len() && !schedulable(edges, x);
        let y = law_blocked_package_reaches_cycle(edges, x);
    }
}

/// The packages of a workspace can be ordered exactly if their
/// dependencies do not run in a cycle.
pub proof fn law_workspace_order_exists_unless_cycle(packages: Seq<PackageView>)
    ensures
        edges_in_range(edges_of(packages)),
        acyclic(edges_of(packages)) <==> !has_cycle(edges_of(packages)),
{
    let edges = edges_of(packages);
    assert forall|a: int, b: int| #[trigger] depends(edges, a, b) implies 0 <= b
        < edges.len() by {
        lemma_edges_in_range(packages, a, b);
    }
    law_order_exists_unless_cycle(edges);
}

} // verus!
