//! The packages of a workspace and the dependencies among them.
//!
//! A package is known by its handle, its index in the workspace. An edge
//! from `a` to `b` says that `a` depends on `b`.

use crate::cycles::{has_cycle, law_workspace_order_exists_unless_cycle};
use crate::text::{
    chars_eq, chars_lt, chars_of, lemma_position_is, lemma_text_lt_irreflexive,
    lemma_text_lt_total, lemma_text_lt_transitive, position, text_lt, views,
};
use crate::version::Version;
use vstd::prelude::*;
use vstd::set_lib::{lemma_int_range, lemma_len_subset, lemma_subset_equality, set_int_range};

verus! {

/// A package of the workspace, as its manifest describes it.
#[derive(Debug)]
pub struct Package {
    /// The name, by which other packages depend on it.
    pub name: String,
    /// The version in the working tree.
    pub version: Version,
    /// The directory of the package, relative to the workspace.
    pub root: String,
    /// Patterns of the files that belong to the package; none means all.
    pub included: Vec<String>,
    /// Patterns of files that do not belong to the package.
    pub excluded: Vec<String>,
    /// The names of the packages it depends on.
    pub dependencies: Vec<String>,
    /// Whether the package may be published.
    pub publish: bool,
}

/// What a package holds, as plain values.
pub struct PackageView {
    pub name: Seq<char>,
    pub version: Version,
    pub root: Seq<char>,
    pub included: Seq<Seq<char>>,
    pub excluded: Seq<Seq<char>>,
    pub dependencies: Seq<Seq<char>>,
    pub publish: bool,
}

impl View for Package {
    type V = PackageView;

    open spec fn view(&self) -> PackageView {
        PackageView {
            name: self.name@,
            version: self.version,
            root: self.root@,
            included: views(self.included@),
            excluded: views(self.excluded@),
            dependencies: views(self.dependencies@),
            publish: self.publish,
        }
    }
}

/// The handles in `v` as integers.
pub open spec fn handles(v: Seq<usize>) -> Seq<int> {
    Seq::new(v.len(), |i: int| v[i] as int)
}

/// The names of `packages`, by handle.
pub open spec fn names_of(packages: Seq<PackageView>) -> Seq<Seq<char>> {
    Seq::new(packages.len(), |i: int| packages[i].name)
}

/// The handles that the names in `wanted` stand for, in order and each
/// once. A name stands for the first package that bears it; one that no
/// package bears stands for nothing.
pub open spec fn resolved(names: Seq<Seq<char>>, wanted: Seq<Seq<char>>) -> Seq<int>
    decreases wanted.len(),
{
    if wanted.len() == 0 {
        Seq::empty()
    } else {
        let before = resolved(names, wanted.drop_last());
        let k = position(names, wanted.last()) as int;
        if k < names.len() && !before.contains(k) {
            before.push(k)
        } else {
            before
        }
    }
}

/// The dependencies of each package of the workspace, by handle.
pub open spec fn edges_of(packages: Seq<PackageView>) -> Seq<Seq<int>> {
    Seq::new(packages.len(), |a: int| resolved(names_of(packages), packages[a].dependencies))
}

/// Whether `a` depends directly on `b`.
pub open spec fn depends(edges: Seq<Seq<int>>, a: int, b: int) -> bool {
    0 <= a < edges.len() && edges[a].contains(b)
}

/// Whether `path` leads from package to package along dependencies, over
/// at least one of them.
pub open spec fn is_path(edges: Seq<Seq<int>>, path: Seq<int>) -> bool {
    path.len() >= 2 && forall|i: int|
        0 <= i < path.len() - 1 ==> depends(edges, #[trigger] path[i], path[i + 1])
}

/// Whether `a` depends on `b`, directly or through other packages.
pub open spec fn reaches(edges: Seq<Seq<int>>, a: int, b: int) -> bool {
    exists|path: Seq<int>| #[trigger] is_path(edges, path) && path[0] == a && path.last() == b
}

/// Whether `p` lists packages, none twice, so that every dependency of
/// a package stands before it.
pub open spec fn is_schedule(edges: Seq<Seq<int>>, p: Seq<int>) -> bool {
    &&& forall|i: int| 0 <= i < p.len() ==> 0 <= #[trigger] p[i] < edges.len()
    &&& forall|i: int, j: int| 0 <= i < j < p.len() ==> p[i] != p[j]
    &&& forall|i: int, b: int|
        0 <= i < p.len() && #[trigger] depends(edges, p[i], b) ==> p.take(i).contains(b)
}

/// Whether `o` is a topological order: a schedule that holds every
/// package.
pub open spec fn is_order(edges: Seq<Seq<int>>, o: Seq<int>) -> bool {
    is_schedule(edges, o) && forall|x: int| 0 <= x < edges.len() ==> o.contains(x)
}

/// Whether the dependencies leave room for an order, which they do unless
/// they run in a cycle.
pub open spec fn acyclic(edges: Seq<Seq<int>>) -> bool {
    exists|o: Seq<int>| is_order(edges, o)
}

/// Whether some schedule holds `x`: neither `x` nor anything it depends
/// on lies on a cycle.
pub open spec fn schedulable(edges: Seq<Seq<int>>, x: int) -> bool {
    exists|p: Seq<int>| #[trigger] is_schedule(edges, p) && p.contains(x)
}

/// Whether package `a` goes before package `b` where the dependencies
/// leave the choice: by name, and between equal names by handle.
pub open spec fn goes_first(names: Seq<Seq<char>>, a: int, b: int) -> bool {
    text_lt(names[a], names[b]) || (names[a] == names[b] && a < b)
}

/// Whether `x` can be placed after `placed`: it is not placed yet, and
/// everything it depends on is.
pub open spec fn ready(edges: Seq<Seq<int>>, placed: Seq<int>, x: int) -> bool {
    &&& 0 <= x < edges.len()
    &&& !placed.contains(x)
    &&& forall|b: int| #[trigger] depends(edges, x, b) ==> placed.contains(b)
}

/// Whether `x` is the package to place after `placed`: of those that are
/// ready, the one that goes first.
pub open spec fn is_next(
    names: Seq<Seq<char>>,
    edges: Seq<Seq<int>>,
    placed: Seq<int>,
    x: int,
) -> bool {
    &&& ready(edges, placed, x)
    &&& forall|y: int| #[trigger] ready(edges, placed, y) && y != x ==> goes_first(names, x, y)
}

/// Whether each package in `o` is the one to place after those before it.
/// This fixes `o` item by item.
pub open spec fn is_canonical(names: Seq<Seq<char>>, edges: Seq<Seq<int>>, o: Seq<int>) -> bool {
    forall|k: int| 0 <= k < o.len() ==> is_next(names, edges, o.take(k), #[trigger] o[k])
}

/// What a dependency graph holds: the packages, and the order in which
/// they are worked on.
pub struct GraphView {
    pub packages: Seq<PackageView>,
    pub order: Seq<int>,
}

impl GraphView {
    /// The number of packages.
    pub open spec fn size(self) -> int {
        self.packages.len() as int
    }

    /// The names of the packages, by handle.
    pub open spec fn names(self) -> Seq<Seq<char>> {
        names_of(self.packages)
    }

    /// The dependencies of each package, by handle.
    pub open spec fn edges(self) -> Seq<Seq<int>> {
        edges_of(self.packages)
    }

    /// Whether `a` depends directly on `b`.
    pub open spec fn depends(self, a: int, b: int) -> bool {
        depends(self.edges(), a, b)
    }

    /// Whether `a` depends on `b`, directly or through other packages.
    pub open spec fn reaches(self, a: int, b: int) -> bool {
        reaches(self.edges(), a, b)
    }

    /// Whether the order is the topological order of the packages in which
    /// ties are broken by name.
    pub open spec fn wf(self) -> bool {
        &&& self.order.len() == self.packages.len()
        &&& is_order(self.edges(), self.order)
        &&& is_canonical(self.names(), self.edges(), self.order)
    }
}

/// The handles that names stand for are handles of the workspace, and
/// none is listed twice.
pub proof fn lemma_resolved(names: Seq<Seq<char>>, wanted: Seq<Seq<char>>)
    ensures
        forall|i: int|
            0 <= i < resolved(names, wanted).len() ==> 0 <= #[trigger] resolved(
                names,
                wanted,
            )[i] < names.len(),
        forall|i: int, j: int|
            0 <= i < j < resolved(names, wanted).len() ==> resolved(names, wanted)[i] != resolved(
                names,
                wanted,
            )[j],
    decreases wanted.len(),
{
    if wanted.len() > 0 {
        lemma_resolved(names, wanted.drop_last());
        let before = resolved(names, wanted.drop_last());
        let all = resolved(names, wanted);
        let k = position(names, wanted.last()) as int;
        assert forall|i: int| 0 <= i < all.len() implies 0 <= #[trigger] all[i] < names.len() by {
            if i < before.len() {
                assert(all[i] == before[i]);
            }
        }
        assert forall|i: int, j: int| 0 <= i < j < all.len() implies all[i] != all[j] by {
            if j < before.len() {
                assert(all[i] == before[i] && all[j] == before[j]);
            } else {
                assert(all[i] == before[i]);
                assert(before.contains(before[i]));
            }
        }
    }
}

/// Every dependency is a package of the workspace.
pub proof fn lemma_edges_in_range(packages: Seq<PackageView>, a: int, b: int)
    requires
        depends(edges_of(packages), a, b),
    ensures
        0 <= a < packages.len(),
        0 <= b < packages.len(),
{
    lemma_resolved(names_of(packages), packages[a].dependencies);
}

/// The rule that breaks ties is a strict total order of the handles.
pub proof fn lemma_goes_first_order(names: Seq<Seq<char>>, a: int, b: int, c: int)
    ensures
        !goes_first(names, a, a),
        goes_first(names, a, b) && goes_first(names, b, c) ==> goes_first(names, a, c),
        a != b ==> goes_first(names, a, b) || goes_first(names, b, a),
{
    lemma_text_lt_irreflexive(names[a]);
    lemma_text_lt_total(names[a], names[b]);
    if goes_first(names, a, b) && goes_first(names, b, c) {
        if text_lt(names[a], names[b]) && text_lt(names[b], names[c]) {
            lemma_text_lt_transitive(names[a], names[b], names[c]);
        }
    }
}

/// The order is fixed by the dependencies and the names: two orders of one
/// length that both place, at each step, the package that goes first among
/// those that are ready are the same.
pub proof fn law_order_is_unique(
    names: Seq<Seq<char>>,
    edges: Seq<Seq<int>>,
    one: Seq<int>,
    other: Seq<int>,
)
    requires
        is_canonical(names, edges, one),
        is_canonical(names, edges, other),
        one.len() == other.len(),
    ensures
        one == other,
{
    lemma_same_prefix(names, edges, one, other, one.len() as int);
    assert(one.take(one.len() as int) =~= one);
    assert(other.take(other.len() as int) =~= other);
}

/// Two orders that both place, at each step, the package that goes first
/// agree on their first `upto` packages.
proof fn lemma_same_prefix(
    names: Seq<Seq<char>>,
    edges: Seq<Seq<int>>,
    one: Seq<int>,
    other: Seq<int>,
    upto: int,
)
    requires
        is_canonical(names, edges, one),
        is_canonical(names, edges, other),
        0 <= upto <= one.len(),
        upto <= other.len(),
    ensures
        one.take(upto) == other.take(upto),
    decreases upto,
{
    if upto == 0 {
        assert(one.take(0) =~= other.take(0));
    } else {
        lemma_same_prefix(names, edges, one, other, upto - 1);
        let placed = one.take(upto - 1);
        let x = one[upto - 1];
        let y = other[upto - 1];
        assert(is_next(names, edges, placed, x));
        assert(is_next(names, edges, other.take(upto - 1), y));
        if x != y {
            assert(ready(edges, placed, x) && ready(edges, placed, y));
            assert(goes_first(names, x, y));
            assert(goes_first(names, y, x));
            lemma_goes_first_order(names, x, y, x);
        }
        assert(one.take(upto) =~= placed.push(x));
        assert(other.take(upto) =~= placed.push(y));
    }
}

/// A schedule that is shorter than the number of packages leaves a
/// package out. The result is such a package.
proof fn lemma_some_left(edges: Seq<Seq<int>>, p: Seq<int>) -> (x: int)
    requires
        is_schedule(edges, p),
        p.len() < edges.len(),
    ensures
        0 <= x < edges.len(),
        !p.contains(x),
{
    let n = edges.len() as int;
    if forall|x: int| 0 <= x < n ==> p.contains(x) {
        let held = p.to_set();
        let all = set_int_range(0, n);
        lemma_int_range(0, n);
        assert(p.no_duplicates()) by {
            assert forall|i: int, j: int|
                0 <= i < p.len() && 0 <= j < p.len() && i != j implies p[i] != p[j] by {
                if i < j {
                    assert(p[i] != p[j]);
                } else {
                    assert(p[j] != p[i]);
                }
            }
        }
        p.unique_seq_to_set();
        assert(held.subset_of(all)) by {
            assert forall|x: int| held.contains(x) implies all.contains(x) by {
                let i = choose|i: int| 0 <= i < p.len() && p[i] == x;
                assert(0 <= p[i] < n);
            }
        }
        assert(all.subset_of(held));
        lemma_len_subset(held, all);
        lemma_len_subset(all, held);
        0
    } else {
        choose|x: int| 0 <= x < n && !p.contains(x)
    }
}

/// A schedule that is as long as the number of packages holds them all.
proof fn lemma_full_schedule(edges: Seq<Seq<int>>, p: Seq<int>)
    requires
        is_schedule(edges, p),
        p.len() == edges.len(),
    ensures
        is_order(edges, p),
{
    let n = edges.len() as int;
    let held = p.to_set();
    let all = set_int_range(0, n);
    lemma_int_range(0, n);
    assert(p.no_duplicates()) by {
        assert forall|i: int, j: int|
            0 <= i < p.len() && 0 <= j < p.len() && i != j implies p[i] != p[j] by {
            if i < j {
                assert(p[i] != p[j]);
            } else {
                assert(p[j] != p[i]);
            }
        }
    }
    p.unique_seq_to_set();
    assert(held.subset_of(all)) by {
        assert forall|x: int| held.contains(x) implies all.contains(x) by {
            let i = choose|i: int| 0 <= i < p.len() && p[i] == x;
            assert(0 <= p[i] < n);
        }
    }
    lemma_len_subset(held, all);
    lemma_subset_equality(held, all);
    assert forall|x: int| 0 <= x < n implies p.contains(x) by {
        assert(all.contains(x));
        assert(held.contains(x));
    }
}

/// Among the packages below `upto` that are ready, the one that goes
/// first; or -1 where none is ready.
proof fn least_ready(
    names: Seq<Seq<char>>,
    edges: Seq<Seq<int>>,
    placed: Seq<int>,
    upto: int,
) -> (best: int)
    requires
        0 <= upto,
    ensures
        best == -1 ==> forall|y: int| 0 <= y < upto ==> !ready(edges, placed, y),
        best != -1 ==> 0 <= best < upto && ready(edges, placed, best) && forall|y: int|
            0 <= y < upto && #[trigger] ready(edges, placed, y) && y != best ==> goes_first(
                names,
                best,
                y,
            ),
    decreases upto,
{
    if upto == 0 {
        -1
    } else {
        let before = least_ready(names, edges, placed, upto - 1);
        let x = upto - 1;
        if !ready(edges, placed, x) {
            before
        } else if before == -1 {
            x
        } else if goes_first(names, x, before) {
            assert forall|y: int|
                0 <= y < upto && #[trigger] ready(edges, placed, y) && y != x implies goes_first(
                names,
                x,
                y,
            ) by {
                lemma_goes_first_order(names, x, before, y);
            }
            x
        } else {
            lemma_goes_first_order(names, before, x, x);
            before
        }
    }
}

/// Where the dependencies leave room for an order, there is the schedule
/// of any length up to the number of packages that places, at each step,
/// the package that goes first among those that are ready.
proof fn lemma_greedy_schedule(
    names: Seq<Seq<char>>,
    edges: Seq<Seq<int>>,
    witness: Seq<int>,
    k: int,
) -> (p: Seq<int>)
    requires
        is_order(edges, witness),
        0 <= k <= edges.len(),
    ensures
        p.len() == k,
        is_schedule(edges, p),
        is_canonical(names, edges, p),
    decreases k,
{
    if k == 0 {
        Seq::empty()
    } else {
        let q = lemma_greedy_schedule(names, edges, witness, k - 1);
        let left = lemma_some_left(edges, q);
        let best = least_ready(names, edges, q, edges.len() as int);
        if best == -1 {
            lemma_stuck(edges, q, left);
            assert(is_schedule(edges, witness) && witness.contains(left));
        }
        lemma_schedule_grows(edges, q, best);
        let p = q.push(best);
        assert forall|i: int| 0 <= i < p.len() implies is_next(
            names,
            edges,
            p.take(i),
            #[trigger] p[i],
        ) by {
            if i < q.len() {
                assert(p.take(i) =~= q.take(i));
                assert(p[i] == q[i]);
            } else {
                assert(p.take(i) =~= q);
            }
        }
        p
    }
}

/// Dependencies that leave room for an order leave room for the one that
/// breaks ties by name.
pub proof fn law_acyclic_has_canonical_order(names: Seq<Seq<char>>, edges: Seq<Seq<int>>)
    requires
        acyclic(edges),
    ensures
        exists|o: Seq<int>|
            o.len() == edges.len() && is_order(edges, o) && is_canonical(names, edges, o),
{
    let witness = choose|o: Seq<int>| is_order(edges, o);
    let o = lemma_greedy_schedule(names, edges, witness, edges.len() as int);
    lemma_full_schedule(edges, o);
    assert(o.len() == edges.len() && is_order(edges, o) && is_canonical(names, edges, o));
}

/// The first index of `p` whose item is missing from `placed`.
proof fn first_missing(p: Seq<int>, placed: Seq<int>, from: int) -> (i: int)
    requires
        0 <= from <= p.len(),
        forall|j: int| 0 <= j < from ==> placed.contains(#[trigger] p[j]),
        exists|j: int| 0 <= j < p.len() && !placed.contains(#[trigger] p[j]),
    ensures
        0 <= i < p.len(),
        !placed.contains(p[i]),
        forall|j: int| 0 <= j < i ==> placed.contains(#[trigger] p[j]),
    decreases p.len() - from,
{
    if from < p.len() && !placed.contains(p[from]) {
        from
    } else {
        first_missing(p, placed, from + 1)
    }
}

/// Where nothing is ready to be placed, nothing that is left can stand in
/// any schedule.
pub proof fn lemma_stuck(edges: Seq<Seq<int>>, placed: Seq<int>, u: int)
    requires
        forall|y: int| 0 <= y < edges.len() ==> !ready(edges, placed, y),
        !placed.contains(u),
    ensures
        !schedulable(edges, u),
{
    if schedulable(edges, u) {
        let p = choose|p: Seq<int>| #[trigger] is_schedule(edges, p) && p.contains(u);
        let at = choose|j: int| 0 <= j < p.len() && p[j] == u;
        assert(!placed.contains(p[at]));
        let i = first_missing(p, placed, 0);
        assert forall|b: int| #[trigger] depends(edges, p[i], b) implies placed.contains(b) by {
            assert(p.take(i).contains(b));
            let j = choose|j: int| 0 <= j < p.take(i).len() && p.take(i)[j] == b;
            assert(p[j] == b);
        }
        assert(ready(edges, placed, p[i]));
    }
}

/// A package that cannot stand in any schedule rules out an order.
pub proof fn lemma_unschedulable_rules_out_order(edges: Seq<Seq<int>>, u: int)
    requires
        0 <= u < edges.len(),
        !schedulable(edges, u),
    ensures
        !acyclic(edges),
{
    if acyclic(edges) {
        let o = choose|o: Seq<int>| is_order(edges, o);
        assert(is_schedule(edges, o) && o.contains(u));
    }
}

/// A schedule stays one when a package that is ready is put at its end.
pub proof fn lemma_schedule_grows(edges: Seq<Seq<int>>, p: Seq<int>, x: int)
    requires
        is_schedule(edges, p),
        ready(edges, p, x),
    ensures
        is_schedule(edges, p.push(x)),
{
    let q = p.push(x);
    assert forall|i: int, b: int| 0 <= i < q.len() && #[trigger] depends(edges, q[i], b) implies q.take(
        i,
    ).contains(b) by {
        if i < p.len() {
            assert(q.take(i) =~= p.take(i));
            assert(depends(edges, p[i], b));
        } else {
            assert(q.take(i) =~= p);
        }
    }
    assert forall|i: int, j: int| 0 <= i < j < q.len() implies q[i] != q[j] by {
        if j == p.len() {
            assert(p[i] == q[i]);
            if q[i] == x {
                assert(p.contains(x));
            }
        } else {
            assert(p[i] != p[j]);
        }
    }
}

/// A package on a cycle stands in no schedule.
pub proof fn law_cycle_cannot_be_scheduled(edges: Seq<Seq<int>>, x: int)
    requires
        reaches(edges, x, x),
    ensures
        !schedulable(edges, x),
        !acyclic(edges),
{
    let path = choose|path: Seq<int>| #[trigger]
        is_path(edges, path) && path[0] == x && path.last() == x;
    if schedulable(edges, x) {
        let p = choose|p: Seq<int>| #[trigger] is_schedule(edges, p) && p.contains(x);
        let at = choose|j: int| 0 <= j < p.len() && p[j] == x;
        let end = lemma_path_descends(edges, p, path, at, path.len() - 1);
        assert(p[end] == x && p[at] == x);
    }
    assert(depends(edges, path[0], path[1]));
    if acyclic(edges) {
        let o = choose|o: Seq<int>| is_order(edges, o);
        assert(is_schedule(edges, o) && o.contains(x));
    }
}

/// Along a path that starts at a place in a schedule, the places only go
/// down.
proof fn lemma_path_descends(
    edges: Seq<Seq<int>>,
    p: Seq<int>,
    path: Seq<int>,
    start: int,
    upto: int,
) -> (at: int)
    requires
        is_schedule(edges, p),
        is_path(edges, path),
        0 <= start < p.len(),
        p[start] == path[0],
        1 <= upto < path.len(),
    ensures
        0 <= at < start,
        p[at] == path[upto],
    decreases upto,
{
    let from = if upto == 1 {
        start
    } else {
        lemma_path_descends(edges, p, path, start, upto - 1)
    };
    assert(depends(edges, path[upto - 1], path[upto - 1 + 1]));
    assert(depends(edges, p[from], path[upto]));
    assert(p.take(from).contains(path[upto]));
    let at = choose|j: int| 0 <= j < p.take(from).len() && p.take(from)[j] == path[upto];
    assert(p[at] == path[upto]);
    at
}

/// The lists of handles in `edges` as sequences of integers.
pub open spec fn edge_lists(edges: Seq<Vec<usize>>) -> Seq<Seq<int>> {
    Seq::new(edges.len(), |a: int| handles(edges[a]@))
}

/// The number of entries of `flags` that are not set.
pub open spec fn count_unset(flags: Seq<bool>) -> nat
    decreases flags.len(),
{
    if flags.len() == 0 {
        0
    } else {
        count_unset(flags.drop_last()) + if flags.last() {
            0nat
        } else {
            1nat
        }
    }
}

/// Setting an entry that was not set leaves one entry fewer unset.
proof fn lemma_count_unset_update(flags: Seq<bool>, x: int)
    requires
        0 <= x < flags.len(),
        !flags[x],
    ensures
        count_unset(flags.update(x, true)) + 1 == count_unset(flags),
    decreases flags.len(),
{
    let after = flags.update(x, true);
    if x == flags.len() - 1 {
        assert(after.drop_last() =~= flags.drop_last());
    } else {
        lemma_count_unset_update(flags.drop_last(), x);
        assert(after.drop_last() =~= flags.drop_last().update(x, true));
    }
}

/// Where every entry is set, none is unset.
proof fn lemma_count_unset_none(flags: Seq<bool>)
    requires
        forall|i: int| 0 <= i < flags.len() ==> flags[i],
    ensures
        count_unset(flags) == 0,
    decreases flags.len(),
{
    if flags.len() > 0 {
        lemma_count_unset_none(flags.drop_last());
    }
}

/// Where no entry is set, all are unset.
proof fn lemma_count_unset_all(flags: Seq<bool>)
    requires
        forall|i: int| 0 <= i < flags.len() ==> !flags[i],
    ensures
        count_unset(flags) == flags.len(),
    decreases flags.len(),
{
    if flags.len() > 0 {
        lemma_count_unset_all(flags.drop_last());
    }
}

/// A dependency graph that holds a cycle: `package` is the first package,
/// by handle, that lies on a cycle or depends on one.
#[derive(Debug)]
pub struct CycleError {
    pub package: usize,
}

/// The packages of a workspace with their dependencies resolved and the
/// order in which they are worked on.
#[derive(Debug)]
pub struct DependencyGraph {
    packages: Vec<Package>,
    edges: Vec<Vec<usize>>,
    order: Vec<usize>,
}

impl View for DependencyGraph {
    type V = GraphView;

    closed spec fn view(&self) -> GraphView {
        GraphView { packages: views(self.packages@), order: handles(self.order@) }
    }
}

/// Whether `x` is one of `list`.
fn holds_handle(list: &Vec<usize>, x: usize) -> (found: bool)
    ensures
        found == handles(list@).contains(x as int),
{
    let mut i: usize = 0;
    while i < list.len()
        invariant
            i <= list.len(),
            forall|k: int| 0 <= k < i ==> list@[k] != x,
        decreases list.len() - i,
    {
        if list[i] == x {
            assert(handles(list@)[i as int] == x as int);
            return true;
        }
        i += 1;
    }
    assert forall|k: int| 0 <= k < handles(list@).len() implies handles(list@)[k] != x as int by {
        assert(handles(list@)[k] == list@[k] as int);
    }
    false
}

/// The handle of the first package named `name`, or the number of
/// packages where none is.
fn find_name(names: &Vec<Vec<char>>, name: &Vec<char>) -> (at: usize)
    ensures
        at == position(views(names@), name@),
        at <= names.len(),
{
    let mut i: usize = 0;
    while i < names.len() && !chars_eq(&names[i], name)
        invariant
            i <= names.len(),
            forall|k: int| 0 <= k < i ==> names@[k]@ != name@,
        decreases names.len() - i,
    {
        i += 1;
    }
    proof {
        lemma_position_is(views(names@), name@, i as int);
    }
    i
}

/// The handles that the names in `wanted` stand for.
fn resolve(names: &Vec<Vec<char>>, wanted: &Vec<String>) -> (out: Vec<usize>)
    ensures
        handles(out@) == resolved(views(names@), views(wanted@)),
{
    let mut out: Vec<usize> = Vec::new();
    let mut k: usize = 0;
    assert(handles(out@) =~= resolved(views(names@), views(wanted@).take(0)));
    while k < wanted.len()
        invariant
            k <= wanted.len(),
            handles(out@) == resolved(views(names@), views(wanted@).take(k as int)),
        decreases wanted.len() - k,
    {
        let ghost before = handles(out@);
        let name = chars_of(wanted[k].as_str());
        let at = find_name(names, &name);
        let known = holds_handle(&out, at);
        if at < names.len() && !known {
            out.push(at);
        }
        proof {
            let upto = views(wanted@).take(k + 1);
            assert(upto.drop_last() =~= views(wanted@).take(k as int));
            assert(upto.last() == name@);
            if at < names.len() && !known {
                assert(handles(out@) =~= before.push(at as int));
            }
        }
        k += 1;
    }
    assert(views(wanted@).take(k as int) =~= views(wanted@));
    out
}

/// Whether package `a` goes before package `b` where the dependencies
/// leave the choice.
fn goes_before(names: &Vec<Vec<char>>, a: usize, b: usize) -> (first: bool)
    requires
        a < names.len(),
        b < names.len(),
    ensures
        first == goes_first(views(names@), a as int, b as int),
{
    if chars_lt(&names[a], &names[b]) {
        true
    } else {
        chars_eq(&names[a], &names[b]) && a < b
    }
}

/// Whether package `x` can be placed, given which packages are.
fn is_ready(
    edges: &Vec<Vec<usize>>,
    placed: &Vec<bool>,
    Ghost(ord): Ghost<Seq<int>>,
    x: usize,
) -> (yes: bool)
    requires
        x < edges.len(),
        placed.len() == edges.len(),
        forall|y: int| 0 <= y < placed.len() ==> (placed@[y] <==> ord.contains(y)),
        forall|k: int| 0 <= k < edges@[x as int].len() ==> edges@[x as int]@[k] < edges.len(),
    ensures
        yes == ready(edge_lists(edges@), ord, x as int),
{
    if placed[x] {
        return false;
    }
    let list = &edges[x];
    let ghost deps = handles(list@);
    assert(edge_lists(edges@)[x as int] == deps);
    let mut k: usize = 0;
    while k < list.len()
        invariant
            k <= list.len(),
            x < edges.len(),
            deps == handles(list@),
            edge_lists(edges@)[x as int] == deps,
            placed.len() == edges.len(),
            forall|y: int| 0 <= y < placed.len() ==> (placed@[y] <==> ord.contains(y)),
            forall|j: int| 0 <= j < list.len() ==> list@[j] < edges.len(),
            forall|j: int| 0 <= j < k ==> ord.contains(deps[j]),
        decreases list.len() - k,
    {
        assert(deps[k as int] == list@[k as int] as int);
        if !placed[list[k]] {
            assert(deps.contains(deps[k as int]));
            assert(depends(edge_lists(edges@), x as int, deps[k as int]));
            return false;
        }
        k += 1;
    }
    assert forall|b: int| #[trigger] depends(edge_lists(edges@), x as int, b) implies ord.contains(
        b,
    ) by {
        let j = choose|j: int| 0 <= j < deps.len() && deps[j] == b;
        assert(ord.contains(deps[j]));
    }
    true
}

/// The first package that is not placed, and the package to place next,
/// as far as there is one.
fn scan(
    names: &Vec<Vec<char>>,
    edges: &Vec<Vec<usize>>,
    placed: &Vec<bool>,
    Ghost(ord): Ghost<Seq<int>>,
) -> (found: (Option<usize>, Option<usize>))
    requires
        names.len() == edges.len(),
        placed.len() == edges.len(),
        forall|y: int| 0 <= y < placed.len() ==> (placed@[y] <==> ord.contains(y)),
        forall|a: int, k: int|
            0 <= a < edges.len() && 0 <= k < edges@[a].len() ==> #[trigger] edges@[a]@[k]
                < edges.len(),
    ensures
        match found.0 {
            Some(u) => u < placed.len() && !placed@[u as int] && forall|y: int|
                0 <= y < u ==> placed@[y],
            None => forall|y: int| 0 <= y < placed.len() ==> placed@[y],
        },
        match found.1 {
            Some(b) => is_next(views(names@), edge_lists(edges@), ord, b as int),
            None => forall|y: int|
                0 <= y < edges.len() ==> !ready(edge_lists(edges@), ord, y),
        },
{
    let n = edges.len();
    let ghost nm = views(names@);
    let ghost el = edge_lists(edges@);
    let mut unplaced: Option<usize> = None;
    let mut best: Option<usize> = None;
    let mut x: usize = 0;
    while x < n
        invariant
            x <= n,
            n == edges.len(),
            names.len() == n,
            placed.len() == n,
            nm == views(names@),
            el == edge_lists(edges@),
            forall|y: int| 0 <= y < placed.len() ==> (placed@[y] <==> ord.contains(y)),
            forall|a: int, k: int|
                0 <= a < edges.len() && 0 <= k < edges@[a].len() ==> #[trigger] edges@[a]@[k]
                    < edges.len(),
            match unplaced {
                Some(u) => u < x && !placed@[u as int] && forall|y: int| 0 <= y < u ==> placed@[y],
                None => forall|y: int| 0 <= y < x ==> placed@[y],
            },
            match best {
                Some(b) => b < x && ready(el, ord, b as int) && forall|y: int|
                    0 <= y < x && #[trigger] ready(el, ord, y) && y != b ==> goes_first(
                        nm,
                        b as int,
                        y,
                    ),
                None => forall|y: int| 0 <= y < x ==> !ready(el, ord, y),
            },
        decreases n - x,
    {
        if !placed[x] && unplaced.is_none() {
            unplaced = Some(x);
        }
        if is_ready(edges, placed, Ghost(ord), x) {
            match best {
                None => {
                    best = Some(x);
                },
                Some(b) => {
                    if goes_before(names, x, b) {
                        proof {
                            assert forall|y: int|
                                0 <= y < x + 1 && #[trigger] ready(el, ord, y) && y
                                    != x implies goes_first(nm, x as int, y) by {
                                lemma_goes_first_order(nm, x as int, b as int, y);
                            }
                        }
                        best = Some(x);
                    } else {
                        proof {
                            lemma_goes_first_order(nm, b as int, x as int, x as int);
                        }
                    }
                },
            }
        }
        x += 1;
    }
    (unplaced, best)
}

impl DependencyGraph {
    /// Whether the stored dependencies are those of the packages, and the
    /// stored order is their order.
    #[verifier::type_invariant]
    closed spec fn consistent(self) -> bool {
        &&& self@.wf()
        &&& edge_lists(self.edges@) == self@.edges()
    }

    /// The graph of the workspace that holds `packages`. Its order places
    /// every package after the packages it depends on and breaks ties by
    /// name. Dependencies that run in a cycle, and no others, leave no
    /// order: then the error names the first package, by handle, that no
    /// schedule can hold, which lies on a cycle or depends on a package
    /// that does.
    pub fn build(packages: Vec<Package>) -> (out: Result<DependencyGraph, CycleError>)
        ensures
            match out {
                Ok(graph) => {
                    &&& graph@.packages == views(packages@)
                    &&& graph@.wf()
                    &&& !has_cycle(edges_of(views(packages@)))
                },
                Err(error) => {
                    let edges = edges_of(views(packages@));
                    &&& has_cycle(edges)
                    &&& !acyclic(edges)
                    &&& error.package < packages@.len()
                    &&& !schedulable(edges, error.package as int)
                    &&& forall|y: int| 0 <= y < error.package ==> schedulable(edges, y)
                },
            },
    {
        let n = packages.len();
        let ghost model = views(packages@);
        let ghost nm = names_of(model);
        let ghost el = edges_of(model);
        let mut names: Vec<Vec<char>> = Vec::new();
        let mut i: usize = 0;
        while i < n
            invariant
                i <= n,
                n == packages.len(),
                model == views(packages@),
                names.len() == i,
                forall|k: int| 0 <= k < i ==> names@[k]@ == model[k].name,
            decreases n - i,
        {
            names.push(chars_of(packages[i].name.as_str()));
            i += 1;
        }
        assert(views(names@) =~= nm);
        let mut edges: Vec<Vec<usize>> = Vec::new();
        let mut a: usize = 0;
        while a < n
            invariant
                a <= n,
                n == packages.len(),
                model == views(packages@),
                views(names@) == nm,
                nm == names_of(model),
                edges.len() == a,
                forall|k: int| 0 <= k < a ==> handles(edges@[k]@) == resolved(
                    nm,
                    model[k].dependencies,
                ),
            decreases n - a,
        {
            edges.push(resolve(&names, &packages[a].dependencies));
            a += 1;
        }
        assert(edge_lists(edges@) =~= el);
        proof {
            assert forall|a: int, k: int|
                0 <= a < edges.len() && 0 <= k < edges@[a].len() implies #[trigger] edges@[a]@[k]
                    < edges.len() by {
                lemma_resolved(nm, model[a].dependencies);
                assert(handles(edges@[a]@)[k] == edges@[a]@[k] as int);
            }
        }
        let mut placed: Vec<bool> = Vec::new();
        let mut j: usize = 0;
        while j < n
            invariant
                j <= n,
                placed.len() == j,
                forall|k: int| 0 <= k < j ==> !placed@[k],
            decreases n - j,
        {
            placed.push(false);
            j += 1;
        }
        let mut order: Vec<usize> = Vec::new();
        let mut done = false;
        proof {
            lemma_count_unset_all(placed@);
        }
        while !done
            invariant
                n == packages.len(),
                order.len() + count_unset(placed@) == n,
                names.len() == n,
                edges.len() == n,
                placed.len() == n,
                views(names@) == nm,
                edge_lists(edges@) == el,
                el == edges_of(views(packages@)),
                el.len() == n,
                forall|a: int, k: int|
                    0 <= a < edges.len() && 0 <= k < edges@[a].len() ==> #[trigger] edges@[a]@[k]
                        < edges.len(),
                forall|y: int|
                    0 <= y < n ==> (placed@[y] <==> handles(order@).contains(y)),
                is_schedule(el, handles(order@)),
                is_canonical(nm, el, handles(order@)),
                done ==> forall|y: int| 0 <= y < n ==> placed@[y],
            decreases
                    count_unset(placed@) + if done {
                        0nat
                    } else {
                        1nat
                    },
        {
            let ghost ord = handles(order@);
            let found = scan(&names, &edges, &placed, Ghost(ord));
            match found.0 {
                None => {
                    done = true;
                },
                Some(u) => {
                    match found.1 {
                        None => {
                            proof {
                                assert forall|y: int| 0 <= y < u implies schedulable(el, y) by {
                                    assert(placed@[y]);
                                    assert(ord.contains(y));
                                    assert(is_schedule(el, ord));
                                }
                                assert(!placed@[u as int]);
                                assert(!ord.contains(u as int));
                                lemma_stuck(el, ord, u as int);
                                lemma_unschedulable_rules_out_order(el, u as int);
                                law_workspace_order_exists_unless_cycle(views(packages@));
                            }
                            return Err(CycleError { package: u });
                        },
                        Some(b) => {
                            proof {
                                lemma_count_unset_update(placed@, b as int);
                                lemma_schedule_grows(el, ord, b as int);
                            }
                            placed.set(b, true);
                            order.push(b);
                            proof {
                                let now = handles(order@);
                                assert(now =~= ord.push(b as int));
                                assert forall|y: int| 0 <= y < n implies (placed@[y]
                                    <==> now.contains(y)) by {
                                    if y == b {
                                        assert(now[ord.len() as int] == y);
                                    } else if ord.contains(y) {
                                        let k = choose|k: int| 0 <= k < ord.len() && ord[k] == y;
                                        assert(now[k] == y);
                                    } else if now.contains(y) {
                                        let k = choose|k: int| 0 <= k < now.len() && now[k] == y;
                                        assert(ord[k] == y);
                                    }
                                }
                                assert forall|k: int| 0 <= k < now.len() implies is_next(
                                    nm,
                                    el,
                                    now.take(k),
                                    #[trigger] now[k],
                                ) by {
                                    if k < ord.len() {
                                        assert(now.take(k) =~= ord.take(k));
                                        assert(now[k] == ord[k]);
                                    } else {
                                        assert(now.take(k) =~= ord);
                                    }
                                }
                            }
                        },
                    }
                },
            }
        }
        proof {
            let ord = handles(order@);
            assert forall|x: int| 0 <= x < el.len() implies ord.contains(x) by {
                assert(placed@[x]);
            }
            assert(is_order(el, ord));
            lemma_count_unset_none(placed@);
            law_workspace_order_exists_unless_cycle(views(packages@));
        }
        Ok(DependencyGraph { packages, edges, order })
    }
}

/// A dependency followed by a path, or by nothing, is a path.
pub proof fn lemma_reaches_step(edges: Seq<Seq<int>>, a: int, d: int, b: int)
    requires
        depends(edges, a, d),
        d == b || reaches(edges, d, b),
    ensures
        reaches(edges, a, b),
{
    if d == b {
        let path = seq![a, b];
        assert(is_path(edges, path));
        assert(path[0] == a && path.last() == b);
    } else {
        let rest = choose|rest: Seq<int>| #[trigger]
            is_path(edges, rest) && rest[0] == d && rest.last() == b;
        let path = seq![a] + rest;
        assert forall|i: int| 0 <= i < path.len() - 1 implies depends(
            edges,
            #[trigger] path[i],
            path[i + 1],
        ) by {
            if i > 0 {
                assert(path[i] == rest[i - 1]);
                assert(path[i + 1] == rest[i - 1 + 1]);
            }
        }
        assert(is_path(edges, path));
        assert(path[0] == a && path.last() == b);
    }
}

/// A path begins with a dependency, which its end is or from which its
/// end is reached. The result is that dependency.
pub proof fn lemma_reaches_first(edges: Seq<Seq<int>>, a: int, b: int) -> (d: int)
    requires
        reaches(edges, a, b),
    ensures
        depends(edges, a, d),
        d == b || reaches(edges, d, b),
{
    let path = choose|path: Seq<int>| #[trigger]
        is_path(edges, path) && path[0] == a && path.last() == b;
    let d = path[1];
    assert(depends(edges, path[0], path[0int + 1]));
    if path.len() > 2 {
        let rest = path.drop_first();
        assert forall|i: int| 0 <= i < rest.len() - 1 implies depends(
            edges,
            #[trigger] rest[i],
            rest[i + 1],
        ) by {
            assert(rest[i] == path[i + 1]);
            assert(depends(edges, path[i + 1], path[i + 1 + 1]));
        }
        assert(is_path(edges, rest));
        assert(rest[0] == d && rest.last() == b);
    }
    d
}

/// The handles whose flag is set, in rising order.
fn flagged(flags: &Vec<bool>) -> (out: Vec<usize>)
    ensures
        forall|i: int, j: int| 0 <= i < j < out.len() ==> out@[i] < out@[j],
        forall|x: int| #[trigger]
            handles(out@).contains(x) <==> (0 <= x < flags.len() && flags@[x]),
{
    let mut out: Vec<usize> = Vec::new();
    let mut x: usize = 0;
    while x < flags.len()
        invariant
            x <= flags.len(),
            forall|i: int| 0 <= i < out.len() ==> out@[i] < x,
            forall|i: int, j: int| 0 <= i < j < out.len() ==> out@[i] < out@[j],
            forall|y: int| handles(out@).contains(y) <==> (0 <= y < x && flags@[y]),
        decreases flags.len() - x,
    {
        let ghost before = handles(out@);
        if flags[x] {
            out.push(x);
            proof {
                let now = handles(out@);
                assert(now =~= before.push(x as int));
                assert forall|y: int| now.contains(y) <==> (0 <= y < x + 1 && flags@[y]) by {
                    if now.contains(y) {
                        let k = choose|k: int| 0 <= k < now.len() && now[k] == y;
                        if k < before.len() {
                            assert(before[k] == y);
                            assert(before.contains(y));
                        }
                    }
                    if 0 <= y < x + 1 && flags@[y] {
                        if y == x {
                            assert(now[before.len() as int] == y);
                        } else {
                            assert(before.contains(y));
                            let k = choose|k: int| 0 <= k < before.len() && before[k] == y;
                            assert(now[k] == y);
                        }
                    }
                }
            }
        }
        x += 1;
    }
    out
}

impl DependencyGraph {
    /// The number of packages.
    pub fn len(&self) -> (n: usize)
        ensures
            n == self@.size(),
    {
        self.packages.len()
    }

    /// The package with this handle, if there is one.
    pub fn package(&self, handle: usize) -> (found: Option<&Package>)
        ensures
            match found {
                Some(package) => handle < self@.size() && package@ == self@.packages[handle as int],
                None => handle >= self@.size(),
            },
    {
        if handle < self.packages.len() {
            Some(&self.packages[handle])
        } else {
            None
        }
    }

    /// The package with this handle.
    pub(crate) fn package_at(&self, handle: usize) -> (package: &Package)
        requires
            handle < self@.size(),
        ensures
            package@ == self@.packages[handle as int],
    {
        &self.packages[handle]
    }

    /// The handle of the first package named `name`, if there is one.
    pub fn handle_of(&self, name: &str) -> (found: Option<usize>)
        ensures
            match found {
                Some(handle) => handle < self@.size() && handle == position(self@.names(), name@),
                None => position(self@.names(), name@) >= self@.size(),
            },
    {
        let mut i: usize = 0;
        let wanted = chars_of(name);
        while i < self.packages.len()
            invariant
                i <= self.packages.len(),
                wanted@ == name@,
                forall|k: int| 0 <= k < i ==> self.packages@[k].name@ != name@,
            decreases self.packages.len() - i,
        {
            let own = chars_of(self.packages[i].name.as_str());
            if chars_eq(&own, &wanted) {
                proof {
                    lemma_position_is(self@.names(), name@, i as int);
                }
                return Some(i);
            }
            i += 1;
        }
        proof {
            lemma_position_is(self@.names(), name@, i as int);
        }
        None
    }

    /// The packages in the order in which they are worked on: each after
    /// the packages it depends on, ties broken by name.
    pub fn topological_order(&self) -> (order: Vec<usize>)
        ensures
            handles(order@) == self@.order,
            self@.wf(),
    {
        proof {
            use_type_invariant(self);
        }
        let mut order: Vec<usize> = Vec::new();
        let mut k: usize = 0;
        while k < self.order.len()
            invariant
                k <= self.order.len(),
                order@ == self.order@.take(k as int),
            decreases self.order.len() - k,
        {
            order.push(self.order[k]);
            assert(self.order@.take(k + 1) =~= self.order@.take(k as int).push(
                self.order@[k as int],
            ));
            k += 1;
        }
        assert(self.order@.take(k as int) =~= self.order@);
        order
    }

    /// The packages that the package with this handle depends on directly,
    /// in the order in which its manifest names them.
    pub fn dependencies_of(&self, handle: usize) -> (out: Vec<usize>)
        ensures
            handles(out@) == if handle < self@.size() {
                self@.edges()[handle as int]
            } else {
                Seq::empty()
            },
    {
        proof {
            use_type_invariant(self);
        }
        let mut out: Vec<usize> = Vec::new();
        if handle < self.edges.len() {
            let list = &self.edges[handle];
            assert(edge_lists(self.edges@)[handle as int] == handles(list@));
            let mut k: usize = 0;
            while k < list.len()
                invariant
                    k <= list.len(),
                    out@ == list@.take(k as int),
                decreases list.len() - k,
            {
                out.push(list[k]);
                assert(list@.take(k + 1) =~= list@.take(k as int).push(list@[k as int]));
                k += 1;
            }
            assert(list@.take(k as int) =~= list@);
            assert(self@.edges().len() == self@.size());
        } else {
            assert(self@.edges().len() == self@.size());
            assert(handles(out@) =~= Seq::<int>::empty());
        }
        out
    }

    /// The packages that depend on the package with this handle, in rising
    /// order of their handles: those that depend on it directly, or, where
    /// `transitive` is set, also those that do so through other packages.
    pub fn dependents_of(&self, handle: usize, transitive: bool) -> (out: Vec<usize>)
        ensures
            forall|i: int, j: int| 0 <= i < j < out.len() ==> out@[i] < out@[j],
            forall|a: int|
                handles(out@).contains(a) <==> if transitive {
                    self@.reaches(a, handle as int)
                } else {
                    self@.depends(a, handle as int)
                },
    {
        proof {
            use_type_invariant(self);
        }
        let n = self.edges.len();
        let ghost el = self@.edges();
        let ghost ord = self@.order;
        let mut flags: Vec<bool> = Vec::new();
        let mut j: usize = 0;
        while j < n
            invariant
                j <= n,
                flags.len() == j,
                forall|k: int| 0 <= k < j ==> !flags@[k],
            decreases n - j,
        {
            flags.push(false);
            j += 1;
        }
        assert(el.len() == n);
        if !transitive {
            let mut a: usize = 0;
            while a < n
                invariant
                    a <= n,
                    n == self.edges.len(),
                    flags.len() == n,
                    el == edge_lists(self.edges@),
                    forall|x: int| 0 <= x < a ==> (flags@[x] <==> depends(el, x, handle as int)),
                decreases n - a,
            {
                let direct = holds_handle(&self.edges[a], handle);
                assert(el[a as int] == handles(self.edges@[a as int]@));
                flags.set(a, direct);
                a += 1;
            }
            let out = flagged(&flags);
            assert forall|a: int| handles(out@).contains(a) <==> self@.depends(
                a,
                handle as int,
            ) by {
                if handles(out@).contains(a) {
                    assert(0 <= a < n && flags@[a]);
                    assert(depends(el, a, handle as int));
                }
                if self@.depends(a, handle as int) {
                    assert(depends(el, a, handle as int));
                    assert(0 <= a < n);
                    assert(flags@[a]);
                }
            }
            return out;
        }
        let mut k: usize = 0;
        while k < self.order.len()
            invariant
                k <= self.order.len(),
                n == self.edges.len(),
                flags.len() == n,
                el == edge_lists(self.edges@),
                el.len() == n,
                ord == handles(self.order@),
                is_order(el, ord),
                forall|i: int| 0 <= i < k ==> (flags@[ord[i]] <==> reaches(el, ord[i], handle as int)),
                forall|i: int| k <= i < ord.len() ==> !flags@[ord[i]],
            decreases self.order.len() - k,
        {
            let a = self.order[k];
            assert(ord[k as int] == a as int);
            let list = &self.edges[a];
            assert(el[a as int] == handles(list@));
            let mut hit = false;
            let mut t: usize = 0;
            while t < list.len()
                invariant
                    t <= list.len(),
                    k < self.order.len(),
                    a == self.order@[k as int],
                    a < n,
                    n == self.edges.len(),
                    flags.len() == n,
                    el.len() == n,
                    el[a as int] == handles(list@),
                    ord == handles(self.order@),
                    is_order(el, ord),
                    forall|i: int|
                        0 <= i < k ==> (flags@[ord[i]] <==> reaches(el, ord[i], handle as int)),
                    hit <==> exists|q: int|
                        0 <= q < t && (list@[q] == handle || reaches(
                            el,
                            #[trigger] list@[q] as int,
                            handle as int,
                        )),
                decreases list.len() - t,
            {
                let d = list[t];
                proof {
                    assert(handles(list@)[t as int] == d as int);
                    assert(depends(el, ord[k as int], d as int));
                    assert(ord.take(k as int).contains(d as int));
                    let i = choose|i: int|
                        0 <= i < ord.take(k as int).len() && ord.take(k as int)[i] == d as int;
                    assert(ord[i] == d as int);
                    assert(flags@[d as int] <==> reaches(el, d as int, handle as int));
                }
                if d == handle || flags[d] {
                    hit = true;
                }
                t += 1;
            }
            proof {
                if hit {
                    let q = choose|q: int|
                        0 <= q < list.len() && (list@[q] == handle || reaches(
                            el,
                            #[trigger] list@[q] as int,
                            handle as int,
                        ));
                    assert(handles(list@)[q] == list@[q] as int);
                    assert(depends(el, a as int, list@[q] as int));
                    lemma_reaches_step(el, a as int, list@[q] as int, handle as int);
                }
                if reaches(el, a as int, handle as int) {
                    let d = lemma_reaches_first(el, a as int, handle as int);
                    let q = choose|q: int| 0 <= q < handles(list@).len() && handles(list@)[q] == d;
                    assert(list@[q] as int == d);
                }
                assert forall|i: int| 0 <= i < k implies ord[i] != a as int by {}
                assert forall|i: int| k < i < ord.len() implies ord[i] != a as int by {}
            }
            flags.set(a, hit);
            k += 1;
        }
        let out = flagged(&flags);
        proof {
            assert forall|a: int| handles(out@).contains(a) <==> self@.reaches(
                a,
                handle as int,
            ) by {
                if self@.reaches(a, handle as int) {
                    let d = lemma_reaches_first(el, a, handle as int);
                    assert(0 <= a < n);
                }
                if handles(out@).contains(a) {
                    assert(0 <= a < n);
                }
                if 0 <= a < n {
                    assert(ord.contains(a));
                    let i = choose|i: int| 0 <= i < ord.len() && ord[i] == a;
                    assert(flags@[ord[i]] <==> reaches(el, ord[i], handle as int));
                }
            }
        }
        out
    }
}

} // verus!
