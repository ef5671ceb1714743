//! The next version of every package that is due for a release.
//!
//! A package that changed gets the bump that its commits and the check of
//! its interface call for. A package that did not change, but depends on
//! one that did, directly or not, gets a patch bump. All others are left
//! out.

use crate::commit::{any_feature, has_feature};
use crate::detect::{ChangeEntry, ChangeView};
use crate::graph::{
    depends, edges_of, handles, is_order, lemma_reaches_first, lemma_reaches_step, reaches,
    DependencyGraph, GraphView, PackageView,
};
use crate::text::{text_in, views};
use crate::version::{law_bump_moves_forward, Version, VersionBump};
use vstd::prelude::*;

verus! {

/// How the interface of a package compares with its last release.
#[derive(Clone, Copy, Debug, PartialEq, Eq, Structural)]
pub enum Compatibility {
    NotChecked,
    Compatible,
    Breaking,
}

/// What the check of a package's interface found.
#[derive(Debug)]
pub struct CompatibilityReport {
    pub status: Compatibility,
    /// What the check has to say to a reader, if anything.
    pub diagnostic: Option<String>,
}

/// What came of looking up the compatibility of one package.
#[derive(Debug)]
pub enum CompatibilityAnswer {
    /// The check ran, or was not asked for.
    Report(CompatibilityReport),
    /// The check could not be made; `reason` says why.
    Failed { reason: String },
}

/// The answer of the compatibility lookup, as plain values.
pub enum AnswerView {
    Report { status: Compatibility, diagnostic: Option<Seq<char>> },
    Failed { reason: Seq<char> },
}

impl View for CompatibilityAnswer {
    type V = AnswerView;

    open spec fn view(&self) -> AnswerView {
        match *self {
            CompatibilityAnswer::Report(report) => AnswerView::Report {
                status: report.status,
                diagnostic: text_in(report.diagnostic),
            },
            CompatibilityAnswer::Failed { reason } => AnswerView::Failed { reason: reason@ },
        }
    }
}

/// What the caller can choose.
#[derive(Clone, Copy, Debug)]
pub struct DecideOptions {
    /// Whether a feature calls for a minor bump before version 1.0.0 too.
    /// Without it, a feature is a patch bump there.
    pub features_always_increment_minor: bool,
}

/// The release of one package.
#[derive(Debug)]
pub struct ReleaseDecision {
    /// The handle of the package.
    pub package: usize,
    /// The version released last; `None` for a first release.
    pub previous: Option<Version>,
    /// The version to release.
    pub next: Version,
    /// How heavy the changes are.
    pub bump: VersionBump,
    /// What the check of the interface found, for a package that changed.
    pub compatibility: Compatibility,
    /// What the check has to say to a reader.
    pub diagnostic: Option<String>,
    /// Why the check could not be made, if it could not.
    pub warning: Option<String>,
    /// The direct dependencies that are released too.
    pub updated_dependencies: Vec<usize>,
}

/// What a release decision holds, as plain values.
pub struct DecisionView {
    pub package: int,
    pub previous: Option<Version>,
    pub next: Version,
    pub bump: VersionBump,
    pub compatibility: Compatibility,
    pub diagnostic: Option<Seq<char>>,
    pub warning: Option<Seq<char>>,
    pub updated_dependencies: Seq<int>,
}

impl View for ReleaseDecision {
    type V = DecisionView;

    open spec fn view(&self) -> DecisionView {
        DecisionView {
            package: self.package as int,
            previous: self.previous,
            next: self.next,
            bump: self.bump,
            compatibility: self.compatibility,
            diagnostic: text_in(self.diagnostic),
            warning: text_in(self.warning),
            updated_dependencies: handles(self.updated_dependencies@),
        }
    }
}

/// Why no decisions could be made.
#[derive(Debug)]
pub enum DecideError {
    /// The version of `package` cannot be raised: the number to raise is
    /// the largest there is.
    VersionOverflow { package: usize },
}

/// All that the decisions of one run rest on.
pub struct Round {
    pub packages: Seq<PackageView>,
    pub order: Seq<int>,
    pub changes: Seq<ChangeView>,
    pub answers: Seq<AnswerView>,
    pub features_always_increment_minor: bool,
}

impl Round {
    /// The dependencies of each package, by handle.
    pub open spec fn edges(self) -> Seq<Seq<int>> {
        edges_of(self.packages)
    }

    /// Whether there is an entry and an answer for each package, and the
    /// order is one of the packages.
    pub open spec fn wf(self) -> bool {
        &&& self.changes.len() == self.packages.len()
        &&& self.answers.len() == self.packages.len()
        &&& is_order(self.edges(), self.order)
    }

    /// Whether the check found that the interface of package `i` broke.
    pub open spec fn breaking(self, i: int) -> bool {
        self.answers[i] matches AnswerView::Report { status, .. } && status
            == Compatibility::Breaking
    }

    /// The bump that the package's own changes call for: none where it did
    /// not change; major where its interface broke; minor where it got a
    /// feature, as far as features count as minor; else patch.
    pub open spec fn own_bump(self, i: int) -> VersionBump {
        if !self.changes[i].changed {
            VersionBump::Unchanged
        } else if self.breaking(i) {
            VersionBump::Major
        } else if has_feature(self.changes[i].commits) && (self.features_always_increment_minor
            || self.packages[i].version.major >= 1) {
            VersionBump::Minor
        } else {
            VersionBump::Patch
        }
    }

    /// What the check found for package `i`, as far as the package changed
    /// and the check was made.
    pub open spec fn compatibility(self, i: int) -> Compatibility {
        match self.answers[i] {
            AnswerView::Report { status, .. } => if self.changes[i].changed {
                status
            } else {
                Compatibility::NotChecked
            },
            AnswerView::Failed { .. } => Compatibility::NotChecked,
        }
    }

    /// What the check has to say of package `i`, where the package changed.
    pub open spec fn diagnostic(self, i: int) -> Option<Seq<char>> {
        match self.answers[i] {
            AnswerView::Report { diagnostic, .. } => if self.changes[i].changed {
                diagnostic
            } else {
                None
            },
            AnswerView::Failed { .. } => None,
        }
    }

    /// Why package `i` could not be checked, where it changed and could
    /// not.
    pub open spec fn warning(self, i: int) -> Option<Seq<char>> {
        match self.answers[i] {
            AnswerView::Report { .. } => None,
            AnswerView::Failed { reason } => if self.changes[i].changed {
                Some(reason)
            } else {
                None
            },
        }
    }

    /// Whether package `i` depends, directly or not, on a package that
    /// changed.
    pub open spec fn affected(self, i: int) -> bool {
        exists|j: int| #[trigger] reaches(self.edges(), i, j) && self.changes[j].changed
    }

    /// The bump of package `i`: the heavier of what its own changes call
    /// for and of the patch bump that a changed dependency calls for.
    pub open spec fn bump(self, i: int) -> VersionBump {
        self.own_bump(i).heavier(
            if self.affected(i) {
                VersionBump::Patch
            } else {
                VersionBump::Unchanged
            },
        )
    }

    /// Those of `list` that get a bump, in order.
    pub open spec fn released_among(self, list: Seq<int>) -> Seq<int>
        decreases list.len(),
    {
        if list.len() == 0 {
            Seq::empty()
        } else {
            let before = self.released_among(list.drop_last());
            if self.bump(list.last()) != VersionBump::Unchanged {
                before.push(list.last())
            } else {
                before
            }
        }
    }

    /// Whether package `i` is due for a release whose version cannot be
    /// computed.
    pub open spec fn blocked(self, i: int) -> bool {
        &&& self.bump(i) != VersionBump::Unchanged
        &&& self.changes[i].released
        &&& !self.packages[i].version.can_bump(self.bump(i))
    }

    /// The decision for package `i`, which is due for a release. A package
    /// that was released before moves on from its version by its bump; one
    /// that was not is released at the version it has.
    pub open spec fn decision(self, i: int) -> DecisionView {
        let version = self.packages[i].version;
        DecisionView {
            package: i,
            previous: if self.changes[i].released {
                Some(version)
            } else {
                None
            },
            next: if self.changes[i].released {
                version.bumped(self.bump(i))
            } else {
                version
            },
            bump: self.bump(i),
            compatibility: self.compatibility(i),
            diagnostic: self.diagnostic(i),
            warning: self.warning(i),
            updated_dependencies: self.released_among(self.edges()[i]),
        }
    }

    /// The decisions for the first `upto` packages of the order: one for
    /// each that gets a bump, in that order.
    pub open spec fn decisions(self, upto: int) -> Seq<DecisionView>
        decreases upto,
    {
        if upto <= 0 {
            Seq::empty()
        } else {
            let before = self.decisions(upto - 1);
            let x = self.order[upto - 1];
            if self.bump(x) != VersionBump::Unchanged {
                before.push(self.decision(x))
            } else {
                before
            }
        }
    }

    /// The place in the order of the first package, among the first `upto`,
    /// whose version cannot be computed.
    pub open spec fn first_blocked(self, upto: int) -> Option<int>
        decreases upto,
    {
        if upto <= 0 {
            None
        } else {
            match self.first_blocked(upto - 1) {
                Some(k) => Some(k),
                None => if self.blocked(self.order[upto - 1]) {
                    Some(upto - 1)
                } else {
                    None
                },
            }
        }
    }

    /// What deciding comes to: the decisions for all packages, or the
    /// handle of the first package whose version cannot be computed.
    pub open spec fn outcome(self) -> Result<Seq<DecisionView>, int> {
        match self.first_blocked(self.order.len() as int) {
            Some(k) => Err(self.order[k]),
            None => Ok(self.decisions(self.order.len() as int)),
        }
    }
}

/// The round that a graph, the changes, the answers of the compatibility
/// lookup and the options make up.
pub open spec fn round_of(
    graph: GraphView,
    changes: Seq<ChangeEntry>,
    answers: Seq<CompatibilityAnswer>,
    options: DecideOptions,
) -> Round {
    Round {
        packages: graph.packages,
        order: graph.order,
        changes: views(changes),
        answers: views(answers),
        features_always_increment_minor: options.features_always_increment_minor,
    }
}

/// A package gets a bump exactly if it changed or depends on one that did.
pub proof fn lemma_bump_iff_touched(round: Round, i: int)
    ensures
        round.bump(i) != VersionBump::Unchanged <==> (round.changes[i].changed || round.affected(i)),
        round.changes[i].changed ==> round.bump(i) == round.own_bump(i),
        !round.changes[i].changed && round.affected(i) ==> round.bump(i) == VersionBump::Patch,
{
}

/// A package depends on a changed one, directly or not, exactly if one of
/// its direct dependencies gets a bump.
pub proof fn lemma_affected_by_dependency(round: Round, x: int)
    ensures
        round.affected(x) <==> exists|d: int| #[trigger]
            depends(round.edges(), x, d) && round.bump(d) != VersionBump::Unchanged,
{
    let edges = round.edges();
    if round.affected(x) {
        let j = choose|j: int| #[trigger] reaches(edges, x, j) && round.changes[j].changed;
        let d = lemma_reaches_first(edges, x, j);
        if d != j {
            assert(reaches(edges, d, j) && round.changes[j].changed);
        }
        lemma_bump_iff_touched(round, d);
        assert(depends(edges, x, d) && round.bump(d) != VersionBump::Unchanged);
    }
    if exists|d: int| #[trigger]
        depends(edges, x, d) && round.bump(d) != VersionBump::Unchanged {
        let d = choose|d: int| #[trigger]
            depends(edges, x, d) && round.bump(d) != VersionBump::Unchanged;
        lemma_bump_iff_touched(round, d);
        if round.changes[d].changed {
            lemma_reaches_step(edges, x, d, d);
            assert(reaches(edges, x, d) && round.changes[d].changed);
        } else {
            let j = choose|j: int| #[trigger] reaches(edges, d, j) && round.changes[j].changed;
            lemma_reaches_step(edges, x, d, j);
            assert(reaches(edges, x, j) && round.changes[j].changed);
        }
    }
}

/// What is listed among those of `list` that get a bump.
pub proof fn lemma_released_among(round: Round, list: Seq<int>)
    ensures
        forall|d: int| #[trigger]
            round.released_among(list).contains(d) <==> (list.contains(d) && round.bump(d)
                != VersionBump::Unchanged),
    decreases list.len(),
{
    let all = round.released_among(list);
    if list.len() == 0 {
    } else {
        let front = list.drop_last();
        let before = round.released_among(front);
        lemma_released_among(round, front);
        assert forall|d: int| #[trigger]
            all.contains(d) <==> (list.contains(d) && round.bump(d)
                != VersionBump::Unchanged) by {
            if all.contains(d) {
                let k = choose|k: int| 0 <= k < all.len() && all[k] == d;
                if k < before.len() {
                    assert(before[k] == d);
                    assert(before.contains(d));
                    let q = choose|q: int| 0 <= q < front.len() && front[q] == d;
                    assert(list[q] == d);
                } else {
                    assert(list[list.len() - 1] == d);
                }
            }
            if list.contains(d) && round.bump(d) != VersionBump::Unchanged {
                let q = choose|q: int| 0 <= q < list.len() && list[q] == d;
                if q < front.len() {
                    assert(front[q] == d);
                    assert(before.contains(d));
                    let k = choose|k: int| 0 <= k < before.len() && before[k] == d;
                    assert(all[k] == d);
                } else {
                    assert(all[all.len() - 1] == d);
                }
            }
        }
    }
}

/// Once a package is found whose version cannot be computed, it stays the
/// first such.
pub proof fn lemma_first_blocked_stays(round: Round, k: int, upto: int)
    requires
        0 <= k < upto,
        round.first_blocked(k) is None,
        round.blocked(round.order[k]),
    ensures
        round.first_blocked(upto) == Some(k),
    decreases upto,
{
    if upto > k + 1 {
        lemma_first_blocked_stays(round, k, upto - 1);
    }
}

/// A copy of the text in `o`, if any.
fn clone_text(o: &Option<String>) -> (out: Option<String>)
    ensures
        text_in(out) == text_in(*o),
{
    match o {
        Some(s) => Some(s.clone()),
        None => None,
    }
}

/// Those direct dependencies of the package at place `k` of the order
/// that get a bump, given the bumps of the packages before it.
fn released_dependencies(
    graph: &DependencyGraph,
    bumps: &Vec<VersionBump>,
    x: usize,
    Ghost(round): Ghost<Round>,
    Ghost(k): Ghost<int>,
) -> (updated: Vec<usize>)
    requires
        round.packages == graph@.packages,
        round.order == graph@.order,
        graph@.wf(),
        0 <= k < round.order.len(),
        round.order[k] == x,
        bumps.len() == graph@.size(),
        forall|i: int| 0 <= i < k ==> bumps@[round.order[i]] == round.bump(round.order[i]),
    ensures
        handles(updated@) == round.released_among(round.edges()[x as int]),
        updated.len() > 0 <==> round.affected(x as int),
{
    let ghost edges = round.edges();
    let ghost ord = round.order;
    let deps = graph.dependencies_of(x);
    let ghost list = handles(deps@);
    let mut updated: Vec<usize> = Vec::new();
    let mut t: usize = 0;
    assert(handles(updated@) =~= round.released_among(list.take(0)));
    while t < deps.len()
        invariant
            t <= deps.len(),
            0 <= k < ord.len(),
            ord[k] == x,
            bumps.len() == edges.len(),
            list == handles(deps@),
            list == edges[x as int],
            x < edges.len(),
            is_order(edges, ord),
            forall|i: int| 0 <= i < k ==> bumps@[ord[i]] == round.bump(ord[i]),
            handles(updated@) == round.released_among(list.take(t as int)),
        decreases deps.len() - t,
    {
        let d = deps[t];
        let ghost before = handles(updated@);
        proof {
            assert(list[t as int] == d as int);
            assert(depends(edges, ord[k], d as int));
            assert(ord.take(k).contains(d as int));
            let i = choose|i: int| 0 <= i < ord.take(k).len() && ord.take(k)[i] == d as int;
            assert(ord[i] == d as int);
            assert(list.take(t + 1).drop_last() =~= list.take(t as int));
        }
        if bumps[d].is_some() {
            updated.push(d);
            assert(handles(updated@) =~= before.push(d as int));
        }
        t += 1;
    }
    proof {
        assert(list.take(t as int) =~= list);
        lemma_affected_by_dependency(round, x as int);
        lemma_released_among(round, list);
        let gone = round.released_among(list);
        if updated.len() > 0 {
            assert(gone.contains(gone[0]));
            assert(depends(edges, x as int, gone[0]));
        }
        if round.affected(x as int) {
            let d = choose|d: int| #[trigger]
                depends(edges, x as int, d) && round.bump(d) != VersionBump::Unchanged;
            assert(gone.contains(d));
        }
    }
    updated
}

/// The bump that a package's own changes call for.
fn own_bump_of(
    version: &Version,
    entry: &ChangeEntry,
    answer: &CompatibilityAnswer,
    options: &DecideOptions,
) -> (bump: VersionBump)
    ensures
        bump == if !entry.changed {
            VersionBump::Unchanged
        } else if (answer@ matches AnswerView::Report { status, .. } && status
            == Compatibility::Breaking) {
            VersionBump::Major
        } else if has_feature(entry@.commits) && (options.features_always_increment_minor
            || version.major >= 1) {
            VersionBump::Minor
        } else {
            VersionBump::Patch
        },
{
    if !entry.changed {
        VersionBump::Unchanged
    } else if is_breaking(answer) {
        VersionBump::Major
    } else if any_feature(&entry.commits) && (options.features_always_increment_minor
        || version.major >= 1) {
        VersionBump::Minor
    } else {
        VersionBump::Patch
    }
}

/// The decision for a package with the given bump, which is not none;
/// `None` where its version cannot be raised.
fn decision_for(
    x: usize,
    version: &Version,
    entry: &ChangeEntry,
    answer: &CompatibilityAnswer,
    bump: VersionBump,
    updated: Vec<usize>,
    Ghost(round): Ghost<Round>,
) -> (out: Option<ReleaseDecision>)
    requires
        0 <= x < round.packages.len(),
        round.packages[x as int].version == *version,
        round.changes[x as int] == entry@,
        round.answers[x as int] == answer@,
        bump == round.bump(x as int),
        bump != VersionBump::Unchanged,
        handles(updated@) == round.released_among(round.edges()[x as int]),
    ensures
        match out {
            Some(decision) => !round.blocked(x as int) && decision@ == round.decision(x as int),
            None => round.blocked(x as int),
        },
{
    let next = if entry.released {
        match version.next(bump) {
            Some(version) => version,
            None => { return None; },
        }
    } else {
        *version
    };
    let previous = if entry.released {
        Some(*version)
    } else {
        None
    };
    Some(
        ReleaseDecision {
            package: x,
            previous,
            next,
            bump,
            compatibility: compatibility_of(entry.changed, answer),
            diagnostic: diagnostic_of(entry.changed, answer),
            warning: warning_of(entry.changed, answer),
            updated_dependencies: updated,
        },
    )
}

/// The versions of all packages that are due for a release.
///
/// Each package has an entry in `changes` and an answer in `answers`, by
/// handle. The result lists the decisions in the order of the graph, so
/// that a package follows the packages it depends on. A package that
/// neither changed nor depends, however far down, on one that did is left
/// out. The bump of a package is never less than what its own changes call
/// for; a broken interface makes it major, and a failed check never does.
/// The error names the first package, in that order, whose version cannot
/// be raised.
pub fn decide(
    graph: &DependencyGraph,
    changes: &Vec<ChangeEntry>,
    answers: &Vec<CompatibilityAnswer>,
    options: &DecideOptions,
) -> (out: Result<Vec<ReleaseDecision>, DecideError>)
    requires
        changes.len() == graph@.size(),
        answers.len() == graph@.size(),
    ensures
        graph@.wf(),
        match out {
            Ok(decisions) => round_of(graph@, changes@, answers@, *options).outcome() == Ok::<
                Seq<DecisionView>,
                int,
            >(views(decisions@)),
            Err(DecideError::VersionOverflow { package }) => round_of(
                graph@,
                changes@,
                answers@,
                *options,
            ).outcome() == Err::<Seq<DecisionView>, int>(package as int),
        },
{
    let order = graph.topological_order();
    let n = graph.len();
    let ghost round = round_of(graph@, changes@, answers@, *options);
    let ghost ord = round.order;
    let mut bumps: Vec<VersionBump> = Vec::new();
    let mut j: usize = 0;
    while j < n
        invariant
            j <= n,
            bumps.len() == j,
        decreases n - j,
    {
        bumps.push(VersionBump::Unchanged);
        j += 1;
    }
    let mut out: Vec<ReleaseDecision> = Vec::new();
    let mut k: usize = 0;
    assert(views(out@) =~= round.decisions(0));
    while k < order.len()
        invariant
            k <= order.len(),
            n == graph@.size(),
            changes.len() == n,
            answers.len() == n,
            bumps.len() == n,
            graph@.wf(),
            round == round_of(graph@, changes@, answers@, *options),
            ord == round.order,
            ord == handles(order@),
            forall|i: int| 0 <= i < k ==> bumps@[ord[i]] == round.bump(ord[i]),
            views(out@) == round.decisions(k as int),
            round.first_blocked(k as int) is None,
        decreases order.len() - k,
    {
        let x = order[k];
        assert(ord[k as int] == x as int);
        assert(x < n);
        let package = graph.package_at(x);
        let updated = released_dependencies(graph, &bumps, x, Ghost(round), Ghost(k as int));
        let own = own_bump_of(&package.version, &changes[x], &answers[x], options);
        let pulled = if updated.len() > 0 {
            VersionBump::Patch
        } else {
            VersionBump::Unchanged
        };
        let bump = own.max(pulled);
        assert(round.changes[x as int] == changes@[x as int]@);
        assert(round.answers[x as int] == answers@[x as int]@);
        assert(bump == round.bump(x as int));
        bumps.set(x, bump);
        assert forall|i: int| 0 <= i < k + 1 implies bumps@[ord[i]] == round.bump(ord[i]) by {
            if i < k {
                assert(ord[i] != ord[k as int]);
            }
        }
        if bump.is_some() {
            match decision_for(
                x,
                &package.version,
                &changes[x],
                &answers[x],
                bump,
                updated,
                Ghost(round),
            ) {
                Some(decision) => {
                    let ghost before = views(out@);
                    out.push(decision);
                    assert(views(out@) =~= before.push(round.decision(x as int)));
                },
                None => {
                    proof {
                        lemma_first_blocked_stays(round, k as int, ord.len() as int);
                    }
                    return Err(DecideError::VersionOverflow { package: x });
                },
            }
        }
        k += 1;
    }
    Ok(out)
}

/// Whether the check found that the interface broke.
fn is_breaking(answer: &CompatibilityAnswer) -> (b: bool)
    ensures
        b == (answer@ matches AnswerView::Report { status, .. } && status
            == Compatibility::Breaking),
{
    match answer {
        CompatibilityAnswer::Report(report) => match report.status {
            Compatibility::Breaking => true,
            _ => false,
        },
        CompatibilityAnswer::Failed { .. } => false,
    }
}

/// What the check found, as far as the package changed and the check was
/// made.
fn compatibility_of(changed: bool, answer: &CompatibilityAnswer) -> (status: Compatibility)
    ensures
        status == match answer@ {
            AnswerView::Report { status, .. } => if changed {
                status
            } else {
                Compatibility::NotChecked
            },
            AnswerView::Failed { .. } => Compatibility::NotChecked,
        },
{
    match answer {
        CompatibilityAnswer::Report(report) => if changed {
            report.status
        } else {
            Compatibility::NotChecked
        },
        CompatibilityAnswer::Failed { .. } => Compatibility::NotChecked,
    }
}

/// What the check has to say, where the package changed.
fn diagnostic_of(changed: bool, answer: &CompatibilityAnswer) -> (words: Option<String>)
    ensures
        text_in(words) == match answer@ {
            AnswerView::Report { diagnostic, .. } => if changed {
                diagnostic
            } else {
                None
            },
            AnswerView::Failed { .. } => None,
        },
{
    match answer {
        CompatibilityAnswer::Report(report) => if changed {
            clone_text(&report.diagnostic)
        } else {
            None
        },
        CompatibilityAnswer::Failed { .. } => None,
    }
}

/// Why the package could not be checked, where it changed and could not.
fn warning_of(changed: bool, answer: &CompatibilityAnswer) -> (words: Option<String>)
    ensures
        text_in(words) == match answer@ {
            AnswerView::Report { .. } => None,
            AnswerView::Failed { reason } => if changed {
                Some(reason)
            } else {
                None
            },
        },
{
    match answer {
        CompatibilityAnswer::Report(_) => None,
        CompatibilityAnswer::Failed { reason } => if changed {
            Some(reason.clone())
        } else {
            None
        },
    }
}

/// Every decision among those for the first `upto` packages of the order
/// is that of one of these packages, which gets a bump. The result is the
/// place of that package in the order.
pub proof fn lemma_decision_source(round: Round, upto: int, k: int) -> (i: int)
    requires
        0 <= k < round.decisions(upto).len(),
    ensures
        0 <= i < upto,
        round.decisions(upto)[k] == round.decision(round.order[i]),
        round.bump(round.order[i]) != VersionBump::Unchanged,
        round.decisions(i).len() == k,
    decreases upto,
{
    let before = round.decisions(upto - 1);
    if k < before.len() {
        lemma_decision_source(round, upto - 1, k)
    } else {
        upto - 1
    }
}

/// The decisions only grow in number with the packages that are looked at.
pub proof fn lemma_decisions_grow(round: Round, from: int, upto: int)
    requires
        0 <= from <= upto,
    ensures
        round.decisions(from).len() <= round.decisions(upto).len(),
    decreases upto - from,
{
    if from < upto {
        lemma_decisions_grow(round, from, upto - 1);
    }
}

/// Every package among the first `upto` of the order that gets a bump has
/// its decision among those for these packages. The result is the place of
/// that decision.
pub proof fn lemma_decision_place(round: Round, upto: int, i: int) -> (k: int)
    requires
        0 <= i < upto,
        round.bump(round.order[i]) != VersionBump::Unchanged,
    ensures
        0 <= k < round.decisions(upto).len(),
        round.decisions(upto)[k] == round.decision(round.order[i]),
    decreases upto,
{
    let before = round.decisions(upto - 1);
    if i < upto - 1 {
        lemma_decision_place(round, upto - 1, i)
    } else {
        before.len() as int
    }
}

/// Where no package among the first `upto` of the order is blocked, none
/// of them is.
pub proof fn lemma_none_blocked(round: Round, upto: int, i: int)
    requires
        0 <= i < upto,
        round.first_blocked(upto) is None,
    ensures
        !round.blocked(round.order[i]),
    decreases upto,
{
    if i < upto - 1 {
        lemma_none_blocked(round, upto - 1, i);
    }
}

/// A package that did not change, and that depends neither directly nor
/// through others on one that did, gets no bump and no decision.
pub proof fn law_untouched_package_is_left_out(round: Round, p: int)
    requires
        !round.changes[p].changed,
        forall|j: int| #[trigger] reaches(round.edges(), p, j) ==> !round.changes[j].changed,
    ensures
        round.bump(p) == VersionBump::Unchanged,
        forall|k: int|
            0 <= k < round.decisions(round.order.len() as int).len() ==> (#[trigger] round.decisions(
                round.order.len() as int,
            )[k]).package != p,
{
    let n = round.order.len() as int;
    assert forall|k: int| 0 <= k < round.decisions(n).len() implies (#[trigger] round.decisions(
        n,
    )[k]).package != p by {
        let i = lemma_decision_source(round, n, k);
    }
}

/// A package that changed, or that depends on one that did, has exactly
/// the bump that the rules give it in its decision. The result is the place
/// of that decision.
pub proof fn law_touched_package_is_decided(round: Round, p: int) -> (k: int)
    requires
        round.wf(),
        0 <= p < round.packages.len(),
        round.changes[p].changed || round.affected(p),
    ensures
        0 <= k < round.decisions(round.order.len() as int).len(),
        round.decisions(round.order.len() as int)[k] == round.decision(p),
        round.decision(p).package == p,
        round.decision(p).bump == round.bump(p),
        round.bump(p) != VersionBump::Unchanged,
{
    let n = round.order.len() as int;
    lemma_bump_iff_touched(round, p);
    assert(round.order.contains(p));
    let i = choose|i: int| 0 <= i < round.order.len() && round.order[i] == p;
    lemma_decision_place(round, n, i)
}

/// In a chain in which `a` depends on `b` and `b` on `c`, a change that
/// breaks the interface of `c`, while `a` and `b` did not change, is a
/// major bump for `c` and a patch bump, no more, for `b` and for `a`.
pub proof fn law_breaking_change_reaches_dependents_as_patch(round: Round, a: int, b: int, c: int)
    requires
        depends(round.edges(), a, b),
        depends(round.edges(), b, c),
        round.changes[c].changed,
        round.breaking(c),
        !round.changes[a].changed,
        !round.changes[b].changed,
    ensures
        round.bump(c) == VersionBump::Major,
        round.bump(b) == VersionBump::Patch,
        round.bump(a) == VersionBump::Patch,
{
    let edges = round.edges();
    lemma_reaches_step(edges, b, c, c);
    lemma_reaches_step(edges, a, b, c);
    assert(reaches(edges, b, c) && round.changes[c].changed);
    assert(reaches(edges, a, c) && round.changes[c].changed);
}

/// Whenever decisions are made, the version that a decision releases is
/// later than the version that was released before.
pub proof fn law_next_version_is_later(round: Round, k: int)
    requires
        round.first_blocked(round.order.len() as int) is None,
        0 <= k < round.decisions(round.order.len() as int).len(),
    ensures
        round.decisions(round.order.len() as int)[k].previous matches Some(previous)
            ==> previous.precedes(round.decisions(round.order.len() as int)[k].next),
{
    let n = round.order.len() as int;
    let i = lemma_decision_source(round, n, k);
    let x = round.order[i];
    lemma_none_blocked(round, n, i);
    if round.changes[x].released {
        law_bump_moves_forward(round.packages[x].version, round.bump(x));
    }
}

/// A check that failed never makes a bump major: the bump is then what the
/// commits alone call for.
pub proof fn law_failed_check_is_not_breaking(round: Round, i: int)
    requires
        round.answers[i] is Failed,
    ensures
        round.bump(i) != VersionBump::Major,
        round.decision(i).compatibility == Compatibility::NotChecked,
{
}

/// The decisions stand in the order of the dependencies: where a package
/// depends on another and both are released, the decision for the other
/// comes first.
pub proof fn law_dependencies_are_decided_first(round: Round, first: int, second: int)
    requires
        round.wf(),
        0 <= first < round.decisions(round.order.len() as int).len(),
        0 <= second < round.decisions(round.order.len() as int).len(),
        depends(
            round.edges(),
            round.decisions(round.order.len() as int)[second].package,
            round.decisions(round.order.len() as int)[first].package,
        ),
    ensures
        first < second,
{
    let n = round.order.len() as int;
    let i = lemma_decision_source(round, n, first);
    let j = lemma_decision_source(round, n, second);
    let b = round.order[i];
    assert(depends(round.edges(), round.order[j], b));
    assert(round.order.take(j).contains(b));
    let at = choose|at: int| 0 <= at < round.order.take(j).len() && round.order.take(j)[at] == b;
    assert(round.order[at] == b);
    if at != i {
        if at < i {
            assert(round.order[at] != round.order[i]);
        } else {
            assert(round.order[i] != round.order[at]);
        }
    }
    lemma_decisions_grow(round, i + 1, j);
}

} // verus!
