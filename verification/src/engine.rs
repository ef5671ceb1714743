//! One run of the engine, from the packages and what is known of them to
//! the plan and what is to be done about the request.
//!
//! All that a run needs from outside is gathered beforehand and handed in;
//! what comes out is carried out by the caller.

use crate::changelog::{build, built, ChangelogSection, ReleaseContext, SectionView};
use crate::decide::{
    decide, lemma_decision_source, round_of, AnswerView, CompatibilityAnswer, DecideError,
    DecideOptions, DecisionView, ReleaseDecision, Round,
};
use crate::detect::{detect, detected, ChangeEntry, ChangeView, ResolvedPath, ResolvedView};
use crate::graph::{
    acyclic, depends, edges_of, is_canonical, is_order, is_path, law_acyclic_has_canonical_order,
    law_order_is_unique, lemma_edges_in_range, names_of, reaches, schedulable, CycleError,
    DependencyGraph, Package, PackageView,
};
use crate::plan::{plan, plan_failure, planned, ConfigView, PlanConfig, PlanError, PlanFault};
use crate::request::{
    reconcile, reconciled, request_view, ActionView, OutgoingRequest, PlanView, Reconciliation,
    ReleasePlan, RequestView,
};
use crate::text::{chars_of, push_str, string_of, views};
use crate::version::VersionBump;
use vstd::prelude::*;

verus! {

/// What is known of one package when a run begins.
#[derive(Debug)]
pub struct PackageState {
    /// The files that the package declares besides its sources.
    pub documents: Vec<ResolvedPath>,
    /// The files that were touched since the last release of the package.
    pub touched: Vec<ResolvedPath>,
    /// The subjects of the commits that touched the package since then,
    /// newest first.
    pub newest_first: Vec<String>,
    /// Whether the package was released before.
    pub released: bool,
    /// The changelog of the package as it stands.
    pub changelog: String,
    /// Whether the registry already has the version that the package would
    /// be released at.
    pub published: bool,
}

/// What a package state holds, as plain values.
pub struct StateView {
    pub documents: Seq<ResolvedView>,
    pub touched: Seq<ResolvedView>,
    pub newest_first: Seq<Seq<char>>,
    pub released: bool,
    pub changelog: Seq<char>,
    pub published: bool,
}

impl View for PackageState {
    type V = StateView;

    open spec fn view(&self) -> StateView {
        StateView {
            documents: views(self.documents@),
            touched: views(self.touched@),
            newest_first: views(self.newest_first@),
            released: self.released,
            changelog: self.changelog@,
            published: self.published,
        }
    }
}

/// What a run is set up with.
#[derive(Debug)]
pub struct Settings {
    pub options: DecideOptions,
    pub config: PlanConfig,
    /// The address of the repository on the hosting platform.
    pub repository_url: String,
    /// The day of the release, as `YYYY-MM-DD`.
    pub date: String,
    /// The branch to open a request from, should one be opened.
    pub new_branch: String,
}

/// The settings of a run, as plain values.
pub struct SettingsView {
    pub features_always_increment_minor: bool,
    pub config: ConfigView,
    pub repository_url: Seq<char>,
    pub date: Seq<char>,
    pub new_branch: Seq<char>,
}

impl View for Settings {
    type V = SettingsView;

    open spec fn view(&self) -> SettingsView {
        SettingsView {
            features_always_increment_minor: self.options.features_always_increment_minor,
            config: self.config@,
            repository_url: self.repository_url@,
            date: self.date@,
            new_branch: self.new_branch@,
        }
    }
}

/// What a run comes to.
#[derive(Debug)]
pub struct Outcome {
    /// The packages, in the order in which they are released.
    pub graph: DependencyGraph,
    /// The plan.
    pub plan: ReleasePlan,
    /// The sections to write into the changelogs.
    pub sections: Vec<ChangelogSection>,
    /// What is to be done about the request.
    pub action: Reconciliation,
}

/// Why a run comes to nothing.
#[derive(Debug)]
pub enum RunError {
    /// The dependencies run in a cycle.
    Cycle(CycleError),
    /// There is not one state and one answer for each package.
    Incomplete,
    /// A version cannot be raised.
    Decide(DecideError),
    /// The request cannot be written.
    Plan(PlanError),
}

/// What a run comes to, as plain values.
pub struct OutcomeView {
    pub plan: PlanView,
    pub sections: Seq<SectionView>,
    pub action: ActionView,
}

/// Why a run comes to nothing, as plain values.
pub enum RunFault {
    Cycle { package: int },
    Incomplete,
    VersionOverflow { package: int },
    Plan(PlanFault),
}

impl View for RunError {
    type V = RunFault;

    open spec fn view(&self) -> RunFault {
        match *self {
            RunError::Cycle(error) => RunFault::Cycle { package: error.package as int },
            RunError::Incomplete => RunFault::Incomplete,
            RunError::Decide(DecideError::VersionOverflow { package }) => RunFault::VersionOverflow {
                package: package as int,
            },
            RunError::Plan(error) => RunFault::Plan(error@),
        }
    }
}

/// The words for a run that comes to nothing: they name the package, the
/// label or the variable that is at fault.
pub open spec fn run_failure(names: Seq<Seq<char>>, fault: RunFault) -> Seq<char> {
    match fault {
        RunFault::Cycle { package } => "the dependencies of package `"@ + name_at(names, package)
            + "` run in a cycle"@,
        RunFault::Incomplete => "not every package has its state and its compatibility answer"@,
        RunFault::VersionOverflow { package } => "the version of package `"@ + name_at(
            names,
            package,
        ) + "` cannot be raised"@,
        RunFault::Plan(fault) => plan_failure(fault),
    }
}

impl RunError {
    /// The words for this error, with the names that `names` gives the
    /// packages by handle.
    pub fn message(&self, names: &Vec<String>) -> (words: String)
        ensures
            words@ == run_failure(views(names@), self@),
    {
        match self {
            RunError::Cycle(error) => {
                let mut out = chars_of("the dependencies of package `");
                push_name(&mut out, names, error.package);
                push_str(&mut out, "` run in a cycle");
                string_of(&out)
            },
            RunError::Incomplete => {
                "not every package has its state and its compatibility answer".to_owned()
            },
            RunError::Decide(DecideError::VersionOverflow { package }) => {
                let mut out = chars_of("the version of package `");
                push_name(&mut out, names, *package);
                push_str(&mut out, "` cannot be raised");
                string_of(&out)
            },
            RunError::Plan(error) => error.message(),
        }
    }
}

/// The name with index `package`, or nothing where there is none.
pub open spec fn name_at(names: Seq<Seq<char>>, package: int) -> Seq<char> {
    if 0 <= package < names.len() {
        names[package]
    } else {
        Seq::empty()
    }
}

/// Appends the name with index `package`, if there is one.
fn push_name(out: &mut Vec<char>, names: &Vec<String>, package: usize)
    ensures
        final(out)@ == old(out)@ + name_at(views(names@), package as int),
{
    if package < names.len() {
        push_str(out, names[package].as_str());
    }
    assert(out@ =~= old(out)@ + name_at(views(names@), package as int));
}

/// The order in which the packages are worked on.
pub open spec fn order_of(packages: Seq<PackageView>) -> Seq<int> {
    choose|o: Seq<int>|
        o.len() == packages.len() && is_order(edges_of(packages), o) && is_canonical(
            names_of(packages),
            edges_of(packages),
            o,
        )
}

/// Whether `x` is the first package, by handle, that no schedule can hold.
pub open spec fn is_first_blocked(edges: Seq<Seq<int>>, x: int) -> bool {
    &&& 0 <= x < edges.len()
    &&& !schedulable(edges, x)
    &&& forall|y: int| 0 <= y < x ==> schedulable(edges, y)
}

/// The first package, by handle, that no schedule can hold.
pub open spec fn first_blocked_package(edges: Seq<Seq<int>>) -> int {
    choose|x: int| is_first_blocked(edges, x)
}

/// What is known of the changes of each package.
pub open spec fn changes_of(packages: Seq<PackageView>, states: Seq<StateView>) -> Seq<
    ChangeView,
> {
    Seq::new(
        packages.len(),
        |i: int|
            detected(
                packages[i],
                states[i].documents,
                states[i].touched,
                states[i].newest_first,
                states[i].released,
            ),
    )
}

/// All that the decisions of the run rest on.
pub open spec fn round_for(
    packages: Seq<PackageView>,
    states: Seq<StateView>,
    answers: Seq<AnswerView>,
    settings: SettingsView,
) -> Round {
    Round {
        packages,
        order: order_of(packages),
        changes: changes_of(packages, states),
        answers,
        features_always_increment_minor: settings.features_always_increment_minor,
    }
}

/// The sections for the first `upto` decisions, in order; a decision whose
/// version is recorded or published has none.
pub open spec fn sections_for(
    packages: Seq<PackageView>,
    states: Seq<StateView>,
    decisions: Seq<DecisionView>,
    settings: SettingsView,
    upto: int,
) -> Seq<SectionView>
    decreases upto,
{
    if upto <= 0 {
        Seq::empty()
    } else {
        let before = sections_for(packages, states, decisions, settings, upto - 1);
        let decision = decisions[upto - 1];
        let state = states[decision.package];
        match built(
            packages,
            decision,
            changes_of(packages, states)[decision.package].commits,
            state.changelog,
            settings.repository_url,
            settings.date,
            state.published,
        ) {
            Some(section) => before.push(section),
            None => before,
        }
    }
}

/// What a run comes to. The dependencies are ordered, the changes of each
/// package are detected, the versions are decided, the sections of the
/// changelogs are written, the request is planned and held against the
/// request that exists. The first step that fails ends the run.
pub open spec fn outcome_of(
    packages: Seq<PackageView>,
    states: Seq<StateView>,
    answers: Seq<AnswerView>,
    settings: SettingsView,
    existing: Option<RequestView>,
) -> Result<OutcomeView, RunFault> {
    let edges = edges_of(packages);
    if !acyclic(edges) {
        Err(RunFault::Cycle { package: first_blocked_package(edges) })
    } else if states.len() != packages.len() || answers.len() != packages.len() {
        Err(RunFault::Incomplete)
    } else {
        match round_for(packages, states, answers, settings).outcome() {
            Err(package) => Err(RunFault::VersionOverflow { package }),
            Ok(decisions) => {
                let sections = sections_for(
                    packages,
                    states,
                    decisions,
                    settings,
                    decisions.len() as int,
                );
                match planned(packages, decisions, sections, settings.config) {
                    Err(fault) => Err(RunFault::Plan(fault)),
                    Ok(plan) => Ok(
                        OutcomeView {
                            plan,
                            sections,
                            action: reconciled(plan, existing, settings.new_branch),
                        },
                    ),
                }
            },
        }
    }
}

/// The first package that no schedule can hold is one package.
pub proof fn lemma_first_blocked_is(edges: Seq<Seq<int>>, x: int)
    requires
        is_first_blocked(edges, x),
    ensures
        first_blocked_package(edges) == x,
{
    let y = first_blocked_package(edges);
    assert(is_first_blocked(edges, y));
    if y < x {
        assert(schedulable(edges, y));
    }
    if x < y {
        assert(schedulable(edges, x));
    }
}

/// The order of a graph is the order of its packages.
pub proof fn lemma_order_of(packages: Seq<PackageView>, order: Seq<int>)
    requires
        order.len() == packages.len(),
        is_order(edges_of(packages), order),
        is_canonical(names_of(packages), edges_of(packages), order),
    ensures
        order_of(packages) == order,
        acyclic(edges_of(packages)),
{
    law_order_is_unique(names_of(packages), edges_of(packages), order_of(packages), order);
}

/// Packages whose dependencies leave room for an order have their order.
pub proof fn lemma_order_exists(packages: Seq<PackageView>)
    requires
        acyclic(edges_of(packages)),
    ensures
        order_of(packages).len() == packages.len(),
        is_order(edges_of(packages), order_of(packages)),
        is_canonical(names_of(packages), edges_of(packages), order_of(packages)),
{
    law_acyclic_has_canonical_order(names_of(packages), edges_of(packages));
}

/// What is known of the changes of each package.
fn detect_all(graph: &DependencyGraph, states: &Vec<PackageState>) -> (changes: Vec<ChangeEntry>)
    requires
        states.len() == graph@.size(),
    ensures
        changes.len() == graph@.size(),
        views(changes@) == changes_of(graph@.packages, views(states@)),
{
    let n = graph.len();
    let mut changes: Vec<ChangeEntry> = Vec::new();
    let mut i: usize = 0;
    while i < n
        invariant
            i <= n,
            n == graph@.size(),
            states.len() == n,
            changes.len() == i,
            forall|k: int|
                0 <= k < i ==> (#[trigger] changes@[k])@ == changes_of(
                    graph@.packages,
                    views(states@),
                )[k],
        decreases n - i,
    {
        let state = &states[i];
        assert(views(states@)[i as int] == state@);
        changes.push(
            detect(
                graph.package_at(i),
                &state.documents,
                &state.touched,
                &state.newest_first,
                state.released,
            ),
        );
        i += 1;
    }
    assert(views(changes@) =~= changes_of(graph@.packages, views(states@)));
    changes
}

/// The sections of the decisions, in order.
fn write_sections(
    graph: &DependencyGraph,
    states: &Vec<PackageState>,
    changes: &Vec<ChangeEntry>,
    decisions: &Vec<ReleaseDecision>,
    settings: &Settings,
) -> (sections: Vec<ChangelogSection>)
    requires
        states.len() == graph@.size(),
        changes.len() == graph@.size(),
        views(changes@) == changes_of(graph@.packages, views(states@)),
        forall|k: int| 0 <= k < decisions.len() ==> (#[trigger] decisions@[k]).package < graph@.size(),
    ensures
        views(sections@) == sections_for(
            graph@.packages,
            views(states@),
            views(decisions@),
            settings@,
            decisions.len() as int,
        ),
{
    let ghost all = views(decisions@);
    let mut sections: Vec<ChangelogSection> = Vec::new();
    let mut k: usize = 0;
    assert(views(sections@) =~= sections_for(graph@.packages, views(states@), all, settings@, 0));
    while k < decisions.len()
        invariant
            k <= decisions.len(),
            all == views(decisions@),
            states.len() == graph@.size(),
            changes@.len() == graph@.size(),
            views(changes@) == changes_of(graph@.packages, views(states@)),
            forall|q: int|
                0 <= q < decisions.len() ==> (#[trigger] decisions@[q]).package < graph@.size(),
            views(sections@) == sections_for(
                graph@.packages,
                views(states@),
                all,
                settings@,
                k as int,
            ),
        decreases decisions.len() - k,
    {
        let decision = &decisions[k];
        let at = decision.package;
        let state = &states[at];
        let ghost before = views(sections@);
        proof {
            assert(all[k as int] == decision@);
            assert(views(states@)[at as int] == state@);
            assert(views(changes@)[at as int] == changes@[at as int]@);
        }
        let context = ReleaseContext {
            repository_url: settings.repository_url.clone(),
            date: settings.date.clone(),
            published: state.published,
        };
        match build(graph, decision, &changes[at].commits, state.changelog.as_str(), &context) {
            Some(section) => {
                sections.push(section);
                assert(views(sections@) =~= before.push(section@));
            },
            None => {},
        }
        k += 1;
    }
    sections
}

/// One run of the engine.
///
/// `states` and `answers` hold, for each package by its index in
/// `packages`, what is known of it and what the check of its interface
/// found; `existing` is the request as the platform reports it now. The run
/// orders the packages, detects their changes, decides the versions, writes
/// the sections of the changelogs, plans the request and says what is to be
/// done about it. It changes nothing: what it returns is for the caller to
/// carry out. The first step that fails ends it, with the error of that
/// step.
pub fn run(
    packages: Vec<Package>,
    states: &Vec<PackageState>,
    answers: &Vec<CompatibilityAnswer>,
    settings: &Settings,
    existing: Option<&OutgoingRequest>,
) -> (out: Result<Outcome, RunError>)
    ensures
        match out {
            Ok(outcome) => {
                &&& outcome_of(
                    views(packages@),
                    views(states@),
                    views(answers@),
                    settings@,
                    request_view(existing),
                ) == Ok::<OutcomeView, RunFault>(
                    OutcomeView {
                        plan: outcome.plan@,
                        sections: views(outcome.sections@),
                        action: outcome.action@,
                    },
                )
                &&& outcome.graph@.packages == views(packages@)
                &&& outcome.graph@.order == order_of(views(packages@))
                &&& outcome.graph@.wf()
            },
            Err(error) => outcome_of(
                views(packages@),
                views(states@),
                views(answers@),
                settings@,
                request_view(existing),
            ) == Err::<OutcomeView, RunFault>(error@),
        },
{
    let ghost model = views(packages@);
    let ghost edges = edges_of(model);
    let graph = match DependencyGraph::build(packages) {
        Ok(graph) => graph,
        Err(error) => {
            proof {
                lemma_first_blocked_is(edges, error.package as int);
            }
            return Err(RunError::Cycle(error));
        },
    };
    proof {
        lemma_order_of(model, graph@.order);
    }
    let n = graph.len();
    if states.len() != n || answers.len() != n {
        assert(views(states@).len() == states@.len() && views(answers@).len() == answers@.len());
        return Err(RunError::Incomplete);
    }
    assert(views(states@).len() == states@.len() && views(answers@).len() == answers@.len());
    let changes = detect_all(&graph, states);
    let ghost round = round_for(model, views(states@), views(answers@), settings@);
    assert(round_of(graph@, changes@, answers@, settings.options) == round);
    let decisions = match decide(&graph, &changes, answers, &settings.options) {
        Ok(decisions) => decisions,
        Err(error) => {
            return Err(RunError::Decide(error));
        },
    };
    proof {
        assert forall|k: int| 0 <= k < decisions.len() implies (#[trigger] decisions@[k]).package
            < graph@.size() by {
            assert(views(decisions@)[k] == decisions@[k]@);
            let i = lemma_decision_source(round, round.order.len() as int, k);
        }
        assert(views(changes@).len() == changes@.len());
        assert(views(decisions@).len() == decisions@.len());
    }
    let sections = write_sections(&graph, states, &changes, &decisions, settings);
    let made = match plan(&graph, decisions, &sections, &settings.config) {
        Ok(made) => made,
        Err(error) => {
            return Err(RunError::Plan(error));
        },
    };
    let action = reconcile(&made, existing, settings.new_branch.as_str());
    Ok(Outcome { graph, plan: made, sections, action })
}

/// Where no package changed, no package is released.
pub proof fn lemma_quiet_round(round: Round, upto: int)
    requires
        round.changes.len() == round.packages.len(),
        forall|i: int| 0 <= i < round.changes.len() ==> !(#[trigger] round.changes[i]).changed,
        0 <= upto <= round.order.len(),
        is_order(round.edges(), round.order),
    ensures
        round.decisions(upto).len() == 0,
        round.first_blocked(upto) is None,
    decreases upto,
{
    if upto > 0 {
        lemma_quiet_round(round, upto - 1);
        let x = round.order[upto - 1];
        if round.affected(x) {
            let j = choose|j: int| #[trigger] reaches(round.edges(), x, j) && round.changes[j].changed;
            let path = choose|path: Seq<int>| #[trigger]
                is_path(round.edges(), path) && path[0] == x && path.last() == j;
            let before = path.len() - 2;
            assert(depends(round.edges(), path[before], path[before + 1]));
            lemma_edges_in_range(round.packages, path[before], j);
        }
        assert(round.bump(x) == VersionBump::Unchanged);
    }
}

/// A workspace in which nothing changed is left alone: a run that comes
/// to its end releases nothing and calls for nothing to be done about the
/// request.
pub proof fn law_quiet_workspace_is_left_alone(
    packages: Seq<PackageView>,
    states: Seq<StateView>,
    answers: Seq<AnswerView>,
    settings: SettingsView,
    existing: Option<RequestView>,
)
    requires
        forall|i: int|
            0 <= i < packages.len() ==> !(#[trigger] changes_of(packages, states)[i]).changed,
    ensures
        outcome_of(packages, states, answers, settings, existing) matches Ok(outcome)
            ==> outcome.plan.decisions.len() == 0 && outcome.sections.len() == 0
            && outcome.action is NoOp,
{
    let edges = edges_of(packages);
    if acyclic(edges) && states.len() == packages.len() && answers.len() == packages.len() {
        let round = round_for(packages, states, answers, settings);
        lemma_order_exists(packages);
        lemma_quiet_round(round, round.order.len() as int);
    }
}

} // verus!
