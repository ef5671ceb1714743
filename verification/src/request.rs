//! The one outgoing request that proposes the release, and how a run
//! brings it in step with its plan: by opening it, by updating it, or by
//! leaving things as they are.

use crate::decide::{DecisionView, ReleaseDecision};
use crate::labels::{
    law_merge_keeps_previous, law_merge_of_known_labels, law_merge_twice, merge_labels,
    merged_labels,
};
use crate::text::views;
use vstd::prelude::*;

verus! {

/// The request on the hosting platform, as the platform reports it.
#[derive(Debug)]
pub struct OutgoingRequest {
    pub number: u64,
    pub branch: String,
    pub title: String,
    pub body: String,
    pub labels: Vec<String>,
    pub open: bool,
}

/// What a request holds, as plain values.
pub struct RequestView {
    pub number: int,
    pub branch: Seq<char>,
    pub title: Seq<char>,
    pub body: Seq<char>,
    pub labels: Seq<Seq<char>>,
    pub open: bool,
}

impl View for OutgoingRequest {
    type V = RequestView;

    open spec fn view(&self) -> RequestView {
        RequestView {
            number: self.number as int,
            branch: self.branch@,
            title: self.title@,
            body: self.body@,
            labels: views(self.labels@),
            open: self.open,
        }
    }
}

/// What a run wants released, and how the request is to present it.
#[derive(Debug)]
pub struct ReleasePlan {
    /// The decisions, in the order of the dependencies.
    pub decisions: Vec<ReleaseDecision>,
    pub title: String,
    pub body: String,
    /// The labels that are configured for the request.
    pub labels: Vec<String>,
}

/// What a plan holds, as plain values.
pub struct PlanView {
    pub decisions: Seq<DecisionView>,
    pub title: Seq<char>,
    pub body: Seq<char>,
    pub labels: Seq<Seq<char>>,
}

impl View for ReleasePlan {
    type V = PlanView;

    open spec fn view(&self) -> PlanView {
        PlanView {
            decisions: views(self.decisions@),
            title: self.title@,
            body: self.body@,
            labels: views(self.labels@),
        }
    }
}

/// What is to be done about the request.
#[derive(Debug)]
pub enum Reconciliation {
    /// Open a request from a new branch.
    Create { branch: String, title: String, body: String, labels: Vec<String> },
    /// Bring the open request up to date.
    Update { number: u64, branch: String, title: String, body: String, labels: Vec<String> },
    /// Nothing.
    NoOp,
}

/// What is to be done about the request, as plain values.
pub enum ActionView {
    Create { branch: Seq<char>, title: Seq<char>, body: Seq<char>, labels: Seq<Seq<char>> },
    Update {
        number: int,
        branch: Seq<char>,
        title: Seq<char>,
        body: Seq<char>,
        labels: Seq<Seq<char>>,
    },
    NoOp,
}

impl View for Reconciliation {
    type V = ActionView;

    open spec fn view(&self) -> ActionView {
        match *self {
            Reconciliation::Create { branch, title, body, labels } => ActionView::Create {
                branch: branch@,
                title: title@,
                body: body@,
                labels: views(labels@),
            },
            Reconciliation::Update { number, branch, title, body, labels } => ActionView::Update {
                number: number as int,
                branch: branch@,
                title: title@,
                body: body@,
                labels: views(labels@),
            },
            Reconciliation::NoOp => ActionView::NoOp,
        }
    }
}

/// What is to be done about the request. A plan without decisions calls
/// for nothing. A request that is open is updated: it keeps its number and
/// its branch, takes the title and the body of the plan, and keeps its
/// labels, joined by those of the plan. Else a request is opened from
/// `new_branch`, with the labels of the plan.
pub open spec fn reconciled(
    plan: PlanView,
    existing: Option<RequestView>,
    new_branch: Seq<char>,
) -> ActionView {
    if plan.decisions.len() == 0 {
        ActionView::NoOp
    } else {
        match existing {
            Some(request) => if request.open {
                ActionView::Update {
                    number: request.number,
                    branch: request.branch,
                    title: plan.title,
                    body: plan.body,
                    labels: merged_labels(request.labels, plan.labels),
                }
            } else {
                ActionView::Create {
                    branch: new_branch,
                    title: plan.title,
                    body: plan.body,
                    labels: plan.labels,
                }
            },
            None => ActionView::Create {
                branch: new_branch,
                title: plan.title,
                body: plan.body,
                labels: plan.labels,
            },
        }
    }
}

/// The request as it stands once `action` is carried out; a request that
/// is opened gets `number` from the platform.
pub open spec fn carried_out(
    action: ActionView,
    existing: Option<RequestView>,
    number: int,
) -> Option<RequestView> {
    match action {
        ActionView::Create { branch, title, body, labels } => Some(
            RequestView { number, branch, title, body, labels, open: true },
        ),
        ActionView::Update { number, branch, title, body, labels } => Some(
            RequestView { number, branch, title, body, labels, open: true },
        ),
        ActionView::NoOp => existing,
    }
}

/// The request, if any, as plain values.
pub open spec fn request_view(existing: Option<&OutgoingRequest>) -> Option<RequestView> {
    match existing {
        Some(request) => Some(request@),
        None => None,
    }
}

/// A copy of each of `items`.
fn copies(items: &Vec<String>) -> (out: Vec<String>)
    ensures
        views(out@) == views(items@),
{
    let none: Vec<String> = Vec::new();
    let out = merge_labels(items, &none);
    assert(views(none@) =~= Seq::<Seq<char>>::empty());
    out
}

/// What is to be done about the request, given the plan of this run and
/// the request as the platform reports it now. `new_branch` is the branch
/// to open a request from, should one be opened.
pub fn reconcile(
    plan: &ReleasePlan,
    existing: Option<&OutgoingRequest>,
    new_branch: &str,
) -> (action: Reconciliation)
    ensures
        action@ == reconciled(plan@, request_view(existing), new_branch@),
{
    if plan.decisions.len() == 0 {
        assert(views(plan.decisions@).len() == 0);
        return Reconciliation::NoOp;
    }
    assert(views(plan.decisions@).len() > 0);
    match existing {
        Some(request) => {
            if request.open {
                return Reconciliation::Update {
                    number: request.number,
                    branch: request.branch.clone(),
                    title: plan.title.clone(),
                    body: plan.body.clone(),
                    labels: merge_labels(&request.labels, &plan.labels),
                };
            }
        },
        None => {},
    }
    Reconciliation::Create {
        branch: new_branch.to_owned(),
        title: plan.title.clone(),
        body: plan.body.clone(),
        labels: copies(&plan.labels),
    }
}

/// A second run on the same plan changes nothing: once the action of the
/// first run is carried out, the second run updates the request to what it
/// is already, the body character for character.
pub proof fn law_rerun_changes_nothing(
    plan: PlanView,
    existing: Option<RequestView>,
    first_branch: Seq<char>,
    second_branch: Seq<char>,
    number: int,
)
    requires
        plan.decisions.len() > 0,
    ensures
        ({
            let first = reconciled(plan, existing, first_branch);
            let request = carried_out(first, existing, number);
            let second = reconciled(plan, request, second_branch);
            &&& request is Some
            &&& second is Update
            &&& second->Update_body == request->0.body
            &&& carried_out(second, request, number) == request
        }),
{
    let first = reconciled(plan, existing, first_branch);
    match first {
        ActionView::Create { labels, .. } => {
            law_merge_of_known_labels(plan.labels, plan.labels);
        },
        ActionView::Update { labels, .. } => {
            law_merge_twice(existing->0.labels, plan.labels);
        },
        ActionView::NoOp => {},
    }
}

/// An update takes no label away: the labels that the request had stay,
/// at their places, whatever the plan configures.
pub proof fn law_update_keeps_labels(
    plan: PlanView,
    request: RequestView,
    new_branch: Seq<char>,
)
    requires
        plan.decisions.len() > 0,
        request.open,
    ensures
        reconciled(plan, Some(request), new_branch) matches ActionView::Update {
            labels,
            number,
            branch,
            ..
        } && number == request.number && branch == request.branch && request.labels.len()
            <= labels.len() && labels.take(request.labels.len() as int) == request.labels,
{
    law_merge_keeps_previous(request.labels, plan.labels);
}

/// A plan without decisions leaves the request alone.
pub proof fn law_empty_plan_is_noop(
    plan: PlanView,
    existing: Option<RequestView>,
    new_branch: Seq<char>,
)
    requires
        plan.decisions.len() == 0,
    ensures
        reconciled(plan, existing, new_branch) is NoOp,
        carried_out(reconciled(plan, existing, new_branch), existing, 0) == existing,
{
}

} // verus!
