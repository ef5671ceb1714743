//! What a run releases, for the report of the run and for the tags that
//! are set once the request is merged.

use crate::changelog::{tag_name, tag_of, tag_prefix, tag_prefix_of};
use crate::decide::{DecisionView, ReleaseDecision};
use crate::graph::{DependencyGraph, PackageView};
use crate::plan::name_of;
use crate::text::views;
use vstd::prelude::*;

verus! {

/// One release of a run.
#[derive(Debug)]
pub struct ReleaseInfo {
    /// The name of the package.
    pub package_name: String,
    /// The version that is released.
    pub version: String,
    /// The tag that marks the release.
    pub tag: String,
}

/// What is listed of a release, as plain values.
pub struct InfoView {
    pub package_name: Seq<char>,
    pub version: Seq<char>,
    pub tag: Seq<char>,
}

impl View for ReleaseInfo {
    type V = InfoView;

    open spec fn view(&self) -> InfoView {
        InfoView { package_name: self.package_name@, version: self.version@, tag: self.tag@ }
    }
}

/// What is listed of the release that `decision` stands for.
pub open spec fn info_of(packages: Seq<PackageView>, decision: DecisionView) -> InfoView {
    InfoView {
        package_name: name_of(packages, decision.package),
        version: decision.next.text(),
        tag: tag_name(tag_prefix(packages, decision.package), decision.next),
    }
}

/// The releases of a run, in the order of the decisions, which is the
/// order in which the packages are tagged and published.
pub fn releases(graph: &DependencyGraph, decisions: &Vec<ReleaseDecision>) -> (list: Vec<
    ReleaseInfo,
>)
    ensures
        views(list@) == Seq::new(
            decisions@.len(),
            |k: int| info_of(graph@.packages, decisions@[k]@),
        ),
{
    let mut list: Vec<ReleaseInfo> = Vec::new();
    let mut k: usize = 0;
    while k < decisions.len()
        invariant
            k <= decisions.len(),
            list.len() == k,
            forall|q: int|
                0 <= q < k ==> (#[trigger] list@[q])@ == info_of(graph@.packages, decisions@[q]@),
        decreases decisions.len() - k,
    {
        let decision = &decisions[k];
        let package_name = match graph.package(decision.package) {
            Some(package) => package.name.clone(),
            None => String::new(),
        };
        let prefix = tag_prefix_of(graph, decision.package);
        list.push(
            ReleaseInfo {
                package_name,
                version: decision.next.to_text(),
                tag: tag_of(prefix.as_str(), &decision.next),
            },
        );
        k += 1;
    }
    assert(views(list@) =~= Seq::new(
        decisions@.len(),
        |k: int| info_of(graph@.packages, decisions@[k]@),
    ));
    list
}

} // verus!
