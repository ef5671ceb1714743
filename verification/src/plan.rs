//! The plan of a run: the decisions, and the title, the body and the
//! labels of the request that proposes them.

use crate::changelog::{ChangelogSection, SectionView};
use crate::decide::{Compatibility, DecisionView, ReleaseDecision};
use crate::graph::{DependencyGraph, PackageView};
use crate::labels::{
    checked, label_failure, merge_labels, validate_labels, LabelError, LabelFault,
};
use crate::request::{PlanView, ReleasePlan};
use crate::template::{
    fault_words, render, rendered, ContextView, SingleRelease, SingleView, TemplateContext,
    TemplateError, TemplateFault,
};
use crate::text::{chars_of, push_chars, push_str, string_of, text_in, views};
use vstd::prelude::*;

verus! {

/// What the workspace configures for the request.
#[derive(Debug)]
pub struct PlanConfig {
    /// The template of the title; without one the title is the usual one.
    pub pr_name: Option<String>,
    /// The template of the body; without one the body is the usual one.
    pub pr_body: Option<String>,
    /// The labels to put on the request.
    pub pr_labels: Vec<String>,
}

/// Why there is no plan.
#[derive(Debug)]
pub enum PlanError {
    /// A configured label cannot be used.
    Label(LabelError),
    /// The title cannot be rendered.
    Title(TemplateError),
    /// The body cannot be rendered.
    Body(TemplateError),
}

/// Why there is no plan, as plain values.
pub enum PlanFault {
    Label(LabelFault),
    Title(TemplateFault),
    Body(TemplateFault),
}

impl View for PlanError {
    type V = PlanFault;

    open spec fn view(&self) -> PlanFault {
        match *self {
            PlanError::Label(error) => PlanFault::Label(error@),
            PlanError::Title(error) => PlanFault::Title(error@),
            PlanError::Body(error) => PlanFault::Body(error@),
        }
    }
}

/// The words for a plan that cannot be made: they name the label or the
/// template and its variable.
pub open spec fn plan_failure(fault: PlanFault) -> Seq<char> {
    match fault {
        PlanFault::Label(fault) => label_failure(fault.label, fault.rule),
        PlanFault::Title(fault) => "failed to render pr_name: "@ + fault_words(fault),
        PlanFault::Body(fault) => "failed to render pr_body: "@ + fault_words(fault),
    }
}

impl PlanError {
    /// The words for this error.
    pub fn message(&self) -> (words: String)
        ensures
            words@ == plan_failure(self@),
    {
        match self {
            PlanError::Label(error) => error.message(),
            PlanError::Title(error) => {
                let mut out = chars_of("failed to render pr_name: ");
                push_str(&mut out, error.message().as_str());
                string_of(&out)
            },
            PlanError::Body(error) => {
                let mut out = chars_of("failed to render pr_body: ");
                push_str(&mut out, error.message().as_str());
                string_of(&out)
            },
        }
    }
}

/// What the workspace configures for the request, as plain values.
pub struct ConfigView {
    pub pr_name: Option<Seq<char>>,
    pub pr_body: Option<Seq<char>>,
    pub pr_labels: Seq<Seq<char>>,
}

impl View for PlanConfig {
    type V = ConfigView;

    open spec fn view(&self) -> ConfigView {
        ConfigView {
            pr_name: text_in(self.pr_name),
            pr_body: text_in(self.pr_body),
            pr_labels: views(self.pr_labels@),
        }
    }
}

/// The name of the package with handle `package`, or nothing where there
/// is no such package.
pub open spec fn name_of(packages: Seq<PackageView>, package: int) -> Seq<char> {
    if 0 <= package < packages.len() {
        packages[package].name
    } else {
        Seq::empty()
    }
}

/// What a line of the list of releases says of the check of the interface.
pub open spec fn compatibility_note(status: Compatibility) -> Seq<char> {
    match status {
        Compatibility::NotChecked => Seq::empty(),
        Compatibility::Compatible => " (✓ API compatible changes)"@,
        Compatibility::Breaking => " (⚠ API breaking changes)"@,
    }
}

/// The word for the outcome of the check of the interface.
pub open spec fn compatibility_word(status: Compatibility) -> Seq<char> {
    match status {
        Compatibility::NotChecked => Seq::empty(),
        Compatibility::Compatible => "compatible"@,
        Compatibility::Breaking => "breaking"@,
    }
}

/// The step of a release: from the previous version to the next, or the
/// next alone for a first release.
pub open spec fn version_step(decision: DecisionView) -> Seq<char> {
    match decision.previous {
        Some(previous) => previous.text() + " -> "@ + decision.next.text(),
        None => decision.next.text(),
    }
}

/// The line of one release in the list of releases.
pub open spec fn release_line(name: Seq<char>, decision: DecisionView) -> Seq<char> {
    "* `"@ + name + "`: "@ + version_step(decision) + compatibility_note(decision.compatibility)
        + "\n"@
}

/// The list of releases: one line for each decision, in order.
pub open spec fn release_lines(packages: Seq<PackageView>, decisions: Seq<DecisionView>) -> Seq<
    char,
>
    decreases decisions.len(),
{
    if decisions.len() == 0 {
        Seq::empty()
    } else {
        release_lines(packages, decisions.drop_last()) + release_line(
            name_of(packages, decisions.last().package),
            decisions.last(),
        )
    }
}

/// What is said of a release that breaks the interface of its package and
/// whose check has something to say; nothing of any other release.
pub open spec fn breaking_block(name: Seq<char>, decision: DecisionView) -> Seq<char> {
    match decision.diagnostic {
        Some(words) => if decision.compatibility == Compatibility::Breaking {
            "\n### ⚠ `"@ + name + "` breaking changes\n\n```text\n"@ + words + "\n```\n"@
        } else {
            Seq::empty()
        },
        None => Seq::empty(),
    }
}

/// What is said of the releases that break an interface, in order.
pub open spec fn breaking_blocks(packages: Seq<PackageView>, decisions: Seq<DecisionView>) -> Seq<
    char,
>
    decreases decisions.len(),
{
    if decisions.len() == 0 {
        Seq::empty()
    } else {
        breaking_blocks(packages, decisions.drop_last()) + breaking_block(
            name_of(packages, decisions.last().package),
            decisions.last(),
        )
    }
}

/// The text of the first of `sections` that is about `package`, or
/// nothing where there is none.
pub open spec fn section_for(sections: Seq<SectionView>, package: int) -> Seq<char>
    decreases sections.len(),
{
    if sections.len() == 0 {
        Seq::empty()
    } else if sections[0].package == package {
        sections[0].text
    } else {
        section_for(sections.drop_first(), package)
    }
}

/// The changelog of one release as the body shows it: under the name of
/// the package where there are several, and set off as a quotation.
pub open spec fn changelog_block(name: Seq<char>, text: Seq<char>, many: bool) -> Seq<char> {
    (if many {
        "## `"@ + name + "`\n\n"@
    } else {
        Seq::empty()
    }) + "<blockquote>\n\n"@ + text + "</blockquote>\n\n"@
}

/// The changelogs of the first `upto` releases, in order.
pub open spec fn changelog_blocks(
    packages: Seq<PackageView>,
    decisions: Seq<DecisionView>,
    sections: Seq<SectionView>,
    upto: int,
) -> Seq<char>
    decreases upto,
{
    if upto <= 0 {
        Seq::empty()
    } else {
        changelog_blocks(packages, decisions, sections, upto - 1) + changelog_block(
            name_of(packages, decisions[upto - 1].package),
            section_for(sections, decisions[upto - 1].package),
            decisions.len() > 1,
        )
    }
}

/// The values of the variables of the templates of a plan.
pub open spec fn context_of(
    packages: Seq<PackageView>,
    decisions: Seq<DecisionView>,
    sections: Seq<SectionView>,
) -> ContextView {
    ContextView {
        count: decisions.len(),
        releases: release_lines(packages, decisions),
        breaking_changes: breaking_blocks(packages, decisions),
        changelogs: changelog_blocks(packages, decisions, sections, decisions.len() as int),
        single: if decisions.len() == 1 {
            Some(
                SingleView {
                    package: name_of(packages, decisions[0].package),
                    version: decisions[0].next.text(),
                    previous_version: match decisions[0].previous {
                        Some(previous) => previous.text(),
                        None => decisions[0].next.text(),
                    },
                    changelog: section_for(sections, decisions[0].package),
                    compatibility: compatibility_word(decisions[0].compatibility),
                },
            )
        } else {
            None
        },
    }
}

/// Whether all decisions release the same version.
pub open spec fn same_version(decisions: Seq<DecisionView>) -> bool {
    forall|i: int| 0 <= i < decisions.len() ==> (#[trigger] decisions[i]).next == decisions[0].next
}

/// The title of a request without a template of its own: it names the
/// version where all releases share one.
pub open spec fn usual_title(decisions: Seq<DecisionView>) -> Seq<char> {
    if decisions.len() > 0 && same_version(decisions) {
        "chore: release v"@ + decisions[0].next.text()
    } else {
        "chore: release"@
    }
}

/// The body of a request without a template of its own: the list of
/// releases, what the breaking ones break, and the changelogs, folded away.
pub open spec fn usual_body(context: ContextView) -> Seq<char> {
    "## 🤖 New release\n\n"@ + context.releases + context.breaking_changes
        + "\n<details><summary><i><b>Changelog</b></i></summary><p>\n\n"@ + context.changelogs
        + "\n</p></details>\n"@
}

/// The title of the plan.
pub open spec fn title_of(
    template: Option<Seq<char>>,
    decisions: Seq<DecisionView>,
    context: ContextView,
) -> Result<Seq<char>, TemplateFault> {
    match template {
        Some(text) => rendered(text, context),
        None => Ok(usual_title(decisions)),
    }
}

/// The body of the plan.
pub open spec fn body_of(template: Option<Seq<char>>, context: ContextView) -> Result<
    Seq<char>,
    TemplateFault,
> {
    match template {
        Some(text) => rendered(text, context),
        None => Ok(usual_body(context)),
    }
}

/// The name of the package with this handle.
fn package_name(graph: &DependencyGraph, package: usize) -> (name: Vec<char>)
    ensures
        name@ == name_of(graph@.packages, package as int),
{
    match graph.package(package) {
        Some(found) => chars_of(found.name.as_str()),
        None => Vec::new(),
    }
}

/// Appends the step of a release.
fn push_version_step(out: &mut Vec<char>, decision: &ReleaseDecision)
    ensures
        final(out)@ == old(out)@ + version_step(decision@),
{
    match decision.previous {
        Some(previous) => {
            push_chars(out, &previous.to_chars());
            push_str(out, " -> ");
            push_chars(out, &decision.next.to_chars());
            assert(out@ =~= old(out)@ + version_step(decision@));
        },
        None => {
            push_chars(out, &decision.next.to_chars());
        },
    }
}

/// Appends the line of one release.
fn push_release_line(out: &mut Vec<char>, name: &Vec<char>, decision: &ReleaseDecision)
    ensures
        final(out)@ == old(out)@ + release_line(name@, decision@),
{
    push_str(out, "* `");
    push_chars(out, name);
    push_str(out, "`: ");
    push_version_step(out, decision);
    let ghost before = out@;
    match decision.compatibility {
        Compatibility::NotChecked => {},
        Compatibility::Compatible => push_str(out, " (✓ API compatible changes)"),
        Compatibility::Breaking => push_str(out, " (⚠ API breaking changes)"),
    }
    assert(out@ =~= before + compatibility_note(decision.compatibility));
    push_str(out, "\n");
    assert(out@ =~= old(out)@ + release_line(name@, decision@));
}

/// Appends what is said of a release that breaks an interface.
fn push_breaking_block(out: &mut Vec<char>, name: &Vec<char>, decision: &ReleaseDecision)
    ensures
        final(out)@ == old(out)@ + breaking_block(name@, decision@),
{
    match &decision.diagnostic {
        Some(words) => {
            match decision.compatibility {
                Compatibility::Breaking => {
                    push_str(out, "\n### ⚠ `");
                    push_chars(out, name);
                    push_str(out, "` breaking changes\n\n```text\n");
                    push_str(out, words.as_str());
                    push_str(out, "\n```\n");
                    assert(out@ =~= old(out)@ + breaking_block(name@, decision@));
                },
                _ => {
                    assert(out@ =~= old(out)@ + breaking_block(name@, decision@));
                },
            }
        },
        None => {
            assert(out@ =~= old(out)@ + breaking_block(name@, decision@));
        },
    }
}

/// The text of the first section that is about `package`.
fn section_text_for(sections: &Vec<ChangelogSection>, package: usize) -> (text: Vec<char>)
    ensures
        text@ == section_for(views(sections@), package as int),
{
    let ghost all = views(sections@);
    let mut i: usize = 0;
    assert(all.skip(0) =~= all);
    while i < sections.len()
        invariant
            i <= sections.len(),
            all == views(sections@),
            section_for(all, package as int) == section_for(all.skip(i as int), package as int),
        decreases sections.len() - i,
    {
        let ghost rest = all.skip(i as int);
        assert(rest[0] == sections@[i as int]@);
        if sections[i].package == package {
            return chars_of(sections[i].text.as_str());
        }
        assert(rest.drop_first() =~= all.skip(i + 1));
        i += 1;
    }
    assert(all.skip(i as int) =~= Seq::<SectionView>::empty());
    Vec::new()
}

/// Appends the changelog of one release.
fn push_changelog_block(out: &mut Vec<char>, name: &Vec<char>, text: &Vec<char>, many: bool)
    ensures
        final(out)@ == old(out)@ + changelog_block(name@, text@, many),
{
    if many {
        push_str(out, "## `");
        push_chars(out, name);
        push_str(out, "`\n\n");
    }
    push_str(out, "<blockquote>\n\n");
    push_chars(out, text);
    push_str(out, "</blockquote>\n\n");
    assert(out@ =~= old(out)@ + changelog_block(name@, text@, many));
}

/// The three texts that speak of all releases: the list of releases, what
/// the breaking ones break, and the changelogs.
fn aggregates(
    graph: &DependencyGraph,
    decisions: &Vec<ReleaseDecision>,
    sections: &Vec<ChangelogSection>,
) -> (out: (Vec<char>, Vec<char>, Vec<char>))
    ensures
        out.0@ == release_lines(graph@.packages, views(decisions@)),
        out.1@ == breaking_blocks(graph@.packages, views(decisions@)),
        out.2@ == changelog_blocks(
            graph@.packages,
            views(decisions@),
            views(sections@),
            decisions@.len() as int,
        ),
{
    let ghost packages = graph@.packages;
    let ghost all = views(decisions@);
    let many = decisions.len() > 1;
    let mut releases: Vec<char> = Vec::new();
    let mut breaking: Vec<char> = Vec::new();
    let mut changelogs: Vec<char> = Vec::new();
    let mut i: usize = 0;
    assert(all.take(0) =~= Seq::<DecisionView>::empty());
    while i < decisions.len()
        invariant
            i <= decisions.len(),
            packages == graph@.packages,
            all == views(decisions@),
            many == (all.len() > 1),
            releases@ == release_lines(packages, all.take(i as int)),
            breaking@ == breaking_blocks(packages, all.take(i as int)),
            changelogs@ == changelog_blocks(packages, all, views(sections@), i as int),
        decreases decisions.len() - i,
    {
        let decision = &decisions[i];
        proof {
            let upto = all.take(i + 1);
            assert(upto.drop_last() =~= all.take(i as int));
            assert(upto.last() == decision@);
            assert(all[i as int] == decision@);
        }
        let name = package_name(graph, decision.package);
        push_release_line(&mut releases, &name, decision);
        push_breaking_block(&mut breaking, &name, decision);
        let text = section_text_for(sections, decision.package);
        push_changelog_block(&mut changelogs, &name, &text, many);
        i += 1;
    }
    assert(all.take(i as int) =~= all);
    (releases, breaking, changelogs)
}

/// The word for the outcome of the check of the interface.
fn word_of(status: Compatibility) -> (word: String)
    ensures
        word@ == compatibility_word(status),
{
    match status {
        Compatibility::NotChecked => String::new(),
        Compatibility::Compatible => "compatible".to_owned(),
        Compatibility::Breaking => "breaking".to_owned(),
    }
}

/// The values of the variables of the templates of a plan.
pub fn context_for(
    graph: &DependencyGraph,
    decisions: &Vec<ReleaseDecision>,
    sections: &Vec<ChangelogSection>,
) -> (context: TemplateContext)
    ensures
        context@ == context_of(graph@.packages, views(decisions@), views(sections@)),
{
    let (releases, breaking, changelogs) = aggregates(graph, decisions, sections);
    let single = if decisions.len() == 1 {
        let decision = &decisions[0];
        assert(views(decisions@)[0] == decision@);
        let previous = match decision.previous {
            Some(previous) => previous.to_text(),
            None => decision.next.to_text(),
        };
        Some(
            SingleRelease {
                package: string_of(&package_name(graph, decision.package)),
                version: decision.next.to_text(),
                previous_version: previous,
                changelog: string_of(&section_text_for(sections, decision.package)),
                compatibility: word_of(decision.compatibility),
            },
        )
    } else {
        None
    };
    TemplateContext {
        count: decisions.len() as u64,
        releases: string_of(&releases),
        breaking_changes: string_of(&breaking),
        changelogs: string_of(&changelogs),
        single,
    }
}

/// Whether all decisions release the same version.
fn all_same_version(decisions: &Vec<ReleaseDecision>) -> (same: bool)
    ensures
        same == same_version(views(decisions@)),
{
    let ghost all = views(decisions@);
    let mut i: usize = 0;
    while i < decisions.len()
        invariant
            i <= decisions.len(),
            all == views(decisions@),
            forall|k: int| 0 <= k < i ==> (#[trigger] all[k]).next == all[0].next,
        decreases decisions.len() - i,
    {
        assert(all[i as int] == decisions@[i as int]@);
        assert(all[0] == decisions@[0]@);
        if !(decisions[i].next == decisions[0].next) {
            return false;
        }
        i += 1;
    }
    true
}

/// The plan of a run, or why there is none. The labels are looked at
/// first, then the title, then the body.
pub open spec fn planned(
    packages: Seq<PackageView>,
    decisions: Seq<DecisionView>,
    sections: Seq<SectionView>,
    config: ConfigView,
) -> Result<PlanView, PlanFault> {
    let context = context_of(packages, decisions, sections);
    match checked(config.pr_labels) {
        Err(fault) => Err(PlanFault::Label(fault)),
        Ok(_) => match title_of(config.pr_name, decisions, context) {
            Err(fault) => Err(PlanFault::Title(fault)),
            Ok(title) => match body_of(config.pr_body, context) {
                Err(fault) => Err(PlanFault::Body(fault)),
                Ok(body) => Ok(PlanView { decisions, title, body, labels: config.pr_labels }),
            },
        },
    }
}

/// The title of a request without a template of its own.
fn usual_title_of(decisions: &Vec<ReleaseDecision>) -> (title: String)
    ensures
        title@ == usual_title(views(decisions@)),
{
    assert(views(decisions@).len() == decisions@.len());
    if decisions.len() > 0 && all_same_version(decisions) {
        assert(views(decisions@)[0] == decisions@[0]@);
        let mut named = chars_of("chore: release v");
        push_chars(&mut named, &decisions[0].next.to_chars());
        string_of(&named)
    } else {
        "chore: release".to_owned()
    }
}

/// The body of a request without a template of its own.
fn usual_body_of(context: &TemplateContext) -> (body: String)
    ensures
        body@ == usual_body(context@),
{
    let mut out = chars_of("## 🤖 New release\n\n");
    push_str(&mut out, context.releases.as_str());
    push_str(&mut out, context.breaking_changes.as_str());
    push_str(&mut out, "\n<details><summary><i><b>Changelog</b></i></summary><p>\n\n");
    push_str(&mut out, context.changelogs.as_str());
    push_str(&mut out, "\n</p></details>\n");
    string_of(&out)
}

/// The plan of a run: the decisions with the title, the body and the
/// labels of the request that proposes them.
///
/// The configured labels are checked first; a label that cannot be used
/// leaves no plan. The title and the body are rendered from the configured
/// templates, or are the usual ones where none is configured; a template
/// that cannot be rendered leaves no plan either, the title's before the
/// body's. `sections` holds the changelog sections of this run; a release
/// without a section shows an empty changelog.
pub fn plan(
    graph: &DependencyGraph,
    decisions: Vec<ReleaseDecision>,
    sections: &Vec<ChangelogSection>,
    config: &PlanConfig,
) -> (out: Result<ReleasePlan, PlanError>)
    ensures
        match out {
            Ok(made) => planned(graph@.packages, views(decisions@), views(sections@), config@)
                == Ok::<PlanView, PlanFault>(made@),
            Err(error) => planned(graph@.packages, views(decisions@), views(sections@), config@)
                == Err::<PlanView, PlanFault>(error@),
        },
{
    match validate_labels(&config.pr_labels) {
        Err(error) => {
            return Err(PlanError::Label(error));
        },
        Ok(_) => {},
    }
    let context = context_for(graph, &decisions, sections);
    let title = match &config.pr_name {
        Some(template) => match render(template.as_str(), &context) {
            Ok(text) => text,
            Err(error) => {
                return Err(PlanError::Title(error));
            },
        },
        None => usual_title_of(&decisions),
    };
    let body = match &config.pr_body {
        Some(template) => match render(template.as_str(), &context) {
            Ok(text) => text,
            Err(error) => {
                return Err(PlanError::Body(error));
            },
        },
        None => usual_body_of(&context),
    };
    let labels = merge_labels(&config.pr_labels, &Vec::new());
    Ok(ReleasePlan { decisions, title, body, labels })
}

} // verus!
