//! The section that a release adds to the changelog of its package.

use crate::commit::{classify, commit_kind, commit_summary, CommitKind};
use crate::decide::{DecisionView, ReleaseDecision};
use crate::graph::{handles, DependencyGraph, PackageView};
use crate::text::{
    chars_of, decimal, find_from, lemma_decimal_digits, lemma_position, lemma_position_is, lines,
    occurs_at_chars, position, push_chars, push_str, slice_chars, split_lines, starts_with,
    starts_with_chars, string_of, strip_cr, views,
};
use crate::version::Version;
use vstd::prelude::*;

verus! {

/// What a section of a changelog says of one release.
#[derive(Debug)]
pub struct ChangelogSection {
    /// The handle of the package.
    pub package: usize,
    /// The version that the section is about.
    pub version: Version,
    /// The day of the release, as `YYYY-MM-DD`.
    pub date: String,
    /// What was added: the summaries of the features, oldest first.
    pub added: Vec<String>,
    /// What was mended: the summaries of the fixes, oldest first.
    pub fixed: Vec<String>,
    /// The summaries of all other commits, oldest first.
    pub other: Vec<String>,
    /// The section as it stands in the changelog.
    pub text: String,
}

/// What a section holds, as plain values.
pub struct SectionView {
    pub package: int,
    pub version: Version,
    pub date: Seq<char>,
    pub added: Seq<Seq<char>>,
    pub fixed: Seq<Seq<char>>,
    pub other: Seq<Seq<char>>,
    pub text: Seq<char>,
}

impl View for ChangelogSection {
    type V = SectionView;

    open spec fn view(&self) -> SectionView {
        SectionView {
            package: self.package as int,
            version: self.version,
            date: self.date@,
            added: views(self.added@),
            fixed: views(self.fixed@),
            other: views(self.other@),
            text: self.text@,
        }
    }
}

/// Where and when the release is made.
#[derive(Debug)]
pub struct ReleaseContext {
    /// The address of the repository on the hosting platform, without a
    /// final slash.
    pub repository_url: String,
    /// The day of the release, as `YYYY-MM-DD`.
    pub date: String,
    /// Whether the registry already has the version.
    pub published: bool,
}

/// The items of `items`, with `separator` between them.
pub open spec fn joined(items: Seq<Seq<char>>, separator: Seq<char>) -> Seq<char>
    decreases items.len(),
{
    if items.len() == 0 {
        Seq::empty()
    } else if items.len() == 1 {
        items[0]
    } else {
        joined(items.drop_last(), separator) + separator + items.last()
    }
}

/// The names of the packages with the handles in `list`, in order; a
/// handle of no package gives no name.
pub open spec fn names_at(packages: Seq<PackageView>, list: Seq<int>) -> Seq<Seq<char>>
    decreases list.len(),
{
    if list.len() == 0 {
        Seq::empty()
    } else {
        let before = names_at(packages, list.drop_last());
        if 0 <= list.last() < packages.len() {
            before.push(packages[list.last()].name)
        } else {
            before
        }
    }
}

/// What stands before the version in the tags of a package: nothing in a
/// workspace of one package, else the name of the package and a hyphen.
pub open spec fn tag_prefix(packages: Seq<PackageView>, package: int) -> Seq<char> {
    if packages.len() == 1 || !(0 <= package < packages.len()) {
        Seq::empty()
    } else {
        packages[package].name + "-"@
    }
}

/// The tag of a version.
pub open spec fn tag_name(prefix: Seq<char>, version: Version) -> Seq<char> {
    prefix + "v"@ + version.text()
}

/// The address that the heading of a section links to: the comparison of
/// the previous tag with the new one, or the page of the new tag where
/// there is no previous one.
pub open spec fn release_link(
    url: Seq<char>,
    prefix: Seq<char>,
    previous: Option<Version>,
    next: Version,
) -> Seq<char> {
    match previous {
        Some(before) => url + "/compare/"@ + tag_name(prefix, before) + "..."@ + tag_name(
            prefix,
            next,
        ),
        None => url + "/releases/tag/"@ + tag_name(prefix, next),
    }
}

/// How the heading of the section of a version begins.
pub open spec fn version_mark(version: Version) -> Seq<char> {
    "## ["@ + version.text() + "]"@
}

/// The heading of a section: the version, linked, and the date.
pub open spec fn heading(version: Version, link: Seq<char>, date: Seq<char>) -> Seq<char> {
    version_mark(version) + "("@ + link + ") - "@ + date
}

/// The summaries of those of `subjects` that are of kind `kind`, in order.
pub open spec fn summaries(subjects: Seq<Seq<char>>, kind: CommitKind) -> Seq<Seq<char>>
    decreases subjects.len(),
{
    if subjects.len() == 0 {
        Seq::empty()
    } else {
        let before = summaries(subjects.drop_last(), kind);
        if commit_kind(subjects.last()) == kind {
            before.push(commit_summary(subjects.last()))
        } else {
            before
        }
    }
}

/// One line for each of `items`: a hyphen, a space and the item.
pub open spec fn bullets(items: Seq<Seq<char>>) -> Seq<char>
    decreases items.len(),
{
    if items.len() == 0 {
        Seq::empty()
    } else {
        bullets(items.drop_last()) + "- "@ + items.last() + "\n"@
    }
}

/// A category of a section: a blank line, its title and its items; nothing
/// where it has no items.
pub open spec fn category(title: Seq<char>, items: Seq<Seq<char>>) -> Seq<char> {
    if items.len() == 0 {
        Seq::empty()
    } else {
        "\n### "@ + title + "\n\n"@ + bullets(items)
    }
}

/// The section as it stands in the changelog: the heading, then the
/// categories that are not empty.
pub open spec fn section_text(
    head: Seq<char>,
    added: Seq<Seq<char>>,
    fixed: Seq<Seq<char>>,
    other: Seq<Seq<char>>,
) -> Seq<char> {
    head + "\n"@ + category("Added"@, added) + category("Fixed"@, fixed) + category(
        "Other"@,
        other,
    )
}

/// What the section is written from: the subjects of the commits, or,
/// where the package has none of its own, a note that names the local
/// packages it was updated for.
pub open spec fn entries(commits: Seq<Seq<char>>, updated: Seq<Seq<char>>) -> Seq<Seq<char>> {
    if commits.len() > 0 {
        commits
    } else if updated.len() > 0 {
        seq!["updated the following local packages: "@ + joined(updated, ", "@)]
    } else {
        Seq::empty()
    }
}

/// Whether the changelog `existing` has a section for `version`: a line
/// that begins with the mark of that version.
pub open spec fn mentions(existing: Seq<char>, version: Version) -> bool {
    exists|i: int|
        0 <= i < lines(existing).len() && starts_with(
            #[trigger] lines(existing)[i],
            version_mark(version),
        )
}

/// The section for `decision`, written from `commits`.
pub open spec fn section_of(
    packages: Seq<PackageView>,
    decision: DecisionView,
    commits: Seq<Seq<char>>,
    url: Seq<char>,
    date: Seq<char>,
) -> SectionView {
    let from = entries(commits, names_at(packages, decision.updated_dependencies));
    let added = summaries(from, CommitKind::Feature);
    let fixed = summaries(from, CommitKind::Fix);
    let other = summaries(from, CommitKind::Other);
    let link = release_link(
        url,
        tag_prefix(packages, decision.package),
        decision.previous,
        decision.next,
    );
    SectionView {
        package: decision.package,
        version: decision.next,
        date,
        added,
        fixed,
        other,
        text: section_text(heading(decision.next, link, date), added, fixed, other),
    }
}

/// The section that is written for `decision`: none where the changelog
/// `existing` already has one for that version, or the registry already
/// has the version.
pub open spec fn built(
    packages: Seq<PackageView>,
    decision: DecisionView,
    commits: Seq<Seq<char>>,
    existing: Seq<char>,
    url: Seq<char>,
    date: Seq<char>,
    published: bool,
) -> Option<SectionView> {
    if published || mentions(existing, decision.next) {
        None
    } else {
        Some(section_of(packages, decision, commits, url, date))
    }
}

/// Appends the items, with `separator` between them.
fn push_joined(out: &mut Vec<char>, items: &Vec<String>, separator: &str)
    ensures
        final(out)@ == old(out)@ + joined(views(items@), separator@),
{
    let ghost texts = views(items@);
    let mut i: usize = 0;
    assert(texts.take(0) =~= Seq::<Seq<char>>::empty());
    assert(out@ =~= old(out)@ + joined(texts.take(0), separator@));
    while i < items.len()
        invariant
            i <= items.len(),
            texts == views(items@),
            out@ == old(out)@ + joined(texts.take(i as int), separator@),
        decreases items.len() - i,
    {
        let ghost before = out@;
        if i > 0 {
            push_str(out, separator);
        }
        push_str(out, items[i].as_str());
        proof {
            let upto = texts.take(i + 1);
            assert(upto.drop_last() =~= texts.take(i as int));
            assert(upto.last() == items@[i as int]@);
            if i == 0 {
                assert(joined(upto, separator@) == upto[0]);
                assert(joined(texts.take(0), separator@) =~= Seq::<char>::empty());
                assert(out@ =~= old(out)@ + joined(upto, separator@));
            } else {
                assert(out@ =~= old(out)@ + joined(upto, separator@));
            }
        }
        i += 1;
    }
    assert(texts.take(i as int) =~= texts);
}

/// Appends one line for each item.
fn push_bullets(out: &mut Vec<char>, items: &Vec<String>)
    ensures
        final(out)@ == old(out)@ + bullets(views(items@)),
{
    let ghost texts = views(items@);
    let mut i: usize = 0;
    assert(texts.take(0) =~= Seq::<Seq<char>>::empty());
    assert(out@ =~= old(out)@ + bullets(texts.take(0)));
    while i < items.len()
        invariant
            i <= items.len(),
            texts == views(items@),
            out@ == old(out)@ + bullets(texts.take(i as int)),
        decreases items.len() - i,
    {
        push_str(out, "- ");
        push_str(out, items[i].as_str());
        push_str(out, "\n");
        proof {
            let upto = texts.take(i + 1);
            assert(upto.drop_last() =~= texts.take(i as int));
            assert(upto.last() == items@[i as int]@);
            assert(out@ =~= old(out)@ + bullets(upto));
        }
        i += 1;
    }
    assert(texts.take(i as int) =~= texts);
}

/// Appends a category, if it has items.
fn push_category(out: &mut Vec<char>, title: &str, items: &Vec<String>)
    ensures
        final(out)@ == old(out)@ + category(title@, views(items@)),
{
    if items.len() > 0 {
        push_str(out, "\n### ");
        push_str(out, title);
        push_str(out, "\n\n");
        push_bullets(out, items);
        assert(out@ =~= old(out)@ + category(title@, views(items@)));
    } else {
        assert(out@ =~= old(out)@ + category(title@, views(items@)));
    }
}

/// Appends the tag of a version.
fn push_tag(out: &mut Vec<char>, prefix: &Vec<char>, version: &Version)
    ensures
        final(out)@ == old(out)@ + tag_name(prefix@, *version),
{
    push_chars(out, prefix);
    push_str(out, "v");
    push_chars(out, &version.to_chars());
    assert(out@ =~= old(out)@ + tag_name(prefix@, *version));
}

/// The tag of a version.
pub fn tag_of(prefix: &str, version: &Version) -> (tag: String)
    ensures
        tag@ == tag_name(prefix@, *version),
{
    let mut out: Vec<char> = Vec::new();
    push_tag(&mut out, &chars_of(prefix), version);
    assert(out@ =~= tag_name(prefix@, *version));
    string_of(&out)
}

/// The heading of the section of `next`, which follows `previous`.
fn heading_chars(
    url: &str,
    prefix: &Vec<char>,
    previous: &Option<Version>,
    next: &Version,
    date: &str,
) -> (out: Vec<char>)
    ensures
        out@ == heading(*next, release_link(url@, prefix@, *previous, *next), date@),
{
    let mut out = chars_of("## [");
    push_chars(&mut out, &next.to_chars());
    push_str(&mut out, "]");
    push_str(&mut out, "(");
    let ghost start = out@;
    push_str(&mut out, url);
    match previous {
        Some(before) => {
            push_str(&mut out, "/compare/");
            push_tag(&mut out, prefix, before);
            push_str(&mut out, "...");
            push_tag(&mut out, prefix, next);
        },
        None => {
            push_str(&mut out, "/releases/tag/");
            push_tag(&mut out, prefix, next);
        },
    }
    assert(out@ =~= start + release_link(url@, prefix@, *previous, *next));
    push_str(&mut out, ") - ");
    push_str(&mut out, date);
    assert(out@ =~= heading(*next, release_link(url@, prefix@, *previous, *next), date@));
    out
}

/// The summaries of the subjects, by kind: features, fixes, others.
fn sort_summaries(subjects: &Vec<String>) -> (out: (Vec<String>, Vec<String>, Vec<String>))
    ensures
        views(out.0@) == summaries(views(subjects@), CommitKind::Feature),
        views(out.1@) == summaries(views(subjects@), CommitKind::Fix),
        views(out.2@) == summaries(views(subjects@), CommitKind::Other),
{
    let ghost texts = views(subjects@);
    let mut added: Vec<String> = Vec::new();
    let mut fixed: Vec<String> = Vec::new();
    let mut other: Vec<String> = Vec::new();
    let mut i: usize = 0;
    assert(texts.take(0) =~= Seq::<Seq<char>>::empty());
    assert(views(added@) =~= summaries(texts.take(0), CommitKind::Feature));
    assert(views(fixed@) =~= summaries(texts.take(0), CommitKind::Fix));
    assert(views(other@) =~= summaries(texts.take(0), CommitKind::Other));
    while i < subjects.len()
        invariant
            i <= subjects.len(),
            texts == views(subjects@),
            views(added@) == summaries(texts.take(i as int), CommitKind::Feature),
            views(fixed@) == summaries(texts.take(i as int), CommitKind::Fix),
            views(other@) == summaries(texts.take(i as int), CommitKind::Other),
        decreases subjects.len() - i,
    {
        let ghost a = views(added@);
        let ghost f = views(fixed@);
        let ghost o = views(other@);
        let (kind, summary) = classify(subjects[i].as_str());
        proof {
            let upto = texts.take(i + 1);
            assert(upto.drop_last() =~= texts.take(i as int));
            assert(upto.last() == subjects@[i as int]@);
        }
        match kind {
            CommitKind::Feature => {
                added.push(summary);
                assert(views(added@) =~= a.push(summary@));
            },
            CommitKind::Fix => {
                fixed.push(summary);
                assert(views(fixed@) =~= f.push(summary@));
            },
            CommitKind::Other => {
                other.push(summary);
                assert(views(other@) =~= o.push(summary@));
            },
        }
        i += 1;
    }
    assert(texts.take(i as int) =~= texts);
    (added, fixed, other)
}

/// The mark of a version, as characters.
fn mark_chars(version: &Version) -> (out: Vec<char>)
    ensures
        out@ == version_mark(*version),
{
    let mut out = chars_of("## [");
    push_chars(&mut out, &version.to_chars());
    push_str(&mut out, "]");
    out
}

/// Whether the changelog `existing` already has a section for `version`.
pub fn already_recorded(existing: &str, version: &Version) -> (found: bool)
    ensures
        found == mentions(existing@, *version),
{
    let mark = mark_chars(version);
    let all = split_lines(&chars_of(existing));
    let mut i: usize = 0;
    while i < all.len()
        invariant
            i <= all.len(),
            views(all@) == lines(existing@),
            mark@ == version_mark(*version),
            forall|k: int| 0 <= k < i ==> !starts_with(#[trigger] lines(existing@)[k], mark@),
        decreases all.len() - i,
    {
        assert(views(all@)[i as int] == all@[i as int]@);
        if starts_with_chars(&all[i], &mark) {
            return true;
        }
        i += 1;
    }
    assert(views(all@).len() == all@.len());
    false
}

/// The names of the packages with the handles in `list`.
fn names_of_handles(graph: &DependencyGraph, list: &Vec<usize>) -> (names: Vec<String>)
    ensures
        views(names@) == names_at(graph@.packages, handles(list@)),
{
    let ghost wanted = handles(list@);
    let mut names: Vec<String> = Vec::new();
    let mut i: usize = 0;
    assert(views(names@) =~= names_at(graph@.packages, wanted.take(0)));
    while i < list.len()
        invariant
            i <= list.len(),
            wanted == handles(list@),
            views(names@) == names_at(graph@.packages, wanted.take(i as int)),
        decreases list.len() - i,
    {
        let ghost before = views(names@);
        proof {
            let upto = wanted.take(i + 1);
            assert(upto.drop_last() =~= wanted.take(i as int));
            assert(upto.last() == list@[i as int] as int);
        }
        match graph.package(list[i]) {
            Some(package) => {
                names.push(package.name.clone());
                assert(views(names@) =~= before.push(package@.name));
            },
            None => {},
        }
        i += 1;
    }
    assert(wanted.take(i as int) =~= wanted);
    names
}

/// What stands before the version in the tags of a package.
pub fn tag_prefix_of(graph: &DependencyGraph, package: usize) -> (prefix: String)
    ensures
        prefix@ == tag_prefix(graph@.packages, package as int),
{
    if graph.len() == 1 {
        return String::new();
    }
    match graph.package(package) {
        Some(found) => {
            let mut out = chars_of(found.name.as_str());
            push_str(&mut out, "-");
            string_of(&out)
        },
        None => String::new(),
    }
}

/// The subjects that the section is written from.
fn entries_of(commits: &Vec<String>, updated: &Vec<String>) -> (out: Vec<String>)
    ensures
        views(out@) == entries(views(commits@), views(updated@)),
{
    let mut out: Vec<String> = Vec::new();
    if commits.len() > 0 {
        let mut i: usize = 0;
        while i < commits.len()
            invariant
                i <= commits.len(),
                views(out@) == views(commits@).take(i as int),
            decreases commits.len() - i,
        {
            let ghost before = views(out@);
            out.push(commits[i].clone());
            assert(views(out@) =~= before.push(commits@[i as int]@));
            assert(views(commits@).take(i + 1) =~= views(commits@).take(i as int).push(
                commits@[i as int]@,
            ));
            i += 1;
        }
        assert(views(commits@).take(i as int) =~= views(commits@));
    } else if updated.len() > 0 {
        let mut note = chars_of("updated the following local packages: ");
        push_joined(&mut note, updated, ", ");
        out.push(string_of(&note));
        assert(views(out@) =~= entries(views(commits@), views(updated@)));
    } else {
        assert(views(out@) =~= entries(views(commits@), views(updated@)));
    }
    out
}

/// The section of the changelog for the release that `decision` stands
/// for, written from `commits`, the subjects of the package's commits since
/// its last release, oldest first. A package without commits of its own
/// gets a note that names the local packages it was updated for.
///
/// There is no section where the changelog `existing` already has one for
/// that version, or the registry already has the version: a second run
/// before the release is out writes nothing twice.
pub fn build(
    graph: &DependencyGraph,
    decision: &ReleaseDecision,
    commits: &Vec<String>,
    existing: &str,
    context: &ReleaseContext,
) -> (section: Option<ChangelogSection>)
    ensures
        match section {
            Some(made) => built(
                graph@.packages,
                decision@,
                views(commits@),
                existing@,
                context.repository_url@,
                context.date@,
                context.published,
            ) == Some(made@),
            None => built(
                graph@.packages,
                decision@,
                views(commits@),
                existing@,
                context.repository_url@,
                context.date@,
                context.published,
            ) is None,
        },
{
    if context.published || already_recorded(existing, &decision.next) {
        return None;
    }
    let updated = names_of_handles(graph, &decision.updated_dependencies);
    let from = entries_of(commits, &updated);
    let (added, fixed, other) = sort_summaries(&from);
    let prefix = chars_of(tag_prefix_of(graph, decision.package).as_str());
    let mut text = heading_chars(
        context.repository_url.as_str(),
        &prefix,
        &decision.previous,
        &decision.next,
        context.date.as_str(),
    );
    push_str(&mut text, "\n");
    push_category(&mut text, "Added", &added);
    push_category(&mut text, "Fixed", &fixed);
    push_category(&mut text, "Other", &other);
    Some(
        ChangelogSection {
            package: decision.package,
            version: decision.next,
            date: context.date.clone(),
            added,
            fixed,
            other,
            text: string_of(&text),
        },
    )
}

/// Whether `s` begins with the heading of the section of a release.
pub open spec fn is_release_heading(s: Seq<char>) -> bool {
    starts_with(s, "## ["@) && !starts_with(s, "## [Unreleased]"@)
}

/// The index in `s` at which the first line begins that is the heading of
/// the section of a release, or the length of `s` where there is none.
pub open spec fn section_offset(s: Seq<char>) -> nat
    decreases s.len(),
{
    if s.len() == 0 || is_release_heading(s) {
        0
    } else {
        let k = position(s, '\n');
        if k >= s.len() {
            s.len()
        } else {
            k + 1 + section_offset(s.skip(k as int + 1))
        }
    }
}

/// The changelog `existing` with the section `text` put in as the newest:
/// before the first section of a release, and at the end where there is
/// none. The section starts a line of its own, and a blank line parts it
/// from the section that follows.
pub open spec fn with_section(existing: Seq<char>, text: Seq<char>) -> Seq<char> {
    let at = section_offset(existing) as int;
    let before = existing.take(at);
    let glue = if before.len() == 0 || before.last() == '\n' {
        Seq::<char>::empty()
    } else {
        seq!['\n']
    };
    let gap = if at < existing.len() {
        seq!['\n']
    } else {
        Seq::<char>::empty()
    };
    before + glue + text + gap + existing.skip(at)
}

/// The offset of the first section lies within the text.
pub proof fn lemma_section_offset_bound(s: Seq<char>)
    ensures
        section_offset(s) <= s.len(),
    decreases s.len(),
{
    if s.len() == 0 || is_release_heading(s) {
    } else {
        lemma_position(s, '\n');
        let k = position(s, '\n');
        if k < s.len() {
            lemma_section_offset_bound(s.skip(k as int + 1));
        }
    }
}

/// A text that ends a line can be cut off: the lines of the whole are its
/// lines and then those of the rest.
pub proof fn lemma_lines_concat(a: Seq<char>, b: Seq<char>)
    requires
        a.len() == 0 || a.last() == '\n',
    ensures
        lines(a + b) == lines(a) + lines(b),
    decreases a.len(),
{
    if a.len() == 0 {
        assert(a + b =~= b);
        assert(lines(a) + lines(b) =~= lines(b));
    } else {
        lemma_position(a, '\n');
        let k = position(a, '\n') as int;
        if k >= a.len() {
            assert(a[a.len() - 1] != '\n');
        }
        let ab = a + b;
        assert forall|j: int| 0 <= j < k implies ab[j] != '\n' by {
            assert(ab[j] == a[j]);
        }
        assert(ab[k] == a[k]);
        lemma_position_is(ab, '\n', k);
        assert(ab.take(k) =~= a.take(k));
        let rest = a.skip(k + 1);
        assert(ab.skip(k + 1) =~= rest + b);
        if rest.len() > 0 {
            assert(rest.last() == a.last());
        }
        lemma_lines_concat(rest, b);
        assert(lines(ab) =~= seq![strip_cr(a.take(k))] + (lines(rest) + lines(b)));
        assert(lines(a) + lines(b) =~= seq![strip_cr(a.take(k))] + (lines(rest) + lines(b)));
    }
}

/// A text that begins with a mark that holds no line feed and does not end
/// in a carriage return has a first line, which begins with the mark.
pub proof fn lemma_first_line_keeps_mark(s: Seq<char>, mark: Seq<char>)
    requires
        starts_with(s, mark),
        mark.len() > 0,
        forall|i: int| 0 <= i < mark.len() ==> mark[i] != '\n',
        mark.last() != '\r',
    ensures
        lines(s).len() > 0,
        starts_with(lines(s)[0], mark),
{
    lemma_position(s, '\n');
    let k = position(s, '\n') as int;
    let n = mark.len() as int;
    assert(s.subrange(0, n) == mark);
    if k < n {
        assert(s.subrange(0, n)[k] == s[k]);
    }
    if k >= s.len() {
        assert(lines(s)[0] == s);
    } else {
        let whole = s.take(k);
        let line = strip_cr(whole);
        assert(lines(s)[0] == line);
        if k == n {
            assert(whole =~= mark);
        }
        assert(line.len() >= n);
        assert(line.subrange(0, n) =~= s.subrange(0, n));
    }
}

/// The mark of a version holds no line feed and ends in a bracket.
pub proof fn lemma_version_mark_plain(version: Version)
    ensures
        version_mark(version).len() > 0,
        forall|i: int|
            0 <= i < version_mark(version).len() ==> #[trigger] version_mark(version)[i] != '\n',
        version_mark(version).last() == ']',
{
    reveal_strlit("## [");
    reveal_strlit("]");
    reveal_strlit(".");
    lemma_decimal_digits(version.major as nat);
    lemma_decimal_digits(version.minor as nat);
    lemma_decimal_digits(version.patch as nat);
    let a = decimal(version.major as nat);
    let b = decimal(version.minor as nat);
    let c = decimal(version.patch as nat);
    let text = version.text();
    assert(text == a + "."@ + b + "."@ + c);
    assert forall|i: int| 0 <= i < text.len() implies #[trigger] text[i] != '\n' by {
        if i < a.len() {
            assert(text[i] == a[i]);
        } else if i < a.len() + 1 {
        } else if i < a.len() + 1 + b.len() {
            assert(text[i] == b[i - a.len() - 1]);
        } else if i < a.len() + 1 + b.len() + 1 {
        } else {
            assert(text[i] == c[i - a.len() - 1 - b.len() - 1]);
        }
    }
    let mark = version_mark(version);
    assert forall|i: int| 0 <= i < mark.len() implies #[trigger] mark[i] != '\n' by {
        if 4 <= i < 4 + text.len() {
            assert(mark[i] == text[i - 4]);
        }
    }
}

/// Once a section that begins with the mark of a version is put into a
/// changelog, the changelog has a section for that version.
pub proof fn law_written_section_is_found(existing: Seq<char>, text: Seq<char>, version: Version)
    requires
        starts_with(text, version_mark(version)),
    ensures
        mentions(with_section(existing, text), version),
{
    let mark = version_mark(version);
    lemma_version_mark_plain(version);
    lemma_section_offset_bound(existing);
    let at = section_offset(existing) as int;
    let before = existing.take(at);
    let glue = if before.len() == 0 || before.last() == '\n' {
        Seq::<char>::empty()
    } else {
        seq!['\n']
    };
    let gap = if at < existing.len() {
        seq!['\n']
    } else {
        Seq::<char>::empty()
    };
    let head = before + glue;
    let tail = text + gap + existing.skip(at);
    let whole = with_section(existing, text);
    assert(whole =~= head + tail);
    lemma_lines_concat(head, tail);
    assert(text.subrange(0, mark.len() as int) == mark);
    assert(tail.subrange(0, mark.len() as int) =~= text.subrange(0, mark.len() as int));
    lemma_first_line_keeps_mark(tail, mark);
    let i = lines(head).len() as int;
    assert(lines(whole)[i] == lines(tail)[0]);
}

/// The text of a section begins with the mark of its version.
pub proof fn lemma_section_begins_with_mark(
    packages: Seq<PackageView>,
    decision: DecisionView,
    commits: Seq<Seq<char>>,
    url: Seq<char>,
    date: Seq<char>,
)
    ensures
        starts_with(
            section_of(packages, decision, commits, url, date).text,
            version_mark(decision.next),
        ),
{
    let section = section_of(packages, decision, commits, url, date);
    let mark = version_mark(decision.next);
    assert(section.text.subrange(0, mark.len() as int) =~= mark);
}

/// No section is written twice for one version of a package: once the
/// section of a release stands in the changelog, the changelog has a
/// section for that version, so that writing it again gives nothing.
pub proof fn law_section_is_written_once(
    packages: Seq<PackageView>,
    decision: DecisionView,
    commits: Seq<Seq<char>>,
    url: Seq<char>,
    date: Seq<char>,
    existing: Seq<char>,
)
    ensures
        mentions(
            with_section(existing, section_of(packages, decision, commits, url, date).text),
            decision.next,
        ),
{
    lemma_section_begins_with_mark(packages, decision, commits, url, date);
    law_written_section_is_found(
        existing,
        section_of(packages, decision, commits, url, date).text,
        decision.next,
    );
}

/// Whether the heading of the section of a release stands in `s` at
/// index `at`.
fn heading_at(s: &Vec<char>, at: usize) -> (found: bool)
    requires
        at <= s.len(),
    ensures
        found == is_release_heading(s@.skip(at as int)),
{
    let ghost rest = s@.skip(at as int);
    let open = chars_of("## [");
    let unreleased = chars_of("## [Unreleased]");
    proof {
        let a = open@;
        let b = unreleased@;
        if at + a.len() <= s.len() {
            assert(rest.subrange(0, a.len() as int) =~= s@.subrange(at as int, at + a.len()));
        }
        if at + b.len() <= s.len() {
            assert(rest.subrange(0, b.len() as int) =~= s@.subrange(at as int, at + b.len()));
        }
    }
    occurs_at_chars(s, &open, at) && !occurs_at_chars(s, &unreleased, at)
}

/// The index at which the first section of a release begins.
fn find_section(s: &Vec<char>) -> (at: usize)
    ensures
        at == section_offset(s@),
        at <= s.len(),
{
    let mut pos: usize = 0;
    let mut found = false;
    assert(s@.skip(0) =~= s@);
    while pos < s.len() && !found
        invariant
            pos <= s.len(),
            section_offset(s@) == pos + section_offset(s@.skip(pos as int)),
            found ==> pos < s.len() && is_release_heading(s@.skip(pos as int)),
        decreases s.len() - pos + if found { 0int } else { 1int },
    {
        let ghost rest = s@.skip(pos as int);
        if heading_at(s, pos) {
            found = true;
        } else {
            let k = find_from(s, pos, '\n');
            if k == s.len() {
                assert(s@.skip(k as int) =~= Seq::<char>::empty());
                pos = k;
            } else {
                assert(rest.skip(k - pos + 1) =~= s@.skip(k + 1));
                pos = k + 1;
            }
        }
    }
    pos
}

/// The changelog `existing` with the section `text` put in as the newest.
pub fn insert_section(existing: &str, text: &str) -> (changelog: String)
    ensures
        changelog@ == with_section(existing@, text@),
{
    let chars = chars_of(existing);
    let at = find_section(&chars);
    let mut out = slice_chars(&chars, 0, at);
    if at > 0 && chars[at - 1] != '\n' {
        out.push('\n');
    }
    push_str(&mut out, text);
    if at < chars.len() {
        out.push('\n');
    }
    push_chars(&mut out, &slice_chars(&chars, at, chars.len()));
    assert(out@ =~= with_section(existing@, text@));
    string_of(&out)
}

} // verus!
