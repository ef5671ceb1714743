//! Which packages changed since their last release.
//!
//! The files that were touched, the commits that touched them and the
//! targets of symbolic links come from the caller, who asks the version
//! control and the file system. What is decided here is which of the files
//! count for a package.

use crate::graph::{Package, PackageView};
use crate::paths::{belongs, belongs_to};
use crate::text::{chars_eq, chars_of, views};
use vstd::prelude::*;

verus! {

/// What is known of one package's changes since its last release.
#[derive(Debug)]
pub struct ChangeEntry {
    /// Whether the package changed directly: a file of its own changed, or
    /// it was never released.
    pub changed: bool,
    /// The subjects of the commits that touched the package, oldest first.
    pub commits: Vec<String>,
    /// Whether the package was released before.
    pub released: bool,
}

/// What a change entry holds, as plain values.
pub struct ChangeView {
    pub changed: bool,
    pub commits: Seq<Seq<char>>,
    pub released: bool,
}

impl View for ChangeEntry {
    type V = ChangeView;

    open spec fn view(&self) -> ChangeView {
        ChangeView { changed: self.changed, commits: views(self.commits@), released: self.released }
    }
}

/// A path, and where the file that it names really is.
#[derive(Debug)]
pub struct ResolvedPath {
    /// The path as it is named, relative to the workspace.
    pub path: String,
    /// The path of the file itself, once a symbolic link at `path` is
    /// followed; `None` where the path leads to no file.
    pub target: Option<String>,
}

/// What a resolved path holds, as plain values.
pub struct ResolvedView {
    pub path: Seq<char>,
    pub target: Option<Seq<char>>,
}

impl View for ResolvedPath {
    type V = ResolvedView;

    open spec fn view(&self) -> ResolvedView {
        ResolvedView {
            path: self.path@,
            target: match self.target {
                Some(target) => Some(target@),
                None => None,
            },
        }
    }
}

/// Whether one of the documents that the package declares is the file at
/// `actual`. A document that leads to no file is none.
pub open spec fn is_document(documents: Seq<ResolvedView>, actual: Seq<char>) -> bool {
    exists|k: int| 0 <= k < documents.len() && (#[trigger] documents[k]).target == Some(actual)
}

/// Whether a touched file counts for the package: it leads to a file, and
/// that file belongs to the package or is one of its documents.
pub open spec fn counts(
    package: PackageView,
    documents: Seq<ResolvedView>,
    file: ResolvedView,
) -> bool {
    match file.target {
        Some(actual) => belongs(package.root, package.included, package.excluded, actual)
            || is_document(documents, actual),
        None => false,
    }
}

/// Whether one of the touched files counts for the package.
pub open spec fn any_counts(
    package: PackageView,
    documents: Seq<ResolvedView>,
    touched: Seq<ResolvedView>,
) -> bool {
    exists|i: int| 0 <= i < touched.len() && counts(package, documents, #[trigger] touched[i])
}

/// What is known of the package's changes: it changed if it was never
/// released or a touched file counts for it, and then its commits are
/// `newest_first` in reverse, which puts the oldest first.
pub open spec fn detected(
    package: PackageView,
    documents: Seq<ResolvedView>,
    touched: Seq<ResolvedView>,
    newest_first: Seq<Seq<char>>,
    released: bool,
) -> ChangeView {
    let changed = !released || any_counts(package, documents, touched);
    ChangeView {
        changed,
        commits: if changed {
            newest_first.reverse()
        } else {
            Seq::empty()
        },
        released,
    }
}

/// Whether one of the documents is the file at `actual`.
fn document_at(documents: &Vec<ResolvedPath>, actual: &Vec<char>) -> (found: bool)
    ensures
        found == is_document(views(documents@), actual@),
{
    let ghost all = views(documents@);
    let mut k: usize = 0;
    while k < documents.len()
        invariant
            k <= documents.len(),
            all == views(documents@),
            forall|q: int| 0 <= q < k ==> (#[trigger] all[q]).target != Some(actual@),
        decreases documents.len() - k,
    {
        assert(all[k as int] == documents@[k as int]@);
        match &documents[k].target {
            Some(target) => {
                if chars_eq(&chars_of(target.as_str()), actual) {
                    return true;
                }
            },
            None => {},
        }
        k += 1;
    }
    false
}

/// Whether a touched file counts for the package.
pub fn file_counts(package: &Package, documents: &Vec<ResolvedPath>, file: &ResolvedPath) -> (yes:
    bool)
    ensures
        yes == counts(package@, views(documents@), file@),
{
    match &file.target {
        Some(actual) => {
            belongs_to(
                package.root.as_str(),
                &package.included,
                &package.excluded,
                actual.as_str(),
            ) || document_at(documents, &chars_of(actual.as_str()))
        },
        None => false,
    }
}

/// What is known of the changes of `package` since its last release.
///
/// `touched` holds the files that were touched since then, `documents` the
/// files that the package declares besides its sources, each with the file
/// it leads to; `newest_first` holds the subjects of the commits that
/// touched the package, newest first, and `released` says whether there was
/// a release at all. A path that leads to no file counts for nothing, and
/// stops nothing.
pub fn detect(
    package: &Package,
    documents: &Vec<ResolvedPath>,
    touched: &Vec<ResolvedPath>,
    newest_first: &Vec<String>,
    released: bool,
) -> (entry: ChangeEntry)
    ensures
        entry@ == detected(
            package@,
            views(documents@),
            views(touched@),
            views(newest_first@),
            released,
        ),
{
    let ghost files = views(touched@);
    let mut hit = false;
    let mut i: usize = 0;
    while i < touched.len() && !hit
        invariant
            i <= touched.len(),
            files == views(touched@),
            hit ==> any_counts(package@, views(documents@), files),
            !hit ==> forall|q: int|
                0 <= q < i ==> !counts(package@, views(documents@), #[trigger] files[q]),
        decreases touched.len() - i,
    {
        assert(files[i as int] == touched@[i as int]@);
        if file_counts(package, documents, &touched[i]) {
            hit = true;
        }
        i += 1;
    }
    let changed = !released || hit;
    let mut commits: Vec<String> = Vec::new();
    if changed {
        let ghost given = views(newest_first@);
        let mut k: usize = newest_first.len();
        assert(views(commits@) =~= given.skip(k as int).reverse());
        while k > 0
            invariant
                k <= newest_first.len(),
                given == views(newest_first@),
                views(commits@) == given.skip(k as int).reverse(),
            decreases k,
        {
            let ghost before = views(commits@);
            k -= 1;
            commits.push(newest_first[k].clone());
            assert(views(commits@) =~= before.push(given[k as int]));
            assert(given.skip(k as int).reverse() =~= given.skip(k + 1).reverse().push(
                given[k as int],
            ));
        }
        assert(given.skip(0) =~= given);
    } else {
        assert(views(commits@) =~= Seq::<Seq<char>>::empty());
    }
    ChangeEntry { changed, commits, released }
}

} // verus!
