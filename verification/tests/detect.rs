use release_engine::detect::{detect, file_counts, ResolvedPath};
use release_engine::graph::Package;
use release_engine::version::Version;

fn package(root: &str, included: &[&str], excluded: &[&str]) -> Package {
    Package {
        name: "package".to_string(),
        version: Version::new(0, 1, 0),
        root: root.to_string(),
        included: included.iter().map(|p| p.to_string()).collect(),
        excluded: excluded.iter().map(|p| p.to_string()).collect(),
        dependencies: Vec::new(),
        publish: true,
    }
}

fn regular(path: &str) -> ResolvedPath {
    ResolvedPath { path: path.to_string(), target: Some(path.to_string()) }
}

fn link(path: &str, target: &str) -> ResolvedPath {
    ResolvedPath { path: path.to_string(), target: Some(target.to_string()) }
}

fn lost(path: &str) -> ResolvedPath {
    ResolvedPath { path: path.to_string(), target: None }
}

fn list(items: &[&str]) -> Vec<String> {
    items.iter().map(|i| i.to_string()).collect()
}

#[test]
fn a_touched_file_of_the_package_is_a_change() {
    let entry = detect(
        &package("crates/a", &[], &[]),
        &Vec::new(),
        &vec![regular("README.md"), regular("crates/a/src/lib.rs")],
        &list(&["newest", "older", "oldest"]),
        true,
    );
    assert!(entry.changed);
    assert!(entry.released);
    assert_eq!(entry.commits, vec!["oldest", "older", "newest"]);
}

#[test]
fn files_of_other_packages_are_no_change() {
    let entry = detect(
        &package("crates/a", &[], &[]),
        &Vec::new(),
        &vec![regular("README.md"), regular("crates/b/src/lib.rs")],
        &list(&["touches b"]),
        true,
    );
    assert!(!entry.changed);
    assert_eq!(entry.commits, Vec::<String>::new());
}

#[test]
fn a_package_that_was_never_released_has_changed() {
    let entry = detect(
        &package("", &[], &[]),
        &Vec::new(),
        &Vec::new(),
        &list(&["cargo init", "Initial commit"]),
        false,
    );
    assert!(entry.changed);
    assert!(!entry.released);
    assert_eq!(entry.commits, vec!["Initial commit", "cargo init"]);
}

#[test]
fn files_that_are_left_out_are_no_change() {
    let p = package("", &["/src"], &["*.md"]);
    assert!(!detect(&p, &Vec::new(), &vec![regular("README.md")], &Vec::new(), true).changed);
    assert!(!detect(&p, &Vec::new(), &vec![regular("src/notes.md")], &Vec::new(), true).changed);
    assert!(detect(&p, &Vec::new(), &vec![regular("src/lib.rs")], &Vec::new(), true).changed);
}

#[test]
fn a_document_behind_a_link_counts_though_it_is_left_out() {
    let p = package("", &["/src"], &[]);
    let documents = vec![link("README_SYMLINK.md", "README.md")];
    let entry =
        detect(&p, &documents, &vec![regular("README.md")], &list(&["feat: update readme"]), true);
    assert!(entry.changed);
    assert_eq!(entry.commits, vec!["feat: update readme"]);
    assert!(!detect(&p, &documents, &vec![regular("OTHER.md")], &Vec::new(), true).changed);
}

#[test]
fn a_touched_link_counts_for_the_file_it_leads_to() {
    let p = package("crates/a", &[], &[]);
    assert!(file_counts(&p, &Vec::new(), &link("shortcut", "crates/a/src/lib.rs")));
    assert!(!file_counts(&p, &Vec::new(), &link("crates/a/shortcut", "elsewhere/lib.rs")));
}

#[test]
fn a_document_that_cannot_be_found_stops_nothing() {
    let p = package("", &["/src"], &[]);
    let documents = vec![lost("../../README.md"), lost("nonexistent-readme.md")];
    let entry = detect(
        &p,
        &documents,
        &vec![regular("README.md"), lost("gone"), regular("src/new.rs")],
        &list(&["feat: add new functionality"]),
        true,
    );
    assert!(entry.changed);
    assert_eq!(entry.commits, vec!["feat: add new functionality"]);
    let entry = detect(&p, &documents, &vec![regular("README.md"), lost("src/x")], &Vec::new(), true);
    assert!(!entry.changed);
}
