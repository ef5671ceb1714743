use release_engine::changelog::{
    already_recorded, build, insert_section, tag_of, tag_prefix_of, ReleaseContext,
};
use release_engine::decide::{Compatibility, ReleaseDecision};
use release_engine::graph::{DependencyGraph, Package};
use release_engine::version::{Version, VersionBump};

fn package(name: &str, dependencies: &[&str]) -> Package {
    Package {
        name: name.to_string(),
        version: Version::new(0, 1, 0),
        root: name.to_string(),
        included: Vec::new(),
        excluded: Vec::new(),
        dependencies: dependencies.iter().map(|d| d.to_string()).collect(),
        publish: true,
    }
}

fn decision(package: usize, previous: Option<Version>, next: Version, updated: &[usize]) -> ReleaseDecision {
    ReleaseDecision {
        package,
        previous,
        next,
        bump: VersionBump::Patch,
        compatibility: Compatibility::NotChecked,
        diagnostic: None,
        warning: None,
        updated_dependencies: updated.to_vec(),
    }
}

fn context() -> ReleaseContext {
    ReleaseContext {
        repository_url: "https://localhost/user/repo".to_string(),
        date: "2024-05-01".to_string(),
        published: false,
    }
}

fn list(items: &[&str]) -> Vec<String> {
    items.iter().map(|i| i.to_string()).collect()
}

fn single() -> DependencyGraph {
    DependencyGraph::build(vec![package("repo", &[])]).unwrap()
}

fn several() -> DependencyGraph {
    DependencyGraph::build(vec![
        package("binary", &["library2"]),
        package("library2", &["library1"]),
        package("library1", &[]),
    ])
    .unwrap()
}

#[test]
fn a_first_release_links_to_its_tag() {
    let section = build(
        &single(),
        &decision(0, None, Version::new(0, 1, 0), &[]),
        &list(&["Initial commit", "cargo init"]),
        "",
        &context(),
    )
    .unwrap();
    assert_eq!(
        section.text,
        "## [0.1.0](https://localhost/user/repo/releases/tag/v0.1.0) - 2024-05-01\n\n### Other\n\n- Initial commit\n- cargo init\n"
    );
    assert_eq!(section.other, vec!["Initial commit", "cargo init"]);
    assert!(section.added.is_empty());
    assert!(section.fixed.is_empty());
    assert_eq!(section.version, Version::new(0, 1, 0));
    assert_eq!(section.date, "2024-05-01");
    assert_eq!(section.package, 0);
}

#[test]
fn a_later_release_links_to_the_comparison() {
    let section = build(
        &single(),
        &decision(0, Some(Version::new(0, 1, 0)), Version::new(0, 1, 1), &[]),
        &list(&["edit lib with compatible change"]),
        "# Changelog\n",
        &context(),
    )
    .unwrap();
    assert_eq!(
        section.text,
        "## [0.1.1](https://localhost/user/repo/compare/v0.1.0...v0.1.1) - 2024-05-01\n\n### Other\n\n- edit lib with compatible change\n"
    );
}

#[test]
fn commits_are_sorted_into_categories_oldest_first() {
    let section = build(
        &single(),
        &decision(0, Some(Version::new(1, 0, 0)), Version::new(1, 1, 0), &[]),
        &list(&["feat: first", "fix(core): mend", "docs", "feat!: second", "chore: tidy"]),
        "",
        &context(),
    )
    .unwrap();
    assert_eq!(section.added, vec!["first", "second"]);
    assert_eq!(section.fixed, vec!["mend"]);
    assert_eq!(section.other, vec!["docs", "tidy"]);
    assert_eq!(
        section.text,
        "## [1.1.0](https://localhost/user/repo/compare/v1.0.0...v1.1.0) - 2024-05-01\n\n### Added\n\n- first\n- second\n\n### Fixed\n\n- mend\n\n### Other\n\n- docs\n- tidy\n"
    );
}

#[test]
fn empty_categories_are_left_out() {
    let section = build(
        &single(),
        &decision(0, Some(Version::new(0, 1, 0)), Version::new(0, 2, 0), &[]),
        &list(&["feat: move readme"]),
        "",
        &context(),
    )
    .unwrap();
    assert_eq!(
        section.text,
        "## [0.2.0](https://localhost/user/repo/compare/v0.1.0...v0.2.0) - 2024-05-01\n\n### Added\n\n- move readme\n"
    );
}

#[test]
fn a_package_without_commits_names_the_packages_it_was_updated_for() {
    let graph = several();
    let section = build(
        &graph,
        &decision(1, Some(Version::new(0, 1, 0)), Version::new(0, 1, 1), &[2]),
        &Vec::new(),
        "",
        &context(),
    )
    .unwrap();
    assert_eq!(
        section.text,
        "## [0.1.1](https://localhost/user/repo/compare/library2-v0.1.0...library2-v0.1.1) - 2024-05-01\n\n### Other\n\n- updated the following local packages: library1\n"
    );
    let section = build(
        &graph,
        &decision(0, Some(Version::new(0, 1, 0)), Version::new(0, 1, 1), &[2, 1, 9]),
        &Vec::new(),
        "",
        &context(),
    )
    .unwrap();
    assert_eq!(section.other, vec!["updated the following local packages: library1, library2"]);
}

#[test]
fn a_version_that_is_recorded_gets_no_section() {
    let existing = "# Changelog\n\n## [Unreleased]\n\n## [0.1.0](https://x/releases/tag/v0.1.0) - 2024-01-01\n\n### Other\n\n- cargo init\n";
    let again = decision(0, None, Version::new(0, 1, 0), &[]);
    assert!(build(&single(), &again, &list(&["feat: move readme"]), existing, &context()).is_none());
    let next = decision(0, Some(Version::new(0, 1, 0)), Version::new(0, 1, 1), &[]);
    assert!(build(&single(), &next, &list(&["feat: move readme"]), existing, &context()).is_some());
}

#[test]
fn a_version_that_is_published_gets_no_section() {
    let published = ReleaseContext { published: true, ..context() };
    let d = decision(0, None, Version::new(0, 1, 0), &[]);
    assert!(build(&single(), &d, &list(&["x"]), "", &published).is_none());
}

#[test]
fn the_mark_of_a_version_is_looked_for_at_the_start_of_a_line() {
    let v = Version::new(0, 1, 0);
    assert!(already_recorded("## [0.1.0] - 2024-01-01\n", &v));
    assert!(already_recorded("x\r\n## [0.1.0](link)", &v));
    assert!(!already_recorded("## [0.1.01]\n", &v));
    assert!(!already_recorded(" ## [0.1.0]\n", &v));
    assert!(!already_recorded("see ## [0.1.0]\n", &v));
    assert!(!already_recorded("## [0.1.1]\n## [10.1.0]\n", &v));
    assert!(!already_recorded("", &v));
}

#[test]
fn a_section_is_never_written_twice() {
    let graph = single();
    let d = decision(0, Some(Version::new(0, 1, 0)), Version::new(0, 1, 1), &[]);
    let commits = list(&["fix: x"]);
    for existing in [
        "",
        "# Changelog",
        "# Changelog\n\n## [Unreleased]\n",
        "# Changelog\n\n## [Unreleased]\n\n## [0.1.0](l) - 2024-01-01\n\n### Other\n\n- a\n",
        "## [0.1.0] - 2024-01-01\n",
    ] {
        let section = build(&graph, &d, &commits, existing, &context()).unwrap();
        let written = insert_section(existing, &section.text);
        assert!(already_recorded(&written, &d.next), "{existing:?}");
        assert!(build(&graph, &d, &commits, &written, &context()).is_none(), "{existing:?}");
    }
}

#[test]
fn the_newest_section_comes_first() {
    let existing = "# Changelog\n\n## [Unreleased]\n\n## [0.1.0](l) - 2024-01-01\n\n- a\n";
    assert_eq!(
        insert_section(existing, "## [0.1.1](m) - 2024-05-01\n\n- b\n"),
        "# Changelog\n\n## [Unreleased]\n\n## [0.1.1](m) - 2024-05-01\n\n- b\n\n## [0.1.0](l) - 2024-01-01\n\n- a\n"
    );
    assert_eq!(insert_section("", "## [0.1.0]\n"), "## [0.1.0]\n");
    assert_eq!(insert_section("# Changelog", "## [0.1.0]\n"), "# Changelog\n## [0.1.0]\n");
    assert_eq!(insert_section("# Changelog\n\n", "## [0.1.0]\n"), "# Changelog\n\n## [0.1.0]\n");
}

#[test]
fn tags_name_the_package_where_there_are_several() {
    assert_eq!(tag_prefix_of(&single(), 0), "");
    assert_eq!(tag_prefix_of(&several(), 2), "library1-");
    assert_eq!(tag_prefix_of(&several(), 5), "");
    assert_eq!(tag_of("", &Version::new(0, 1, 0)), "v0.1.0");
    assert_eq!(tag_of("library1-", &Version::new(1, 20, 3)), "library1-v1.20.3");
}
