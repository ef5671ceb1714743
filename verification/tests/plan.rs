use release_engine::changelog::{build, ChangelogSection, ReleaseContext};
use release_engine::decide::{
    decide, Compatibility, CompatibilityAnswer, CompatibilityReport, DecideOptions,
};
use release_engine::detect::{detect, ChangeEntry, ResolvedPath};
use release_engine::graph::{DependencyGraph, Package};
use release_engine::labels::LabelRule;
use release_engine::plan::{context_for, plan, PlanConfig, PlanError};
use release_engine::request::{reconcile, Reconciliation};
use release_engine::template::TemplateError;
use release_engine::version::{Version, VersionBump};

fn package(name: &str, root: &str, version: Version, dependencies: &[&str]) -> Package {
    Package {
        name: name.to_string(),
        version,
        root: root.to_string(),
        included: Vec::new(),
        excluded: Vec::new(),
        dependencies: dependencies.iter().map(|d| d.to_string()).collect(),
        publish: true,
    }
}

fn list(items: &[&str]) -> Vec<String> {
    items.iter().map(|i| i.to_string()).collect()
}

fn regular(path: &str) -> ResolvedPath {
    ResolvedPath { path: path.to_string(), target: Some(path.to_string()) }
}

fn default_config() -> PlanConfig {
    PlanConfig { pr_name: None, pr_body: None, pr_labels: Vec::new() }
}

fn context() -> ReleaseContext {
    ReleaseContext {
        repository_url: "https://localhost/user/repo".to_string(),
        date: "2024-05-01".to_string(),
        published: false,
    }
}

fn report(status: Compatibility) -> CompatibilityAnswer {
    CompatibilityAnswer::Report(CompatibilityReport { status, diagnostic: None })
}

const PLAIN: DecideOptions = DecideOptions { features_always_increment_minor: false };

struct Run {
    graph: DependencyGraph,
    changes: Vec<ChangeEntry>,
    answers: Vec<CompatibilityAnswer>,
}

fn sections(run: &Run, decisions: &[release_engine::decide::ReleaseDecision]) -> Vec<ChangelogSection> {
    decisions
        .iter()
        .filter_map(|d| build(&run.graph, d, &run.changes[d.package].commits, "", &context()))
        .collect()
}

fn chain_with_change_in_library1() -> Run {
    let packages = vec![
        package("binary", "binary", Version::new(0, 1, 0), &["library2"]),
        package("library2", "library2", Version::new(0, 1, 0), &["library1"]),
        package("library1", "library1", Version::new(0, 1, 0), &[]),
    ];
    let touched = vec![regular("library1/src/aa.rs")];
    let commits = list(&["edit library"]);
    let changes = packages
        .iter()
        .map(|p| detect(p, &Vec::new(), &touched, &commits, true))
        .collect();
    Run {
        graph: DependencyGraph::build(packages).unwrap(),
        changes,
        answers: vec![
            report(Compatibility::NotChecked),
            report(Compatibility::NotChecked),
            report(Compatibility::Compatible),
        ],
    }
}

#[test]
fn a_change_in_a_library_releases_the_chain_in_dependency_order() {
    let run = chain_with_change_in_library1();
    assert_eq!(
        run.changes.iter().map(|c| c.changed).collect::<Vec<_>>(),
        vec![false, false, true]
    );
    let decisions = decide(&run.graph, &run.changes, &run.answers, &PLAIN).unwrap();
    let names: Vec<&str> = decisions
        .iter()
        .map(|d| run.graph.package(d.package).unwrap().name.as_str())
        .collect();
    assert_eq!(names, vec!["library1", "library2", "binary"]);
    assert!(decisions.iter().all(|d| d.bump == VersionBump::Patch));
    assert!(decisions.iter().all(|d| d.next == Version::new(0, 1, 1)));
    let sections = sections(&run, &decisions);
    let made = plan(&run.graph, decisions, &sections, &default_config()).unwrap();
    assert_eq!(made.title, "chore: release v0.1.1");
    assert_eq!(
        made.body,
        "## 🤖 New release\n\n\
         * `library1`: 0.1.0 -> 0.1.1 (✓ API compatible changes)\n\
         * `library2`: 0.1.0 -> 0.1.1\n\
         * `binary`: 0.1.0 -> 0.1.1\n\
         \n<details><summary><i><b>Changelog</b></i></summary><p>\n\n\
         ## `library1`\n\n<blockquote>\n\n\
         ## [0.1.1](https://localhost/user/repo/compare/library1-v0.1.0...library1-v0.1.1) - 2024-05-01\n\n\
         ### Other\n\n- edit library\n</blockquote>\n\n\
         ## `library2`\n\n<blockquote>\n\n\
         ## [0.1.1](https://localhost/user/repo/compare/library2-v0.1.0...library2-v0.1.1) - 2024-05-01\n\n\
         ### Other\n\n- updated the following local packages: library1\n</blockquote>\n\n\
         ## `binary`\n\n<blockquote>\n\n\
         ## [0.1.1](https://localhost/user/repo/compare/binary-v0.1.0...binary-v0.1.1) - 2024-05-01\n\n\
         ### Other\n\n- updated the following local packages: library2\n</blockquote>\n\n\
         \n</p></details>\n"
    );
}

fn first_run() -> Run {
    let packages = vec![package("repo", "", Version::new(0, 1, 0), &[])];
    let changes = packages
        .iter()
        .map(|p| detect(p, &Vec::new(), &Vec::new(), &list(&["cargo init", "Initial commit"]), false))
        .collect();
    Run {
        graph: DependencyGraph::build(packages).unwrap(),
        changes,
        answers: vec![report(Compatibility::NotChecked)],
    }
}

#[test]
fn the_first_run_of_a_single_package_releases_its_version() {
    let run = first_run();
    let decisions = decide(&run.graph, &run.changes, &run.answers, &PLAIN).unwrap();
    assert_eq!(decisions.len(), 1);
    assert_eq!(decisions[0].next.to_text(), "0.1.0");
    assert_eq!(decisions[0].previous, None);
    let sections = sections(&run, &decisions);
    assert_eq!(sections.len(), 1);
    assert_eq!(sections[0].other, vec!["Initial commit", "cargo init"]);
    assert!(sections[0].text.contains("### Other\n\n- Initial commit\n- cargo init\n"));
    let made = plan(&run.graph, decisions, &sections, &default_config()).unwrap();
    assert_eq!(made.title, "chore: release v0.1.0");
    assert_eq!(
        made.body,
        "## 🤖 New release\n\n* `repo`: 0.1.0\n\
         \n<details><summary><i><b>Changelog</b></i></summary><p>\n\n\
         <blockquote>\n\n\
         ## [0.1.0](https://localhost/user/repo/releases/tag/v0.1.0) - 2024-05-01\n\n\
         ### Other\n\n- Initial commit\n- cargo init\n</blockquote>\n\n\
         \n</p></details>\n"
    );
    assert!(matches!(reconcile(&made, None, "release-1"), Reconciliation::Create { .. }));
}

#[test]
fn a_breaking_change_is_told_in_the_body_and_leaves_the_version_out_of_the_title() {
    let packages = vec![
        package("binary", "binary", Version::new(1, 0, 0), &["library"]),
        package("library", "library", Version::new(0, 1, 0), &[]),
    ];
    let graph = DependencyGraph::build(packages).unwrap();
    let changes = vec![
        ChangeEntry { changed: false, commits: Vec::new(), released: true },
        ChangeEntry { changed: true, commits: list(&["breaking change in library"]), released: true },
    ];
    let answers = vec![
        report(Compatibility::NotChecked),
        CompatibilityAnswer::Report(CompatibilityReport {
            status: Compatibility::Breaking,
            diagnostic: Some("function library::add removed".to_string()),
        }),
    ];
    let decisions = decide(&graph, &changes, &answers, &PLAIN).unwrap();
    let context = context_for(&graph, &decisions, &Vec::new());
    assert_eq!(context.count, 2);
    assert!(context.single.is_none());
    assert_eq!(
        context.releases,
        "* `library`: 0.1.0 -> 0.2.0 (⚠ API breaking changes)\n* `binary`: 1.0.0 -> 1.0.1\n"
    );
    assert_eq!(
        context.breaking_changes,
        "\n### ⚠ `library` breaking changes\n\n```text\nfunction library::add removed\n```\n"
    );
    assert_eq!(
        context.changelogs,
        "## `library`\n\n<blockquote>\n\n</blockquote>\n\n## `binary`\n\n<blockquote>\n\n</blockquote>\n\n"
    );
    let made = plan(&graph, decisions, &Vec::new(), &default_config()).unwrap();
    assert_eq!(made.title, "chore: release");
}

#[test]
fn templates_of_the_workspace_are_rendered() {
    let run = first_run();
    let decisions = decide(&run.graph, &run.changes, &run.answers, &PLAIN).unwrap();
    let sections = sections(&run, &decisions);
    let config = PlanConfig {
        pr_name: Some("release: {{ package }} {{ version }}".to_string()),
        pr_body: Some(
            "Package: {{package}} {{previous_version}} -> {{version}}\nChanges:\n{{changelog}}"
                .to_string(),
        ),
        pr_labels: list(&["bug", "enhancement"]),
    };
    let made = plan(&run.graph, decisions, &sections, &config).unwrap();
    assert_eq!(made.title, "release: repo 0.1.0");
    assert_eq!(
        made.body,
        format!("Package: repo 0.1.0 -> 0.1.0\nChanges:\n{}", sections[0].text)
    );
    assert_eq!(made.labels, vec!["bug", "enhancement"]);
    assert_eq!(made.decisions.len(), 1);
}

#[test]
fn a_template_for_one_package_fails_among_several() {
    let run = chain_with_change_in_library1();
    let decisions = decide(&run.graph, &run.changes, &run.answers, &PLAIN).unwrap();
    let config = PlanConfig {
        pr_name: Some("release: {{ package }} {{ version }}".to_string()),
        pr_body: None,
        pr_labels: Vec::new(),
    };
    let error = plan(&run.graph, decisions, &Vec::new(), &config).unwrap_err();
    assert!(matches!(
        error,
        PlanError::Title(TemplateError::UnavailableVariable { name }) if name == "package"
    ));
}

#[test]
fn a_fault_in_the_body_is_told_apart_from_one_in_the_title() {
    let run = first_run();
    let decisions = decide(&run.graph, &run.changes, &run.answers, &PLAIN).unwrap();
    let config = PlanConfig {
        pr_name: Some("fine".to_string()),
        pr_body: Some("{{ oops".to_string()),
        pr_labels: Vec::new(),
    };
    let error = plan(&run.graph, decisions, &Vec::new(), &config).unwrap_err();
    assert!(matches!(error, PlanError::Body(TemplateError::Unclosed)));
}

#[test]
fn labels_are_checked_before_anything_is_rendered() {
    let run = first_run();
    let decisions = decide(&run.graph, &run.changes, &run.answers, &PLAIN).unwrap();
    let config = PlanConfig {
        pr_name: Some("{{ oops".to_string()),
        pr_body: None,
        pr_labels: list(&["abc", "abc"]),
    };
    match plan(&run.graph, decisions, &Vec::new(), &config).unwrap_err() {
        PlanError::Label(error) => {
            assert_eq!(error.rule, LabelRule::Duplicate);
            assert_eq!(error.label, "abc");
        }
        other => panic!("{other:?}"),
    }
}

#[test]
fn planning_twice_gives_the_same_request() {
    let config = PlanConfig {
        pr_name: None,
        pr_body: None,
        pr_labels: list(&["bug", "enhancement"]),
    };
    let make = || {
        let run = chain_with_change_in_library1();
        let decisions = decide(&run.graph, &run.changes, &run.answers, &PLAIN).unwrap();
        let sections = sections(&run, &decisions);
        plan(&run.graph, decisions, &sections, &config).unwrap()
    };
    let first = make();
    let opened = match reconcile(&first, None, "release-1") {
        Reconciliation::Create { branch, title, body, labels } => {
            release_engine::request::OutgoingRequest {
                number: 1,
                branch,
                title,
                body,
                labels,
                open: true,
            }
        }
        other => panic!("{other:?}"),
    };
    let second = make();
    match reconcile(&second, Some(&opened), "release-2") {
        Reconciliation::Update { number, branch, title, body, labels } => {
            assert_eq!(number, 1);
            assert_eq!(branch, "release-1");
            assert_eq!(title, opened.title);
            assert_eq!(body.as_bytes(), opened.body.as_bytes());
            assert_eq!(labels, opened.labels);
        }
        other => panic!("{other:?}"),
    }
}

#[test]
fn a_run_with_a_lost_document_still_makes_a_plan() {
    let packages = vec![package("repo", "", Version::new(0, 1, 0), &[])];
    let documents =
        vec![ResolvedPath { path: "../../README.md".to_string(), target: None }];
    let touched = vec![regular("src/new.rs")];
    let changes: Vec<ChangeEntry> = packages
        .iter()
        .map(|p| detect(p, &documents, &touched, &list(&["feat: add new functionality"]), true))
        .collect();
    let graph = DependencyGraph::build(packages).unwrap();
    let answers = vec![report(Compatibility::NotChecked)];
    let decisions = decide(&graph, &changes, &answers, &PLAIN).unwrap();
    assert_eq!(decisions.len(), 1);
    let section = build(&graph, &decisions[0], &changes[0].commits, "", &context()).unwrap();
    assert_eq!(section.added, vec!["add new functionality"]);
    let made = plan(&graph, decisions, &vec![section], &default_config()).unwrap();
    assert_eq!(made.title, "chore: release v0.1.1");
    assert!(made.body.contains("add new functionality"));
}
