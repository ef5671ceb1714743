use release_engine::decide::{
    Compatibility, CompatibilityAnswer, CompatibilityReport, DecideError, DecideOptions,
};
use release_engine::detect::ResolvedPath;
use release_engine::engine::{run, PackageState, RunError, Settings};
use release_engine::graph::Package;
use release_engine::plan::{PlanConfig, PlanError};
use release_engine::request::{OutgoingRequest, Reconciliation};
use release_engine::version::Version;

fn package(name: &str, version: Version, dependencies: &[&str]) -> Package {
    Package {
        name: name.to_string(),
        version,
        root: name.to_string(),
        included: Vec::new(),
        excluded: Vec::new(),
        dependencies: dependencies.iter().map(|d| d.to_string()).collect(),
        publish: true,
    }
}

fn state(touched: &[&str], commits: &[&str], changelog: &str) -> PackageState {
    PackageState {
        documents: Vec::new(),
        touched: touched
            .iter()
            .map(|p| ResolvedPath { path: p.to_string(), target: Some(p.to_string()) })
            .collect(),
        newest_first: commits.iter().map(|c| c.to_string()).collect(),
        released: true,
        changelog: changelog.to_string(),
        published: false,
    }
}

fn not_checked() -> CompatibilityAnswer {
    CompatibilityAnswer::Report(CompatibilityReport {
        status: Compatibility::NotChecked,
        diagnostic: None,
    })
}

fn settings(labels: &[&str]) -> Settings {
    Settings {
        options: DecideOptions { features_always_increment_minor: false },
        config: PlanConfig {
            pr_name: None,
            pr_body: None,
            pr_labels: labels.iter().map(|l| l.to_string()).collect(),
        },
        repository_url: "https://localhost/user/repo".to_string(),
        date: "2024-05-01".to_string(),
        new_branch: "release-2024-05-01".to_string(),
    }
}

fn chain() -> Vec<Package> {
    vec![
        package("binary", Version::new(0, 1, 0), &["library2"]),
        package("library2", Version::new(0, 1, 0), &["library1"]),
        package("library1", Version::new(0, 1, 0), &[]),
    ]
}

fn chain_states(changelog_of_library1: &str) -> Vec<PackageState> {
    let touched = ["library1/src/aa.rs"];
    vec![
        state(&touched, &[], ""),
        state(&touched, &[], ""),
        state(&touched, &["edit library"], changelog_of_library1),
    ]
}

#[test]
fn a_run_releases_the_chain_and_opens_the_request() {
    let answers = vec![not_checked(), not_checked(), not_checked()];
    let outcome =
        run(chain(), &chain_states(""), &answers, &settings(&["bug"]), None).unwrap();
    assert_eq!(outcome.graph.topological_order(), vec![2, 1, 0]);
    let released: Vec<(usize, String)> =
        outcome.plan.decisions.iter().map(|d| (d.package, d.next.to_text())).collect();
    assert_eq!(
        released,
        vec![(2, "0.1.1".to_string()), (1, "0.1.1".to_string()), (0, "0.1.1".to_string())]
    );
    assert_eq!(outcome.sections.len(), 3);
    assert_eq!(outcome.sections[0].other, vec!["edit library"]);
    assert_eq!(
        outcome.sections[2].other,
        vec!["updated the following local packages: library2"]
    );
    assert_eq!(outcome.plan.title, "chore: release v0.1.1");
    match outcome.action {
        Reconciliation::Create { branch, title, body, labels } => {
            assert_eq!(branch, "release-2024-05-01");
            assert_eq!(title, outcome.plan.title);
            assert_eq!(body, outcome.plan.body);
            assert_eq!(labels, vec!["bug"]);
        }
        other => panic!("{other:?}"),
    }
}

#[test]
fn a_second_run_updates_the_request_to_what_it_is() {
    let answers = vec![not_checked(), not_checked(), not_checked()];
    let first = run(chain(), &chain_states(""), &answers, &settings(&["bug"]), None).unwrap();
    let opened = match first.action {
        Reconciliation::Create { branch, title, body, labels } => {
            OutgoingRequest { number: 12, branch, title, body, labels, open: true }
        }
        other => panic!("{other:?}"),
    };
    let second =
        run(chain(), &chain_states(""), &answers, &settings(&["needs-testing"]), Some(&opened))
            .unwrap();
    match second.action {
        Reconciliation::Update { number, branch, title, body, labels } => {
            assert_eq!(number, 12);
            assert_eq!(branch, opened.branch);
            assert_eq!(title, opened.title);
            assert_eq!(body.as_bytes(), opened.body.as_bytes());
            assert_eq!(labels, vec!["bug", "needs-testing"]);
        }
        other => panic!("{other:?}"),
    }
}

#[test]
fn a_version_that_is_recorded_gets_no_section_in_a_run() {
    let answers = vec![not_checked(), not_checked(), not_checked()];
    let recorded = "# Changelog\n\n## [0.1.1](x) - 2024-04-01\n";
    let outcome =
        run(chain(), &chain_states(recorded), &answers, &settings(&[]), None).unwrap();
    assert_eq!(outcome.plan.decisions.len(), 3);
    let packages: Vec<usize> = outcome.sections.iter().map(|s| s.package).collect();
    assert_eq!(packages, vec![1, 0]);
}

#[test]
fn a_workspace_without_changes_is_left_alone() {
    let states = vec![state(&["README.md"], &[], ""), state(&[], &[], ""), state(&[], &[], "")];
    let answers = vec![not_checked(), not_checked(), not_checked()];
    let existing = OutgoingRequest {
        number: 3,
        branch: "b".to_string(),
        title: "t".to_string(),
        body: "b".to_string(),
        labels: Vec::new(),
        open: true,
    };
    let outcome = run(chain(), &states, &answers, &settings(&[]), Some(&existing)).unwrap();
    assert!(outcome.plan.decisions.is_empty());
    assert!(outcome.sections.is_empty());
    assert!(matches!(outcome.action, Reconciliation::NoOp));
}

#[test]
fn a_run_fails_at_its_first_fault() {
    let answers = vec![not_checked(), not_checked(), not_checked()];
    let cyclic = vec![
        package("a", Version::new(0, 1, 0), &["b"]),
        package("b", Version::new(0, 1, 0), &["a"]),
    ];
    assert!(matches!(
        run(cyclic, &Vec::new(), &answers, &settings(&[""]), None),
        Err(RunError::Cycle(error)) if error.package == 0
    ));
    assert!(matches!(
        run(chain(), &chain_states(""), &vec![not_checked()], &settings(&[""]), None),
        Err(RunError::Incomplete)
    ));
    let mut full = chain();
    full[2].version = Version::new(0, 1, u64::MAX);
    assert!(matches!(
        run(full, &chain_states(""), &answers, &settings(&[""]), None),
        Err(RunError::Decide(DecideError::VersionOverflow { package: 2 }))
    ));
    assert!(matches!(
        run(chain(), &chain_states(""), &answers, &settings(&[""]), None),
        Err(RunError::Plan(PlanError::Label(_)))
    ));
}

#[test]
fn the_words_of_a_failure_name_what_is_at_fault() {
    let names: Vec<String> = vec!["binary".into(), "library2".into(), "library1".into()];
    let answers = vec![not_checked(), not_checked(), not_checked()];
    let cyclic = vec![
        package("a", Version::new(0, 1, 0), &[]),
        package("b", Version::new(0, 1, 0), &["b"]),
    ];
    let error = run(cyclic, &Vec::new(), &answers, &settings(&[]), None).unwrap_err();
    assert_eq!(
        error.message(&vec!["a".to_string(), "b".to_string()]),
        "the dependencies of package `b` run in a cycle"
    );
    let error =
        run(chain(), &chain_states(""), &Vec::new(), &settings(&[]), None).unwrap_err();
    assert_eq!(
        error.message(&names),
        "not every package has its state and its compatibility answer"
    );
    let mut full = chain();
    full[2].version = Version::new(0, 1, u64::MAX);
    let error = run(full, &chain_states(""), &answers, &settings(&[]), None).unwrap_err();
    assert_eq!(error.message(&names), "the version of package `library1` cannot be raised");
    assert_eq!(error.message(&Vec::new()), "the version of package `` cannot be raised");
    let error =
        run(chain(), &chain_states(""), &answers, &settings(&["abc", "abc"]), None).unwrap_err();
    assert_eq!(
        error.message(&names),
        "Failed to add label `abc`: duplicate labels are not allowed"
    );
    let mut custom = settings(&[]);
    custom.config.pr_name = Some("release: {{ package }} {{ version }}".to_string());
    let error = run(chain(), &chain_states(""), &answers, &custom, None).unwrap_err();
    assert_eq!(
        error.message(&names),
        "failed to render pr_name: the `package` variable is not available"
    );
    let mut custom = settings(&[]);
    custom.config.pr_body = Some("{{ releases }} {{ nothing }} {{".to_string());
    let error = run(chain(), &chain_states(""), &answers, &custom, None).unwrap_err();
    assert_eq!(
        error.message(&names),
        "failed to render pr_body: the `nothing` variable does not exist"
    );
    let mut custom = settings(&[]);
    custom.config.pr_body = Some("{{ releases }} {{".to_string());
    let error = run(chain(), &chain_states(""), &answers, &custom, None).unwrap_err();
    assert_eq!(error.message(&names), "failed to render pr_body: a `{{` is not closed by `}}`");
}
