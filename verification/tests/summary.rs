use release_engine::decide::{Compatibility, ReleaseDecision};
use release_engine::graph::{DependencyGraph, Package};
use release_engine::summary::releases;
use release_engine::version::{Version, VersionBump};

fn package(name: &str) -> Package {
    Package {
        name: name.to_string(),
        version: Version::new(0, 1, 0),
        root: name.to_string(),
        included: Vec::new(),
        excluded: Vec::new(),
        dependencies: Vec::new(),
        publish: true,
    }
}

fn decision(package: usize, next: Version) -> ReleaseDecision {
    ReleaseDecision {
        package,
        previous: None,
        next,
        bump: VersionBump::Patch,
        compatibility: Compatibility::NotChecked,
        diagnostic: None,
        warning: None,
        updated_dependencies: Vec::new(),
    }
}

fn entries(list: Vec<release_engine::summary::ReleaseInfo>) -> Vec<(String, String, String)> {
    list.into_iter().map(|r| (r.package_name, r.version, r.tag)).collect()
}

#[test]
fn a_single_package_is_tagged_by_its_version() {
    let graph = DependencyGraph::build(vec![package("repo")]).unwrap();
    assert_eq!(
        entries(releases(&graph, &vec![decision(0, Version::new(0, 2, 0))])),
        vec![("repo".to_string(), "0.2.0".to_string(), "v0.2.0".to_string())]
    );
}

#[test]
fn packages_of_a_workspace_are_tagged_by_name_and_version() {
    let graph = DependencyGraph::build(vec![package("one"), package("two")]).unwrap();
    let decisions = vec![decision(1, Version::new(1, 0, 0)), decision(0, Version::new(0, 1, 1))];
    assert_eq!(
        entries(releases(&graph, &decisions)),
        vec![
            ("two".to_string(), "1.0.0".to_string(), "two-v1.0.0".to_string()),
            ("one".to_string(), "0.1.1".to_string(), "one-v0.1.1".to_string()),
        ]
    );
    assert!(releases(&graph, &Vec::new()).is_empty());
}
