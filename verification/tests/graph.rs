use release_engine::graph::{DependencyGraph, Package};
use release_engine::version::Version;

fn package(name: &str, dependencies: &[&str]) -> Package {
    Package {
        name: name.to_string(),
        version: Version::new(0, 1, 0),
        root: name.to_string(),
        included: Vec::new(),
        excluded: Vec::new(),
        dependencies: dependencies.iter().map(|d| d.to_string()).collect(),
        publish: true,
    }
}

fn names(graph: &DependencyGraph, handles: &[usize]) -> Vec<String> {
    handles.iter().map(|h| graph.package(*h).unwrap().name.clone()).collect()
}

#[test]
fn dependencies_come_before_dependents() {
    let graph = DependencyGraph::build(vec![
        package("binary", &["library2"]),
        package("library2", &["library1"]),
        package("library1", &[]),
    ])
    .unwrap();
    assert_eq!(graph.len(), 3);
    assert_eq!(graph.topological_order(), vec![2, 1, 0]);
    assert_eq!(names(&graph, &graph.topological_order()), vec!["library1", "library2", "binary"]);
}

#[test]
fn ties_are_broken_by_name() {
    let graph = DependencyGraph::build(vec![
        package("two", &[]),
        package("one", &[]),
        package("three", &["two"]),
        package("alpha", &["three"]),
    ])
    .unwrap();
    assert_eq!(names(&graph, &graph.topological_order()), vec!["one", "two", "three", "alpha"]);
}

#[test]
fn equal_names_are_ordered_by_handle() {
    let graph = DependencyGraph::build(vec![package("a", &[]), package("a", &[])]).unwrap();
    assert_eq!(graph.topological_order(), vec![0, 1]);
    assert_eq!(graph.handle_of("a"), Some(0));
}

#[test]
fn an_empty_workspace_has_an_empty_order() {
    let graph = DependencyGraph::build(Vec::new()).unwrap();
    assert_eq!(graph.len(), 0);
    assert_eq!(graph.topological_order(), Vec::<usize>::new());
    assert!(graph.package(0).is_none());
}

#[test]
fn a_cycle_is_an_error() {
    let error = DependencyGraph::build(vec![
        package("free", &[]),
        package("a", &["b"]),
        package("b", &["c"]),
        package("c", &["a"]),
        package("user", &["a", "free"]),
    ])
    .unwrap_err();
    assert_eq!(error.package, 1);
}

#[test]
fn a_package_that_depends_on_itself_is_a_cycle() {
    let error = DependencyGraph::build(vec![package("a", &[]), package("b", &["b"])]).unwrap_err();
    assert_eq!(error.package, 1);
}

#[test]
fn names_of_no_package_are_passed_over() {
    let graph = DependencyGraph::build(vec![
        package("app", &["serde", "lib", "lib", "tokio"]),
        package("lib", &["serde"]),
    ])
    .unwrap();
    assert_eq!(graph.dependencies_of(0), vec![1]);
    assert_eq!(graph.dependencies_of(1), Vec::<usize>::new());
    assert_eq!(graph.dependencies_of(7), Vec::<usize>::new());
    assert_eq!(graph.topological_order(), vec![1, 0]);
}

#[test]
fn dependents_are_direct_or_transitive() {
    let graph = DependencyGraph::build(vec![
        package("binary", &["library3"]),
        package("library3", &["library2"]),
        package("library2", &["library1"]),
        package("library1", &[]),
        package("library4", &[]),
    ])
    .unwrap();
    assert_eq!(graph.dependents_of(3, false), vec![2]);
    assert_eq!(graph.dependents_of(3, true), vec![0, 1, 2]);
    assert_eq!(graph.dependents_of(1, true), vec![0]);
    assert_eq!(graph.dependents_of(0, true), Vec::<usize>::new());
    assert_eq!(graph.dependents_of(4, true), Vec::<usize>::new());
    assert_eq!(graph.dependents_of(9, true), Vec::<usize>::new());
}

#[test]
fn dependents_through_two_ways_are_listed_once() {
    let graph = DependencyGraph::build(vec![
        package("top", &["left", "right"]),
        package("left", &["base"]),
        package("right", &["base"]),
        package("base", &[]),
    ])
    .unwrap();
    assert_eq!(graph.dependents_of(3, true), vec![0, 1, 2]);
    assert_eq!(graph.dependents_of(3, false), vec![1, 2]);
    assert_eq!(names(&graph, &graph.topological_order()), vec!["base", "left", "right", "top"]);
}

#[test]
fn packages_are_found_by_name() {
    let graph = DependencyGraph::build(vec![package("a", &[]), package("b", &[])]).unwrap();
    assert_eq!(graph.handle_of("b"), Some(1));
    assert_eq!(graph.handle_of("c"), None);
    assert_eq!(graph.package(1).unwrap().name, "b");
}
