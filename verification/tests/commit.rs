use release_engine::commit::{any_feature, classify, CommitKind};

fn kind_and_summary(subject: &str) -> (CommitKind, String) {
    classify(subject)
}

#[test]
fn features_and_fixes_are_told_by_their_type() {
    assert_eq!(kind_and_summary("feat: move readme"), (CommitKind::Feature, "move readme".into()));
    assert_eq!(kind_and_summary("fix: a bug"), (CommitKind::Fix, "a bug".into()));
    assert_eq!(kind_and_summary("chore: release"), (CommitKind::Other, "release".into()));
}

#[test]
fn scope_and_breaking_mark_do_not_change_the_type() {
    assert_eq!(kind_and_summary("feat(api): add x"), (CommitKind::Feature, "add x".into()));
    assert_eq!(kind_and_summary("fix!: drop y"), (CommitKind::Fix, "drop y".into()));
    assert_eq!(kind_and_summary("feat(core)!:  z "), (CommitKind::Feature, "z".into()));
}

#[test]
fn other_subjects_are_kept_whole() {
    assert_eq!(kind_and_summary("edit library"), (CommitKind::Other, "edit library".into()));
    assert_eq!(kind_and_summary(" Initial commit "), (CommitKind::Other, "Initial commit".into()));
    assert_eq!(
        kind_and_summary("updated the following local packages: library1"),
        (CommitKind::Other, "updated the following local packages: library1".into())
    );
    assert_eq!(kind_and_summary(": x"), (CommitKind::Other, ": x".into()));
    assert_eq!(kind_and_summary("feat x"), (CommitKind::Other, "feat x".into()));
    assert_eq!(kind_and_summary("feature: x"), (CommitKind::Other, "x".into()));
    assert_eq!(kind_and_summary(""), (CommitKind::Other, "".into()));
}

#[test]
fn a_feature_among_the_subjects_is_found() {
    let with: Vec<String> = vec!["fix: a".into(), "feat: b".into(), "c".into()];
    let without: Vec<String> = vec!["fix: a".into(), "feature flag".into()];
    assert!(any_feature(&with));
    assert!(!any_feature(&without));
    assert!(!any_feature(&Vec::new()));
}
