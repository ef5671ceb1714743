use release_engine::git::output::{
    all_tags, branches_of_commit, changed_files, changed_files_except_typechanges, commit_files,
    is_typechange, nth_line, remote_and_branch, tag_listed,
};

#[test]
fn changes_files_except_typechanges_are_detected() {
    let git_status_output = r"T CHANGELOG.md
M README.md
A  crates
D  crates/git_cmd/CHANGELOG.md
";
    let changed_files = changed_files(git_status_output, |line| !line.starts_with("T "));
    // `CHANGELOG.md` is ignored because it's a typechange
    let expected_changed_files = vec!["README.md", "crates", "crates/git_cmd/CHANGELOG.md"];
    assert_eq!(changed_files, expected_changed_files);
}

#[test]
fn typechanges_are_left_out_without_a_filter_of_the_caller() {
    let output = "T CHANGELOG.md\n M src/lib.rs\r\n?? new file.txt\n";
    assert_eq!(changed_files_except_typechanges(output), vec!["src/lib.rs", "file.txt"]);
}

#[test]
fn the_filter_sees_each_line_trimmed() {
    let mut seen = std::cell::RefCell::new(Vec::new());
    let files = changed_files("  M a.rs  \nT b.rs\n\n", |line| {
        seen.borrow_mut().push(line.to_string());
        true
    });
    assert_eq!(seen.get_mut().clone(), vec!["M a.rs", "T b.rs", ""]);
    assert_eq!(files, vec!["a.rs", "b.rs", ""]);
}

#[test]
fn a_filter_that_refuses_all_leaves_nothing() {
    assert_eq!(changed_files("M a\nM b\n", |_| false), Vec::<String>::new());
    assert_eq!(changed_files("", |_| true), Vec::<String>::new());
}

#[test]
fn typechange_lines_are_told_by_their_first_two_characters() {
    assert!(is_typechange("T file"));
    assert!(!is_typechange("TT file"));
    assert!(!is_typechange(" T file"));
    assert!(!is_typechange("T"));
}

#[test]
fn files_of_a_commit_are_the_trimmed_lines() {
    let files = commit_files("a.rs\n  b/c.rs \n\na.rs\n");
    let texts: Vec<&str> = files.iter().map(|f| f.as_str()).collect();
    assert_eq!(texts, vec!["a.rs", "b/c.rs", "", "a.rs"]);
    assert_eq!(files[1], camino::Utf8PathBuf::from("b/c.rs"));
    assert_eq!(files[1].file_name(), Some("c.rs"));
    assert!(commit_files("").is_empty());
}

#[test]
fn nth_line_counts_from_one() {
    let log = "d6ec399\ne880d87\n";
    assert_eq!(nth_line(log, 1), Some("d6ec399".to_string()));
    assert_eq!(nth_line(log, 2), Some("e880d87".to_string()));
    assert_eq!(nth_line(log, 3), None);
    assert_eq!(nth_line(log, 0), None);
    assert_eq!(nth_line("", 1), None);
}

#[test]
fn tags_are_the_lines_of_the_listing() {
    assert_eq!(all_tags(Some("v1.0.0\nv1.0.1\n")), vec!["v1.0.0", "v1.0.1"]);
    assert_eq!(all_tags(Some("  \n")), Vec::<String>::new());
    assert_eq!(all_tags(Some("")), Vec::<String>::new());
    assert_eq!(all_tags(None), Vec::<String>::new());
}

#[test]
fn a_tag_exists_where_the_listing_has_a_line() {
    assert!(tag_listed("v1.0.0"));
    assert!(tag_listed("v1.0.0\n"));
    assert!(tag_listed("\n"));
    assert!(!tag_listed(""));
}

#[test]
fn branches_are_the_last_words_of_the_lines() {
    assert_eq!(branches_of_commit("* main\n  feature/x\n\n  \n"), vec!["main", "feature/x"]);
    assert_eq!(branches_of_commit("main"), vec!["main"]);
}

#[test]
fn remote_and_branch_are_cut_at_the_first_slash() {
    assert_eq!(
        remote_and_branch("origin/feature/x"),
        Some(("origin".to_string(), "feature/x".to_string()))
    );
    assert_eq!(remote_and_branch("main"), None);
}
