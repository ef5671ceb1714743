use release_engine::git::command::{
    check_committed, check_ignore, trimmed_arguments, CommitField, GitCommand,
};

fn s(text: &str) -> String {
    text.to_string()
}

#[test]
fn questions_about_the_branch() {
    assert_eq!(
        GitCommand::Upstream.to_arguments(),
        vec!["rev-parse", "--abbrev-ref", "--symbolic-full-name", "@{upstream}"]
    );
    assert_eq!(
        GitCommand::CurrentBranch.to_arguments(),
        vec!["rev-parse", "--abbrev-ref", "HEAD"]
    );
}

#[test]
fn commands_without_parameters() {
    assert_eq!(GitCommand::Status.to_arguments(), vec!["status", "--porcelain"]);
    assert_eq!(GitCommand::AddAll.to_arguments(), vec!["add", "."]);
    assert_eq!(GitCommand::StashPop.to_arguments(), vec!["stash", "pop"]);
    assert_eq!(
        GitCommand::CommitFiles.to_arguments(),
        vec!["show", "--oneline", "--name-only", "--pretty=format:"]
    );
    assert_eq!(
        GitCommand::CommitMessage.to_arguments(),
        vec!["log", "-1", "--pretty=format:%B"]
    );
    assert_eq!(GitCommand::CommitHash.to_arguments(), vec!["log", "-1", "--pretty=format:%H"]);
    assert_eq!(GitCommand::ListTags.to_arguments(), vec!["tag", "--list"]);
}

#[test]
fn checkout_and_commit() {
    assert_eq!(
        GitCommand::CheckoutNewBranch { branch: s("release") }.to_arguments(),
        vec!["checkout", "-b", "release"]
    );
    assert_eq!(GitCommand::Checkout { object: s("main") }.to_arguments(), vec!["checkout", "main"]);
    assert_eq!(
        GitCommand::Add { paths: vec![s("a.rs"), s("b c.rs")] }.to_arguments(),
        vec!["add", "a.rs", "b c.rs"]
    );
    assert_eq!(GitCommand::Add { paths: vec![] }.to_arguments(), vec!["add"]);
    assert_eq!(
        GitCommand::Commit { message: s("feat: x") }.to_arguments(),
        vec!["commit", "-m", "feat: x"]
    );
    assert_eq!(
        GitCommand::CommitSigned { message: s("fix: y") }.to_arguments(),
        vec!["commit", "-s", "-m", "fix: y"]
    );
}

#[test]
fn talking_to_the_remote() {
    assert_eq!(
        GitCommand::Push { remote: s("origin"), object: s("main") }.to_arguments(),
        vec!["push", "origin", "main"]
    );
    assert_eq!(
        GitCommand::ForcePush { remote: s("origin"), object: s("main") }.to_arguments(),
        vec!["push", "origin", "main", "--force-with-lease"]
    );
    assert_eq!(
        GitCommand::DeleteRemoteBranch { remote: s("up"), branch: s("tmp") }.to_arguments(),
        vec!["push", "up", ":refs/heads/tmp"]
    );
    assert_eq!(
        GitCommand::Fetch { remote: s("origin"), object: s("v1") }.to_arguments(),
        vec!["fetch", "origin", "v1"]
    );
    assert_eq!(
        GitCommand::RemoteUrl { remote: s("origin") }.to_arguments(),
        vec!["config", "--get", "remote.origin.url"]
    );
}

#[test]
fn worktrees() {
    assert_eq!(
        GitCommand::AddWorktree { path: s("/tmp/w"), object: s("abc") }.to_arguments(),
        vec!["worktree", "add", "--detach", "/tmp/w", "abc"]
    );
    assert_eq!(
        GitCommand::RemoveWorktree { path: s("/tmp/w") }.to_arguments(),
        vec!["worktree", "remove", "/tmp/w"]
    );
}

#[test]
fn log_of_hashes_names_the_count_in_decimal() {
    assert_eq!(
        GitCommand::LogHashes { count: 2, paths: vec![s("a"), s("b")] }.to_arguments(),
        vec!["log", "--format=%H", "-n", "2", "--", "a", "b"]
    );
    assert_eq!(
        GitCommand::LogHashes { count: 120, paths: vec![] }.to_arguments(),
        vec!["log", "--format=%H", "-n", "120", "--"]
    );
}

#[test]
fn details_of_a_commit() {
    let expected = [
        (CommitField::AuthorName, "--pretty=format:%an"),
        (CommitField::AuthorEmail, "--pretty=format:%ae"),
        (CommitField::CommitterName, "--pretty=format:%cn"),
        (CommitField::CommitterEmail, "--pretty=format:%ce"),
    ];
    for (field, format) in expected {
        assert_eq!(
            GitCommand::CommitInfo { field, commit: s("abc") }.to_arguments(),
            vec!["log", "-1", format, "abc"]
        );
    }
}

#[test]
fn tags_and_ancestry() {
    assert_eq!(
        GitCommand::Tag { name: s("v1.0.0"), message: s("test") }.to_arguments(),
        vec!["tag", "-m", "test", "v1.0.0"]
    );
    assert_eq!(
        GitCommand::TagCommit { tag: s("v1") }.to_arguments(),
        vec!["rev-list", "-n", "1", "v1"]
    );
    assert_eq!(GitCommand::FindTag { tag: s("v1") }.to_arguments(), vec!["tag", "-l", "v1"]);
    assert_eq!(
        GitCommand::IsAncestor { ancestor: s("a"), descendant: s("b") }.to_arguments(),
        vec!["merge-base", "--is-ancestor", "a", "b"]
    );
    assert_eq!(
        GitCommand::BranchesOfCommit { commit: s("abc") }.to_arguments(),
        vec!["branch", "--contains", "abc"]
    );
}

#[test]
fn questions_about_a_file() {
    assert_eq!(
        GitCommand::CheckIgnore { file: s("target") }.to_arguments(),
        vec!["check-ignore", "--no-index", "target"]
    );
    assert_eq!(
        GitCommand::CheckCommitted { file: s("Cargo.lock") }.to_arguments(),
        vec!["ls-files", "--error-unmatch", "Cargo.lock"]
    );
}

#[test]
fn questions_about_a_path() {
    let file = camino::Utf8PathBuf::from("crates/a b/Cargo.toml");
    assert_eq!(
        check_ignore(&file).to_arguments(),
        vec!["check-ignore", "--no-index", "crates/a b/Cargo.toml"]
    );
    assert_eq!(
        check_committed(&file).to_arguments(),
        vec!["ls-files", "--error-unmatch", "crates/a b/Cargo.toml"]
    );
}

#[test]
fn some_commands_have_words_for_their_failure() {
    assert_eq!(
        GitCommand::Checkout { object: s("x") }.context(),
        Some(s("failed to checkout"))
    );
    assert_eq!(
        GitCommand::AddWorktree { path: s("p"), object: s("o") }.context(),
        Some(s("failed to create git worktree"))
    );
    assert_eq!(
        GitCommand::RemoveWorktree { path: s("p") }.context(),
        Some(s("failed to remove worktree"))
    );
    assert_eq!(
        GitCommand::DeleteRemoteBranch { remote: s("origin"), branch: s("tmp") }.context(),
        Some(s("can't delete temporary branch tmp"))
    );
    assert_eq!(
        GitCommand::LogHashes { count: 1, paths: vec![] }.context(),
        Some(s("failed to get message of last commit"))
    );
    assert_eq!(
        GitCommand::LogHashes { count: 2, paths: vec![] }.context(),
        Some(s("failed to get message of previous commit"))
    );
    assert_eq!(GitCommand::LogHashes { count: 3, paths: vec![] }.context(), None);
    assert_eq!(
        GitCommand::CommitHash.context(),
        Some(s("can't determine current commit hash"))
    );
    assert_eq!(
        GitCommand::FindTag { tag: s("v1") }.context(),
        Some(s("cannot determine if git tag exists"))
    );
    assert_eq!(GitCommand::Status.context(), None);
    assert_eq!(GitCommand::Push { remote: s("o"), object: s("m") }.context(), None);
}

#[test]
fn arguments_are_trimmed() {
    assert_eq!(
        trimmed_arguments(&vec![s(" log "), s("-1"), s("\tx y\n")]),
        vec!["log", "-1", "x y"]
    );
    assert_eq!(trimmed_arguments(&vec![]), Vec::<String>::new());
}
