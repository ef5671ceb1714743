use release_engine::git::outcome::{
    check_clean, default_remote, no_commit_message, read_current_branch, read_outcome,
    read_stream, read_upstream, run_failure_message, start_failure_message, CurrentBranch,
    GitError, Upstream,
};

fn dir(path: &str) -> camino::Utf8PathBuf {
    camino::Utf8PathBuf::from(path)
}

fn args(list: &[&str]) -> Vec<String> {
    list.iter().map(|a| a.to_string()).collect()
}

#[test]
fn a_stream_is_decoded_and_trimmed() {
    assert_eq!(read_stream(b"  file2-1\n".to_vec()), Some("file2-1".to_string()));
    assert_eq!(read_stream("añ🤖\n".as_bytes().to_vec()), Some("añ🤖".to_string()));
    assert_eq!(read_stream(Vec::new()), Some(String::new()));
    assert_eq!(read_stream(vec![0xff, 0xfe]), None);
}

#[test]
fn a_run_that_succeeded_gives_its_output() {
    let outcome = read_outcome(&dir("/repo"), &args(&["log"]), true, b"abc\n".to_vec(), vec![0xff]);
    assert!(matches!(outcome, Ok(text) if text == "abc"));
}

#[test]
fn output_that_is_no_text_is_an_error() {
    let outcome = read_outcome(&dir("/repo"), &args(&["log"]), true, vec![0xc3], Vec::new());
    assert!(matches!(outcome, Err(GitError::NotUtf8)));
    let outcome = read_outcome(&dir("/repo"), &args(&["log"]), false, Vec::new(), vec![0xc3]);
    assert!(matches!(outcome, Err(GitError::NotUtf8)));
}

#[test]
fn a_run_that_failed_gives_the_words_of_its_failure() {
    let outcome = read_outcome(
        &dir("/repo"),
        &args(&["tag", "-l", "v1"]),
        false,
        b"out\n".to_vec(),
        b"fatal: bad\n".to_vec(),
    );
    let expected = "error while running git in directory `\"/repo\"` with args `[\"tag\", \"-l\", \"v1\"]:\n- stdout: out\n- stderr: fatal: bad";
    assert!(matches!(outcome, Err(GitError::Failed { message }) if message == expected));
}

#[test]
fn the_words_of_a_failure_leave_out_what_is_empty() {
    let list = args(&["a b", "c\"d"]);
    let head = format!("error while running git in directory `{:?}` with args `{:?}", "my dir", list);
    assert_eq!(run_failure_message(&dir("my dir"), &list, "", ""), head);
    assert_eq!(run_failure_message(&dir("my dir"), &list, "o", ""), format!("{head}:\n- stdout: o"));
    assert_eq!(run_failure_message(&dir("my dir"), &list, "", "e"), format!("{head}:\n- stderr: e"));
    assert_eq!(
        run_failure_message(&dir("my dir"), &list, "o", "e"),
        format!("{head}:\n- stdout: o\n- stderr: e")
    );
}

#[test]
fn the_words_for_a_run_that_did_not_start() {
    assert_eq!(
        start_failure_message(&dir("/r"), &args(&["status"])),
        "error while running git in directory `\"/r\"` with args `[\"status\"]`"
    );
}

#[test]
fn the_upstream_is_read_from_the_answer() {
    assert!(matches!(
        read_upstream(Ok("origin/main")),
        Upstream::Tracking { remote, branch } if remote == "origin" && branch == "main"
    ));
    assert!(matches!(read_upstream(Ok("main")), Upstream::Unreadable));
    assert!(matches!(
        read_upstream(Err("x\n- stderr: fatal: no upstream configured for branch 'main'")),
        Upstream::Untracked
    ));
    assert!(matches!(
        read_upstream(Err(
            "fatal: ambiguous argument 'HEAD': unknown revision or path not in the working tree."
        )),
        Upstream::NoCommits
    ));
    assert!(matches!(read_upstream(Err("fatal: not a git repository")), Upstream::Failed));
}

#[test]
fn the_current_branch_is_read_from_the_answer() {
    assert!(matches!(
        read_current_branch(Ok("main")),
        CurrentBranch::Named { branch } if branch == "main"
    ));
    assert!(matches!(
        read_current_branch(Err(
            "e: fatal: ambiguous argument 'HEAD': unknown revision or path not in the working tree. x"
        )),
        CurrentBranch::NoCommits
    ));
    assert!(matches!(read_current_branch(Err("other")), CurrentBranch::Failed));
}

#[test]
fn fixed_words() {
    assert_eq!(default_remote(), "origin");
    assert_eq!(no_commit_message(), "git repository does not contain any commit.");
}

#[test]
fn a_directory_without_changes_is_clean() {
    assert_eq!(check_clean(&Vec::new()), Ok(()));
}

#[test]
fn a_directory_with_changes_is_not_clean() {
    let changes = args(&["README.md", "src/a b.rs"]);
    let expected = format!(
        "the working directory of this project has uncommitted changes. If these files are both committed and in .gitignore, either delete them or remove them from .gitignore. Otherwise, please commit or stash these changes:\n{changes:?}"
    );
    assert_eq!(check_clean(&changes), Err(expected));
}
