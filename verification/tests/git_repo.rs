use camino::Utf8PathBuf;
use release_engine::git::repo::{Opening, Repo};

fn repo() -> Repo {
    Repo::at(Utf8PathBuf::from("/work/repo"), "upstream".to_string(), "main".to_string())
}

#[test]
fn a_repository_remembers_where_it_stood() {
    let repo = repo();
    assert_eq!(repo.directory().as_str(), "/work/repo");
    assert_eq!(repo.original_branch(), "main");
    assert_eq!(repo.original_remote(), "upstream");
}

#[test]
fn the_upstream_tells_the_remote_and_the_branch() {
    match Repo::open(Utf8PathBuf::from("/r"), Ok("origin/feature/x")) {
        Opening::Ready(repo) => {
            assert_eq!(repo.directory(), &Utf8PathBuf::from("/r"));
            assert_eq!(repo.original_remote(), "origin");
            assert_eq!(repo.original_branch(), "feature/x");
        }
        other => panic!("{other:?}"),
    }
    assert!(matches!(Repo::open(Utf8PathBuf::from("/r"), Ok("main")), Opening::Unreadable));
}

#[test]
fn a_failed_question_tells_what_to_do_next() {
    let dir = || Utf8PathBuf::from("/r");
    assert!(matches!(
        Repo::open(dir(), Err("fatal: no upstream configured for branch 'x'")),
        Opening::AskCurrentBranch
    ));
    assert!(matches!(
        Repo::open(
            dir(),
            Err("fatal: ambiguous argument 'HEAD': unknown revision or path not in the working tree.")
        ),
        Opening::NoCommits
    ));
    assert!(matches!(Repo::open(dir(), Err("fatal: not a git repository")), Opening::Failed));
}

#[test]
fn a_branch_without_upstream_is_pushed_to_origin() {
    let repo = Repo::untracked(Utf8PathBuf::from("/r"), Ok("topic")).unwrap();
    assert_eq!(repo.original_remote(), "origin");
    assert_eq!(repo.original_branch(), "topic");
    assert!(Repo::untracked(Utf8PathBuf::from("/r"), Err("fatal")).is_none());
}

#[test]
fn orders_to_the_remote_name_the_remote_of_the_repository() {
    let repo = repo();
    assert_eq!(repo.push_command("main").to_arguments(), vec!["push", "upstream", "main"]);
    assert_eq!(repo.fetch_command("v1").to_arguments(), vec!["fetch", "upstream", "v1"]);
    assert_eq!(
        repo.force_push_command("main").to_arguments(),
        vec!["push", "upstream", "main", "--force-with-lease"]
    );
    assert_eq!(
        repo.delete_branch_command("tmp").to_arguments(),
        vec!["push", "upstream", ":refs/heads/tmp"]
    );
    assert_eq!(
        repo.delete_branch_command("tmp").context(),
        Some("can't delete temporary branch tmp".to_string())
    );
    assert_eq!(
        repo.remote_url_command().to_arguments(),
        vec!["config", "--get", "remote.upstream.url"]
    );
    assert_eq!(repo.checkout_head_command().to_arguments(), vec!["checkout", "main"]);
    assert_eq!(repo.checkout_head_command().context(), Some("failed to checkout".to_string()));
}
