//! A repository: where it lies, and which branch of which remote it stood
//! on when work began.

use crate::git::command::GitCommand;
use crate::git::outcome::{
    default_remote, no_commit_mark, no_upstream_mark, read_current_branch, read_upstream,
    CurrentBranch, Upstream,
};
use crate::git::path::path_text;
use crate::text::{contains, split_once};
use camino::Utf8PathBuf;
use vstd::prelude::*;

verus! {

/// Repository
#[derive(Debug)]
pub struct Repo {
    /// Directory where you want to run git operations
    directory: Utf8PathBuf,
    /// Branch name before running any git operation
    original_branch: String,
    /// Remote name before running any git operation
    original_remote: String,
}

/// What a repository holds, as plain values.
pub struct RepoView {
    pub directory: Seq<char>,
    pub original_branch: Seq<char>,
    pub original_remote: Seq<char>,
}

impl View for Repo {
    type V = RepoView;

    closed spec fn view(&self) -> RepoView {
        RepoView {
            directory: path_text(self.directory),
            original_branch: self.original_branch@,
            original_remote: self.original_remote@,
        }
    }
}

/// What has to be done next to learn where a repository stands.
#[derive(Debug)]
pub enum Opening {
    /// All is known.
    Ready(Repo),
    /// The current branch follows no branch of a remote: its name has to
    /// be asked for, and goes to `Repo::untracked`.
    AskCurrentBranch,
    /// The repository holds no commit.
    NoCommits,
    /// Git answered the question for the upstream branch, but not with a
    /// remote and a branch.
    Unreadable,
    /// The question failed for another reason, which is passed on.
    Failed,
}

impl Repo {
    /// The repository in `directory` that stood on `branch` of `remote`.
    pub fn at(directory: Utf8PathBuf, remote: String, branch: String) -> (repo: Repo)
        ensures
            repo@ == (RepoView {
                directory: path_text(directory),
                original_branch: branch@,
                original_remote: remote@,
            }),
    {
        Repo { directory, original_branch: branch, original_remote: remote }
    }

    /// What the answer to the question for the upstream branch tells of
    /// the repository in `directory`: the answer gives the remote and the
    /// branch, cut at its first slash, or the failure tells what to do
    /// next.
    pub fn open(directory: Utf8PathBuf, upstream: Result<&str, &str>) -> (next: Opening)
        ensures
            match upstream {
                Ok(output) => match split_once(output@, '/') {
                    Some((remote, branch)) => next matches Opening::Ready(repo) && repo@ == (
                    RepoView {
                        directory: path_text(directory),
                        original_branch: branch,
                        original_remote: remote,
                    }),
                    None => next is Unreadable,
                },
                Err(error) => if contains(error@, no_upstream_mark()) {
                    next is AskCurrentBranch
                } else if contains(error@, no_commit_mark()) {
                    next is NoCommits
                } else {
                    next is Failed
                },
            },
    {
        match read_upstream(upstream) {
            Upstream::Tracking { remote, branch } => Opening::Ready(
                Repo::at(directory, remote, branch),
            ),
            Upstream::Unreadable => Opening::Unreadable,
            Upstream::Untracked => Opening::AskCurrentBranch,
            Upstream::NoCommits => Opening::NoCommits,
            Upstream::Failed => Opening::Failed,
        }
    }

    /// The repository in `directory` whose current branch follows no
    /// branch of a remote, from the answer to the question for the name of
    /// that branch: it stands on that branch of the remote `origin`.
    /// `None` where the question failed.
    pub fn untracked(directory: Utf8PathBuf, current: Result<&str, &str>) -> (repo: Option<Repo>)
        ensures
            match current {
                Ok(output) => repo matches Some(made) && made@ == (RepoView {
                    directory: path_text(directory),
                    original_branch: output@,
                    original_remote: "origin"@,
                }),
                Err(_) => repo is None,
            },
    {
        match read_current_branch(current) {
            CurrentBranch::Named { branch } => Some(Repo::at(directory, default_remote(), branch)),
            _ => None,
        }
    }

    pub fn directory(&self) -> (directory: &Utf8PathBuf)
        ensures
            path_text(*directory) == self@.directory,
    {
        &self.directory
    }

    /// Branch name before running any git operation.
    /// I.e. when the [`Repo`] was created.
    pub fn original_branch(&self) -> (branch: &str)
        ensures
            branch@ == self@.original_branch,
    {
        self.original_branch.as_str()
    }

    /// Name of the remote when the [`Repo`] was created.
    pub fn original_remote(&self) -> (remote: &str)
        ensures
            remote@ == self@.original_remote,
    {
        self.original_remote.as_str()
    }

    /// The order to push `obj` to the remote.
    pub fn push_command(&self, obj: &str) -> (command: GitCommand)
        ensures
            command.arguments() == seq!["push"@, self@.original_remote, obj@],
            command.failure_context() is None,
    {
        GitCommand::Push { remote: self.original_remote.clone(), object: obj.to_owned() }
    }

    /// The order to fetch `obj` from the remote.
    pub fn fetch_command(&self, obj: &str) -> (command: GitCommand)
        ensures
            command.arguments() == seq!["fetch"@, self@.original_remote, obj@],
            command.failure_context() is None,
    {
        GitCommand::Fetch { remote: self.original_remote.clone(), object: obj.to_owned() }
    }

    /// The order to push `obj` to the remote unless the remote has moved
    /// on since it was last fetched.
    pub fn force_push_command(&self, obj: &str) -> (command: GitCommand)
        ensures
            command.arguments() == seq![
                "push"@,
                self@.original_remote,
                obj@,
                "--force-with-lease"@,
            ],
            command.failure_context() is None,
    {
        GitCommand::ForcePush { remote: self.original_remote.clone(), object: obj.to_owned() }
    }

    /// The order to delete `branch` in the remote.
    pub fn delete_branch_command(&self, branch: &str) -> (command: GitCommand)
        ensures
            command.arguments() == seq![
                "push"@,
                self@.original_remote,
                ":refs/heads/"@ + branch@,
            ],
            command.failure_context() == Some("can't delete temporary branch "@ + branch@),
    {
        GitCommand::DeleteRemoteBranch {
            remote: self.original_remote.clone(),
            branch: branch.to_owned(),
        }
    }

    /// The order to go back to the branch on which work began.
    pub fn checkout_head_command(&self) -> (command: GitCommand)
        ensures
            command.arguments() == seq!["checkout"@, self@.original_branch],
            command.failure_context() == Some("failed to checkout"@),
    {
        GitCommand::Checkout { object: self.original_branch.clone() }
    }

    /// The question for the address of the remote.
    pub fn remote_url_command(&self) -> (command: GitCommand)
        ensures
            command.arguments() == seq![
                "config"@,
                "--get"@,
                "remote."@ + self@.original_remote + ".url"@,
            ],
            command.failure_context() is None,
    {
        GitCommand::RemoteUrl { remote: self.original_remote.clone() }
    }
}

} // verus!
