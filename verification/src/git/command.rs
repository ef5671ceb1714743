//! The commands that are put to git, as data, and the arguments that each
//! one stands for.

use crate::text::{chars_of, decimal, decimal_chars, push_str, string_of, trim, trim_chars, views};
use crate::git::path::{path_str, path_text};
use camino::Utf8PathBuf;
use vstd::prelude::*;

verus! {

/// One of the details of a commit that can be asked for.
#[derive(Clone, Copy, Debug, PartialEq, Eq)]
pub enum CommitField {
    AuthorName,
    AuthorEmail,
    CommitterName,
    CommitterEmail,
}

/// A question or an order for git in one repository.
#[derive(Debug)]
pub enum GitCommand {
    /// The upstream branch of the current branch, as `remote/branch`.
    Upstream,
    /// The name of the current branch.
    CurrentBranch,
    /// The short status of the working directory.
    Status,
    /// Create `branch` and switch to it.
    CheckoutNewBranch { branch: String },
    /// Switch to `object`.
    Checkout { object: String },
    /// Stage everything in the working directory.
    AddAll,
    /// Stage `paths`.
    Add { paths: Vec<String> },
    /// Commit what is staged.
    Commit { message: String },
    /// Commit what is staged, signed off.
    CommitSigned { message: String },
    /// Push `object` to `remote`.
    Push { remote: String, object: String },
    /// Push `object` to `remote`, unless the remote has moved on.
    ForcePush { remote: String, object: String },
    /// Delete `branch` on `remote`.
    DeleteRemoteBranch { remote: String, branch: String },
    /// Fetch `object` from `remote`.
    Fetch { remote: String, object: String },
    /// Bring back what was stashed last.
    StashPop,
    /// The files of the current commit, one per line.
    CommitFiles,
    /// A detached worktree at `path`, checked out at `object`.
    AddWorktree { path: String, object: String },
    /// Remove the worktree at `path`.
    RemoveWorktree { path: String },
    /// The hashes of the last `count` commits that touched `paths`, newest
    /// first.
    LogHashes { count: u64, paths: Vec<String> },
    /// The message of the current commit.
    CommitMessage,
    /// The hash of the current commit.
    CommitHash,
    /// One detail of `commit`.
    CommitInfo { field: CommitField, commit: String },
    /// Create the annotated tag `name`.
    Tag { name: String, message: String },
    /// The commit that `tag` points to.
    TagCommit { tag: String },
    /// All tags.
    ListTags,
    /// The tags named `tag`.
    FindTag { tag: String },
    /// Succeeds where `ancestor` is an ancestor of `descendant`.
    IsAncestor { ancestor: String, descendant: String },
    /// The address of `remote`.
    RemoteUrl { remote: String },
    /// The branches that hold `commit`.
    BranchesOfCommit { commit: String },
    /// Succeeds where `file` is ignored.
    CheckIgnore { file: String },
    /// Succeeds where `file` is committed.
    CheckCommitted { file: String },
}

/// The placeholder that git's log replaces by the detail `field`.
pub open spec fn placeholder(field: CommitField) -> Seq<char> {
    match field {
        CommitField::AuthorName => "%an"@,
        CommitField::AuthorEmail => "%ae"@,
        CommitField::CommitterName => "%cn"@,
        CommitField::CommitterEmail => "%ce"@,
    }
}

impl GitCommand {
    /// The arguments that follow the repository's directory on git's
    /// command line.
    pub open spec fn arguments(self) -> Seq<Seq<char>> {
        match self {
            GitCommand::Upstream => seq![
                "rev-parse"@,
                "--abbrev-ref"@,
                "--symbolic-full-name"@,
                "@{upstream}"@,
            ],
            GitCommand::CurrentBranch => seq!["rev-parse"@, "--abbrev-ref"@, "HEAD"@],
            GitCommand::Status => seq!["status"@, "--porcelain"@],
            GitCommand::CheckoutNewBranch { branch } => seq!["checkout"@, "-b"@, branch@],
            GitCommand::Checkout { object } => seq!["checkout"@, object@],
            GitCommand::AddAll => seq!["add"@, "."@],
            GitCommand::Add { paths } => seq!["add"@] + views(paths@),
            GitCommand::Commit { message } => seq!["commit"@, "-m"@, message@],
            GitCommand::CommitSigned { message } => seq!["commit"@, "-s"@, "-m"@, message@],
            GitCommand::Push { remote, object } => seq!["push"@, remote@, object@],
            GitCommand::ForcePush { remote, object } => seq![
                "push"@,
                remote@,
                object@,
                "--force-with-lease"@,
            ],
            GitCommand::DeleteRemoteBranch { remote, branch } => seq![
                "push"@,
                remote@,
                ":refs/heads/"@ + branch@,
            ],
            GitCommand::Fetch { remote, object } => seq!["fetch"@, remote@, object@],
            GitCommand::StashPop => seq!["stash"@, "pop"@],
            GitCommand::CommitFiles => seq![
                "show"@,
                "--oneline"@,
                "--name-only"@,
                "--pretty=format:"@,
            ],
            GitCommand::AddWorktree { path, object } => seq![
                "worktree"@,
                "add"@,
                "--detach"@,
                path@,
                object@,
            ],
            GitCommand::RemoveWorktree { path } => seq!["worktree"@, "remove"@, path@],
            GitCommand::LogHashes { count, paths } => seq![
                "log"@,
                "--format=%H"@,
                "-n"@,
                decimal(count as nat),
                "--"@,
            ] + views(paths@),
            GitCommand::CommitMessage => seq!["log"@, "-1"@, "--pretty=format:%B"@],
            GitCommand::CommitHash => seq!["log"@, "-1"@, "--pretty=format:%H"@],
            GitCommand::CommitInfo { field, commit } => seq![
                "log"@,
                "-1"@,
                "--pretty=format:"@ + placeholder(field),
                commit@,
            ],
            GitCommand::Tag { name, message } => seq!["tag"@, "-m"@, message@, name@],
            GitCommand::TagCommit { tag } => seq!["rev-list"@, "-n"@, "1"@, tag@],
            GitCommand::ListTags => seq!["tag"@, "--list"@],
            GitCommand::FindTag { tag } => seq!["tag"@, "-l"@, tag@],
            GitCommand::IsAncestor { ancestor, descendant } => seq![
                "merge-base"@,
                "--is-ancestor"@,
                ancestor@,
                descendant@,
            ],
            GitCommand::RemoteUrl { remote } => seq![
                "config"@,
                "--get"@,
                "remote."@ + remote@ + ".url"@,
            ],
            GitCommand::BranchesOfCommit { commit } => seq!["branch"@, "--contains"@, commit@],
            GitCommand::CheckIgnore { file } => seq!["check-ignore"@, "--no-index"@, file@],
            GitCommand::CheckCommitted { file } => seq!["ls-files"@, "--error-unmatch"@, file@],
        }
    }

    /// What is put in front of a failure of this command, where the command
    /// has such words of its own.
    pub open spec fn failure_context(self) -> Option<Seq<char>> {
        match self {
            GitCommand::Checkout { object } => Some("failed to checkout"@),
            GitCommand::AddWorktree { path, object } => Some("failed to create git worktree"@),
            GitCommand::RemoveWorktree { path } => Some("failed to remove worktree"@),
            GitCommand::DeleteRemoteBranch { remote, branch } => Some(
                "can't delete temporary branch "@ + branch@,
            ),
            GitCommand::LogHashes { count, paths } => if count == 1 {
                Some("failed to get message of last commit"@)
            } else if count == 2 {
                Some("failed to get message of previous commit"@)
            } else {
                None
            },
            GitCommand::CommitHash => Some("can't determine current commit hash"@),
            GitCommand::FindTag { tag } => Some("cannot determine if git tag exists"@),
            _ => None,
        }
    }

    /// The arguments that follow the repository's directory on git's
    /// command line.
    pub fn to_arguments(&self) -> (args: Vec<String>)
        ensures
            views(args@) == self.arguments(),
    {
        match self {
            GitCommand::Upstream => words4(
                "rev-parse",
                "--abbrev-ref",
                "--symbolic-full-name",
                "@{upstream}",
            ),
            GitCommand::CurrentBranch => words3("rev-parse", "--abbrev-ref", "HEAD"),
            GitCommand::Status => words2("status", "--porcelain"),
            GitCommand::CheckoutNewBranch { branch } => words3("checkout", "-b", branch.as_str()),
            GitCommand::Checkout { object } => words2("checkout", object.as_str()),
            GitCommand::AddAll => words2("add", "."),
            GitCommand::Add { paths } => {
                let mut args = words1("add");
                push_words(&mut args, paths);
                args
            },
            GitCommand::Commit { message } => words3("commit", "-m", message.as_str()),
            GitCommand::CommitSigned { message } => words4("commit", "-s", "-m", message.as_str()),
            GitCommand::Push { remote, object } => words3(
                "push",
                remote.as_str(),
                object.as_str(),
            ),
            GitCommand::ForcePush { remote, object } => words4(
                "push",
                remote.as_str(),
                object.as_str(),
                "--force-with-lease",
            ),
            GitCommand::DeleteRemoteBranch { remote, branch } => {
                let target = joined2(":refs/heads/", branch.as_str());
                words3("push", remote.as_str(), target.as_str())
            },
            GitCommand::Fetch { remote, object } => words3(
                "fetch",
                remote.as_str(),
                object.as_str(),
            ),
            GitCommand::StashPop => words2("stash", "pop"),
            GitCommand::CommitFiles => words4(
                "show",
                "--oneline",
                "--name-only",
                "--pretty=format:",
            ),
            GitCommand::AddWorktree { path, object } => {
                let mut args = words4("worktree", "add", "--detach", path.as_str());
                push_word(&mut args, object.as_str());
                args
            },
            GitCommand::RemoveWorktree { path } => words3("worktree", "remove", path.as_str()),
            GitCommand::LogHashes { count, paths } => {
                let number = string_of(&decimal_chars(*count));
                let mut args = words4("log", "--format=%H", "-n", number.as_str());
                push_word(&mut args, "--");
                push_words(&mut args, paths);
                args
            },
            GitCommand::CommitMessage => words3("log", "-1", "--pretty=format:%B"),
            GitCommand::CommitHash => words3("log", "-1", "--pretty=format:%H"),
            GitCommand::CommitInfo { field, commit } => {
                let format = match field {
                    CommitField::AuthorName => joined2("--pretty=format:", "%an"),
                    CommitField::AuthorEmail => joined2("--pretty=format:", "%ae"),
                    CommitField::CommitterName => joined2("--pretty=format:", "%cn"),
                    CommitField::CommitterEmail => joined2("--pretty=format:", "%ce"),
                };
                words4("log", "-1", format.as_str(), commit.as_str())
            },
            GitCommand::Tag { name, message } => words4(
                "tag",
                "-m",
                message.as_str(),
                name.as_str(),
            ),
            GitCommand::TagCommit { tag } => words4("rev-list", "-n", "1", tag.as_str()),
            GitCommand::ListTags => words2("tag", "--list"),
            GitCommand::FindTag { tag } => words3("tag", "-l", tag.as_str()),
            GitCommand::IsAncestor { ancestor, descendant } => words4(
                "merge-base",
                "--is-ancestor",
                ancestor.as_str(),
                descendant.as_str(),
            ),
            GitCommand::RemoteUrl { remote } => {
                let key = joined3("remote.", remote.as_str(), ".url");
                words3("config", "--get", key.as_str())
            },
            GitCommand::BranchesOfCommit { commit } => words3(
                "branch",
                "--contains",
                commit.as_str(),
            ),
            GitCommand::CheckIgnore { file } => words3("check-ignore", "--no-index", file.as_str()),
            GitCommand::CheckCommitted { file } => words3(
                "ls-files",
                "--error-unmatch",
                file.as_str(),
            ),
        }
    }

    /// What is put in front of a failure of this command, where the command
    /// has such words of its own.
    pub fn context(&self) -> (words: Option<String>)
        ensures
            match words {
                Some(text) => self.failure_context() == Some(text@),
                None => self.failure_context() is None,
            },
    {
        match self {
            GitCommand::Checkout { object } => Some("failed to checkout".to_owned()),
            GitCommand::AddWorktree { path, object } => Some(
                "failed to create git worktree".to_owned(),
            ),
            GitCommand::RemoveWorktree { path } => Some("failed to remove worktree".to_owned()),
            GitCommand::DeleteRemoteBranch { remote, branch } => Some(
                joined2("can't delete temporary branch ", branch.as_str()),
            ),
            GitCommand::LogHashes { count, paths } => if *count == 1 {
                Some("failed to get message of last commit".to_owned())
            } else if *count == 2 {
                Some("failed to get message of previous commit".to_owned())
            } else {
                None
            },
            GitCommand::CommitHash => Some("can't determine current commit hash".to_owned()),
            GitCommand::FindTag { tag } => Some("cannot determine if git tag exists".to_owned()),
            _ => None,
        }
    }
}

/// The question whether `file` is ignored.
pub fn check_ignore(file: &Utf8PathBuf) -> (command: GitCommand)
    ensures
        command.arguments() == seq!["check-ignore"@, "--no-index"@, path_text(*file)],
{
    GitCommand::CheckIgnore { file: path_str(file).to_owned() }
}

/// The question whether `file` is committed.
pub fn check_committed(file: &Utf8PathBuf) -> (command: GitCommand)
    ensures
        command.arguments() == seq!["ls-files"@, "--error-unmatch"@, path_text(*file)],
{
    GitCommand::CheckCommitted { file: path_str(file).to_owned() }
}

/// `a` followed by `b`.
pub fn joined2(a: &str, b: &str) -> (out: String)
    ensures
        out@ == a@ + b@,
{
    let mut chars = chars_of(a);
    push_str(&mut chars, b);
    string_of(&chars)
}

/// `a` followed by `b` and `c`.
pub fn joined3(a: &str, b: &str, c: &str) -> (out: String)
    ensures
        out@ == a@ + b@ + c@,
{
    let mut chars = chars_of(a);
    push_str(&mut chars, b);
    push_str(&mut chars, c);
    string_of(&chars)
}

/// Appends a copy of `word` to `args`.
pub fn push_word(args: &mut Vec<String>, word: &str)
    ensures
        views(final(args)@) == views(old(args)@).push(word@),
{
    args.push(word.to_owned());
    assert(views(args@) =~= views(old(args)@).push(word@));
}

/// Appends copies of `words` to `args`.
pub fn push_words(args: &mut Vec<String>, words: &Vec<String>)
    ensures
        views(final(args)@) == views(old(args)@) + views(words@),
{
    let mut i: usize = 0;
    assert(views(args@) =~= views(old(args)@) + views(words@).take(0));
    while i < words.len()
        invariant
            i <= words.len(),
            views(args@) == views(old(args)@) + views(words@).take(i as int),
        decreases words.len() - i,
    {
        let ghost before = views(args@);
        push_word(args, words[i].as_str());
        assert(views(args@) =~= views(old(args)@) + views(words@).take(i + 1));
        i += 1;
    }
    assert(views(words@).take(i as int) =~= views(words@));
}

fn words1(a: &str) -> (args: Vec<String>)
    ensures
        views(args@) == seq![a@],
{
    let mut args: Vec<String> = Vec::new();
    args.push(a.to_owned());
    assert(views(args@) =~= seq![a@]);
    args
}

fn words2(a: &str, b: &str) -> (args: Vec<String>)
    ensures
        views(args@) == seq![a@, b@],
{
    let mut args = words1(a);
    push_word(&mut args, b);
    assert(views(args@) =~= seq![a@, b@]);
    args
}

fn words3(a: &str, b: &str, c: &str) -> (args: Vec<String>)
    ensures
        views(args@) == seq![a@, b@, c@],
{
    let mut args = words2(a, b);
    push_word(&mut args, c);
    assert(views(args@) =~= seq![a@, b@, c@]);
    args
}

fn words4(a: &str, b: &str, c: &str, d: &str) -> (args: Vec<String>)
    ensures
        views(args@) == seq![a@, b@, c@, d@],
{
    let mut args = words3(a, b, c);
    push_word(&mut args, d);
    assert(views(args@) =~= seq![a@, b@, c@, d@]);
    args
}

/// The arguments as git is given them: each without the white space
/// around it.
pub fn trimmed_arguments(args: &Vec<String>) -> (out: Vec<String>)
    ensures
        views(out@) == Seq::new(args@.len(), |i: int| trim(args@[i]@)),
{
    let mut out: Vec<String> = Vec::new();
    let mut i: usize = 0;
    while i < args.len()
        invariant
            i <= args.len(),
            views(out@) == Seq::new(i as nat, |k: int| trim(args@[k]@)),
        decreases args.len() - i,
    {
        let ghost before = views(out@);
        let chars = chars_of(args[i].as_str());
        let trimmed = trim_chars(&chars);
        out.push(string_of(&trimmed));
        assert(views(out@) =~= before.push(trim(args@[i as int]@)));
        assert(before.push(trim(args@[i as int]@)) =~= Seq::new(
            (i + 1) as nat,
            |k: int| trim(args@[k]@),
        ));
        i += 1;
    }
    out
}

} // verus!
