//! What a finished run of git amounts to: its output as text, or the words
//! of its failure; and what the first questions to a repository tell about
//! where it stands.

use crate::git::output::remote_and_branch;
use crate::git::path::{path_str, path_text};
use camino::Utf8PathBuf;
use crate::text::{
    chars_of, contains, contains_chars, push_chars, push_str, split_once, string_of, trim,
    trim_chars, views,
};
use vstd::prelude::*;
use vstd::utf8::{decode_utf8, encode_utf8, encode_utf8_decode_utf8, valid_utf8};

verus! {

/// The text that `{:?}` gives for a string: the string between double
/// quotes, with the characters escaped that std's `Debug` escapes. It is
/// also what `{:?}` gives for a path of `camino` that holds the string,
/// whose `Debug` hands on to that of its text.
pub uninterp spec fn debug_text(s: Seq<char>) -> Seq<char>;

/// The text that `{:?}` gives for a list of strings.
pub uninterp spec fn debug_list(items: Seq<Seq<char>>) -> Seq<char>;

/// `format!` with `{:?}` on a string slice, that is `<str as Debug>::fmt`.
/// The contract only gives the result its name: it is a function of the
/// characters of `s`.
#[verifier::external_body]
fn debug_of_str(s: &str) -> (out: String)
    ensures
        out@ == debug_text(s@),
{
    format!("{:?}", s)
}

/// `format!` with `{:?}` on a vector of strings, that is
/// `<Vec<String> as Debug>::fmt`. The contract only gives the result its
/// name: it is a function of the strings' characters.
#[verifier::external_body]
fn debug_of_strings(items: &Vec<String>) -> (out: String)
    ensures
        out@ == debug_list(views(items@)),
{
    format!("{:?}", items)
}

/// `String::from_utf8`: a string that holds exactly the bytes `bytes`,
/// where these are valid UTF-8, and nothing where they are not.
#[verifier::external_body]
fn text_of_bytes(bytes: Vec<u8>) -> (out: Option<String>)
    ensures
        match out {
            Some(text) => valid_utf8(bytes@) && encode_utf8(text@) == bytes@,
            None => !valid_utf8(bytes@),
        },
{
    String::from_utf8(bytes).ok()
}

/// Why a run of git gave no output to work with.
#[derive(Debug)]
pub enum GitError {
    /// What git printed is not valid UTF-8.
    NotUtf8,
    /// Git reported a failure; `message` describes the run and holds what
    /// it printed.
    Failed { message: String },
}

/// The words for a run of git that could not be started.
pub open spec fn start_failure(dir: Seq<char>, args: Seq<Seq<char>>) -> Seq<char> {
    "error while running git in directory `"@ + debug_text(dir) + "` with args `"@ + debug_list(
        args,
    ) + "`"@
}

/// The words for a run of git that ended in failure: the directory and the
/// arguments, then, as far as they are not empty, a colon and what git
/// printed on its two streams.
pub open spec fn run_failure(
    dir: Seq<char>,
    args: Seq<Seq<char>>,
    stdout: Seq<char>,
    stderr: Seq<char>,
) -> Seq<char> {
    "error while running git in directory `"@ + debug_text(dir) + "` with args `"@ + debug_list(
        args,
    ) + (if stdout.len() > 0 || stderr.len() > 0 {
        ":"@
    } else {
        Seq::empty()
    }) + (if stdout.len() > 0 {
        "\n- stdout: "@ + stdout
    } else {
        Seq::empty()
    }) + (if stderr.len() > 0 {
        "\n- stderr: "@ + stderr
    } else {
        Seq::empty()
    })
}

/// The text that a stream of git's holds: its bytes decoded, without the
/// white space around them.
pub open spec fn stream_text(bytes: Seq<u8>) -> Seq<char> {
    trim(decode_utf8(bytes))
}

/// The text of a stream of git's, where it is valid UTF-8.
pub fn read_stream(bytes: Vec<u8>) -> (out: Option<String>)
    ensures
        match out {
            Some(text) => valid_utf8(bytes@) && text@ == stream_text(bytes@),
            None => !valid_utf8(bytes@),
        },
{
    match text_of_bytes(bytes) {
        Some(text) => {
            proof {
                encode_utf8_decode_utf8(text@);
            }
            let chars = chars_of(text.as_str());
            Some(string_of(&trim_chars(&chars)))
        },
        None => None,
    }
}

/// The words for a run of git in `dir` with `args` that could not be
/// started.
pub fn start_failure_message(dir: &Utf8PathBuf, args: &Vec<String>) -> (message: String)
    ensures
        message@ == start_failure(path_text(*dir), views(args@)),
{
    let mut chars = chars_of("error while running git in directory `");
    push_str(&mut chars, debug_of_str(path_str(dir)).as_str());
    push_str(&mut chars, "` with args `");
    push_str(&mut chars, debug_of_strings(args).as_str());
    push_str(&mut chars, "`");
    string_of(&chars)
}

/// The words for a run of git in `dir` with `args` that ended in failure,
/// having printed `stdout` and `stderr`.
pub fn run_failure_message(
    dir: &Utf8PathBuf,
    args: &Vec<String>,
    stdout: &str,
    stderr: &str,
) -> (message: String)
    ensures
        message@ == run_failure(path_text(*dir), views(args@), stdout@, stderr@),
{
    let out = chars_of(stdout);
    let err = chars_of(stderr);
    let mut chars = chars_of("error while running git in directory `");
    push_str(&mut chars, debug_of_str(path_str(dir)).as_str());
    push_str(&mut chars, "` with args `");
    push_str(&mut chars, debug_of_strings(args).as_str());
    let ghost head = chars@;
    if out.len() > 0 || err.len() > 0 {
        push_str(&mut chars, ":");
    }
    let ghost with_colon = chars@;
    if out.len() > 0 {
        push_str(&mut chars, "\n- stdout: ");
        push_chars(&mut chars, &out);
    }
    let ghost with_stdout = chars@;
    if err.len() > 0 {
        push_str(&mut chars, "\n- stderr: ");
        push_chars(&mut chars, &err);
    }
    proof {
        assert(with_colon =~= head + (if stdout@.len() > 0 || stderr@.len() > 0 {
            ":"@
        } else {
            Seq::empty()
        }));
        assert(with_stdout =~= with_colon + (if stdout@.len() > 0 {
            "\n- stdout: "@ + stdout@
        } else {
            Seq::empty()
        }));
        assert(chars@ =~= with_stdout + (if stderr@.len() > 0 {
            "\n- stderr: "@ + stderr@
        } else {
            Seq::empty()
        }));
    }
    string_of(&chars)
}

/// What a finished run of git in `dir` with `args` amounts to. `success`
/// is its exit status, `stdout` and `stderr` are what it printed. A run
/// that succeeded gives its output as text; one that failed gives the words
/// of the failure. Output that is not UTF-8 gives `NotUtf8`; of a run
/// that succeeded only the standard output is looked at.
pub fn read_outcome(
    dir: &Utf8PathBuf,
    args: &Vec<String>,
    success: bool,
    stdout: Vec<u8>,
    stderr: Vec<u8>,
) -> (outcome: Result<String, GitError>)
    ensures
        match outcome {
            Ok(text) => success && valid_utf8(stdout@) && text@ == stream_text(stdout@),
            Err(GitError::NotUtf8) => !valid_utf8(stdout@) || (!success && !valid_utf8(stderr@)),
            Err(GitError::Failed { message }) => !success && valid_utf8(stdout@) && valid_utf8(
                stderr@,
            ) && message@ == run_failure(
                path_text(*dir),
                views(args@),
                stream_text(stdout@),
                stream_text(stderr@),
            ),
        },
{
    let out = match read_stream(stdout) {
        Some(text) => text,
        None => { return Err(GitError::NotUtf8); },
    };
    if success {
        return Ok(out);
    }
    let err = match read_stream(stderr) {
        Some(text) => text,
        None => { return Err(GitError::NotUtf8); },
    };
    Err(GitError::Failed { message: run_failure_message(dir, args, out.as_str(), err.as_str()) })
}

/// The words by which git says that the current branch follows no branch
/// of a remote.
pub open spec fn no_upstream_mark() -> Seq<char> {
    "fatal: no upstream configured for branch"@
}

/// The words by which git says that the repository holds no commit yet.
pub open spec fn no_commit_mark() -> Seq<char> {
    "fatal: ambiguous argument 'HEAD': unknown revision or path not in the working tree."@
}

/// What the question for the upstream branch told.
#[derive(Debug)]
pub enum Upstream {
    /// The current branch follows `branch` of `remote`.
    Tracking { remote: String, branch: String },
    /// Git answered, but not with a remote and a branch.
    Unreadable,
    /// The current branch follows none: the remote is the default one, and
    /// the branch's own name has to be asked for.
    Untracked,
    /// The repository holds no commit.
    NoCommits,
    /// The question failed for another reason, which is passed on.
    Failed,
}

/// What the question for the current branch told.
#[derive(Debug)]
pub enum CurrentBranch {
    /// The branch's name.
    Named { branch: String },
    /// The repository holds no commit.
    NoCommits,
    /// The question failed for another reason, which is passed on.
    Failed,
}

/// What the answer to the question for the upstream branch tells: a remote
/// and a branch where git printed them with a slash between; where it
/// failed, why, judged by the words of its failure.
pub fn read_upstream(answer: Result<&str, &str>) -> (step: Upstream)
    ensures
        match answer {
            Ok(output) => match split_once(output@, '/') {
                Some((r, b)) => step matches Upstream::Tracking { remote, branch } && remote@ == r
                    && branch@ == b,
                None => step is Unreadable,
            },
            Err(error) => if contains(error@, no_upstream_mark()) {
                step is Untracked
            } else if contains(error@, no_commit_mark()) {
                step is NoCommits
            } else {
                step is Failed
            },
        },
{
    match answer {
        Ok(output) => match remote_and_branch(output) {
            Some((remote, branch)) => Upstream::Tracking { remote, branch },
            None => Upstream::Unreadable,
        },
        Err(error) => {
            let words = chars_of(error);
            if contains_chars(&words, &chars_of("fatal: no upstream configured for branch")) {
                Upstream::Untracked
            } else if contains_chars(
                &words,
                &chars_of(
                    "fatal: ambiguous argument 'HEAD': unknown revision or path not in the working tree.",
                ),
            ) {
                Upstream::NoCommits
            } else {
                Upstream::Failed
            }
        },
    }
}

/// What the answer to the question for the current branch tells.
pub fn read_current_branch(answer: Result<&str, &str>) -> (step: CurrentBranch)
    ensures
        match answer {
            Ok(output) => step matches CurrentBranch::Named { branch } && branch@ == output@,
            Err(error) => if contains(error@, no_commit_mark()) {
                step is NoCommits
            } else {
                step is Failed
            },
        },
{
    match answer {
        Ok(output) => CurrentBranch::Named { branch: output.to_owned() },
        Err(error) => {
            let words = chars_of(error);
            if contains_chars(
                &words,
                &chars_of(
                    "fatal: ambiguous argument 'HEAD': unknown revision or path not in the working tree.",
                ),
            ) {
                CurrentBranch::NoCommits
            } else {
                CurrentBranch::Failed
            }
        },
    }
}

/// The remote that a branch without an upstream is pushed to.
pub fn default_remote() -> (remote: String)
    ensures
        remote@ == "origin"@,
{
    "origin".to_owned()
}

/// The words for a repository without a commit.
pub fn no_commit_message() -> (message: String)
    ensures
        message@ == "git repository does not contain any commit."@,
{
    "git repository does not contain any commit.".to_owned()
}

/// The words for a working directory that holds the uncommitted `changes`.
pub open spec fn dirty(changes: Seq<Seq<char>>) -> Seq<char> {
    "the working directory of this project has uncommitted changes. If these files are both committed and in .gitignore, either delete them or remove them from .gitignore. Otherwise, please commit or stash these changes:\n"@
        + debug_list(changes)
}

/// Whether the working directory is clean, by the changes that its status
/// lists: it is where there are none; else the error names them.
pub fn check_clean(changes: &Vec<String>) -> (verdict: Result<(), String>)
    ensures
        match verdict {
            Ok(_) => changes@.len() == 0,
            Err(message) => changes@.len() > 0 && message@ == dirty(views(changes@)),
        },
{
    if changes.len() == 0 {
        Ok(())
    } else {
        let mut chars = chars_of(
            "the working directory of this project has uncommitted changes. If these files are both committed and in .gitignore, either delete them or remove them from .gitignore. Otherwise, please commit or stash these changes:\n",
        );
        push_str(&mut chars, debug_of_strings(changes).as_str());
        Err(string_of(&chars))
    }
}

} // verus!
