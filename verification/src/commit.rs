//! Commit subjects in the conventional form `type(scope)!: summary`.

use crate::text::{
    chars_eq, chars_of, find_from, position, slice_chars, string_of, trim, trim_chars, views,
};
use vstd::prelude::*;

verus! {

/// What a commit does, as far as its subject tells.
#[derive(Clone, Copy, Debug, PartialEq, Eq, Structural)]
pub enum CommitKind {
    /// It adds a feature: its type is `feat`.
    Feature,
    /// It mends a fault: its type is `fix`.
    Fix,
    /// Anything else, and every subject that is not in the conventional
    /// form.
    Other,
}

/// Whether `c` is a letter of the basic Latin alphabet.
pub open spec fn is_letter(c: char) -> bool {
    ('a' <= c && c <= 'z') || ('A' <= c && c <= 'Z')
}

/// Whether `word` can be the type of a conventional subject: letters, and
/// at least one.
pub open spec fn is_type_word(word: Seq<char>) -> bool {
    word.len() > 0 && forall|i: int| 0 <= i < word.len() ==> is_letter(#[trigger] word[i])
}

/// What stands before the colon, without the mark `!` of a breaking
/// change and without a scope in round brackets.
pub open spec fn type_part(head: Seq<char>) -> Seq<char> {
    let plain = if head.len() > 0 && head.last() == '!' {
        head.drop_last()
    } else {
        head
    };
    let open = position(plain, '(') as int;
    if open < plain.len() && plain.last() == ')' {
        plain.take(open)
    } else {
        plain
    }
}

/// The type of a subject in the conventional form; `None` for any other
/// subject.
pub open spec fn commit_type(subject: Seq<char>) -> Option<Seq<char>> {
    let colon = position(subject, ':') as int;
    if colon >= subject.len() {
        None
    } else {
        let word = type_part(subject.take(colon));
        if is_type_word(word) {
            Some(word)
        } else {
            None
        }
    }
}

/// What the commit with this subject does.
pub open spec fn commit_kind(subject: Seq<char>) -> CommitKind {
    match commit_type(subject) {
        Some(word) => if word == "feat"@ {
            CommitKind::Feature
        } else if word == "fix"@ {
            CommitKind::Fix
        } else {
            CommitKind::Other
        },
        None => CommitKind::Other,
    }
}

/// What a changelog says of the commit: of a conventional subject what
/// follows the colon, of any other the whole subject; trimmed either way.
pub open spec fn commit_summary(subject: Seq<char>) -> Seq<char> {
    match commit_type(subject) {
        Some(_) => trim(subject.skip(position(subject, ':') as int + 1)),
        None => trim(subject),
    }
}

/// Whether one of the subjects is that of a feature.
pub open spec fn has_feature(subjects: Seq<Seq<char>>) -> bool {
    exists|i: int|
        0 <= i < subjects.len() && commit_kind(#[trigger] subjects[i]) == CommitKind::Feature
}

/// Whether `c` is a letter of the basic Latin alphabet.
fn char_is_letter(c: char) -> (b: bool)
    ensures
        b == is_letter(c),
{
    ('a' <= c && c <= 'z') || ('A' <= c && c <= 'Z')
}

/// Whether `word` can be the type of a conventional subject.
fn word_is_type(word: &Vec<char>) -> (b: bool)
    ensures
        b == is_type_word(word@),
{
    if word.len() == 0 {
        return false;
    }
    let mut i: usize = 0;
    while i < word.len()
        invariant
            i <= word.len(),
            forall|k: int| 0 <= k < i ==> is_letter(#[trigger] word@[k]),
        decreases word.len() - i,
    {
        if !char_is_letter(word[i]) {
            return false;
        }
        i += 1;
    }
    true
}

/// The type of the subject whose part before the colon is `head`.
fn type_of_head(head: &Vec<char>) -> (word: Vec<char>)
    ensures
        word@ == type_part(head@),
{
    let mut end: usize = head.len();
    if end > 0 && head[end - 1] == '!' {
        end = end - 1;
    }
    let plain = slice_chars(head, 0, end);
    assert(plain@ =~= if head@.len() > 0 && head@.last() == '!' {
        head@.drop_last()
    } else {
        head@
    });
    let open = find_from(&plain, 0, '(');
    assert(plain@.skip(0) =~= plain@);
    if open < plain.len() && plain[plain.len() - 1] == ')' {
        slice_chars(&plain, 0, open)
    } else {
        plain
    }
}

/// What the commit with this subject does, and what a changelog says
/// of it.
pub fn classify(subject: &str) -> (out: (CommitKind, String))
    ensures
        out.0 == commit_kind(subject@),
        out.1@ == commit_summary(subject@),
{
    let chars = chars_of(subject);
    let colon = find_from(&chars, 0, ':');
    assert(chars@.skip(0) =~= chars@);
    if colon >= chars.len() {
        return (CommitKind::Other, string_of(&trim_chars(&chars)));
    }
    let head = slice_chars(&chars, 0, colon);
    let word = type_of_head(&head);
    if !word_is_type(&word) {
        return (CommitKind::Other, string_of(&trim_chars(&chars)));
    }
    let rest = slice_chars(&chars, colon + 1, chars.len());
    let summary = string_of(&trim_chars(&rest));
    let kind = if chars_eq(&word, &chars_of("feat")) {
        CommitKind::Feature
    } else if chars_eq(&word, &chars_of("fix")) {
        CommitKind::Fix
    } else {
        CommitKind::Other
    };
    (kind, summary)
}

/// Whether one of the subjects is that of a feature.
pub fn any_feature(subjects: &Vec<String>) -> (found: bool)
    ensures
        found == has_feature(views(subjects@)),
{
    let mut i: usize = 0;
    while i < subjects.len()
        invariant
            i <= subjects.len(),
            forall|k: int| 0 <= k < i ==> commit_kind(subjects@[k]@) != CommitKind::Feature,
        decreases subjects.len() - i,
    {
        let (kind, _) = classify(subjects[i].as_str());
        if kind == CommitKind::Feature {
            assert(views(subjects@)[i as int] == subjects@[i as int]@);
            return true;
        }
        i += 1;
    }
    assert forall|k: int| 0 <= k < views(subjects@).len() implies commit_kind(
        #[trigger] views(subjects@)[k],
    ) != CommitKind::Feature by {
        assert(views(subjects@)[k] == subjects@[k]@);
    }
    false
}

} // verus!
