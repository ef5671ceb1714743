//! Reading what git prints.

use crate::text::{
    after_last, after_last_chars, chars_of, last_word, last_word_chars, lines, split_lines,
    split_once, split_once_chars, starts_with, starts_with_chars, string_of, trim, trim_chars,
    views,
};
use crate::git::path::{path_from, path_text};
use camino::Utf8PathBuf;
use vstd::prelude::*;

verus! {

/// The lines of `output`, each without leading and trailing white space.
pub open spec fn trimmed_lines(output: Seq<char>) -> Seq<Seq<char>> {
    Seq::new(lines(output).len(), |i: int| trim(lines(output)[i]))
}

/// The path that a line of the short status names: what follows its last
/// space.
pub open spec fn path_of_entry(entry: Seq<char>) -> Seq<char> {
    after_last(entry, ' ')
}

/// The paths of those `entries` whose flag in `keep` is set, in order.
pub open spec fn kept_paths(entries: Seq<Seq<char>>, keep: Seq<bool>) -> Seq<Seq<char>>
    recommends
        entries.len() == keep.len(),
    decreases entries.len(),
{
    if entries.len() == 0 {
        Seq::empty()
    } else {
        let before = kept_paths(entries.drop_last(), keep.drop_last());
        if keep.last() {
            before.push(path_of_entry(entries.last()))
        } else {
            before
        }
    }
}

/// Whether `filter`, asked about a line that reads `entry`, may answer `keep`.
pub open spec fn answers<F: Fn(&str) -> bool>(filter: F, entry: Seq<char>, keep: bool) -> bool {
    exists|line: &str| line@ == entry && #[trigger] call_ensures(filter, (line,), keep)
}

/// Whether a line of the short status reports a change of file type.
pub open spec fn is_typechange_entry(entry: Seq<char>) -> bool {
    starts_with(entry, "T "@)
}

/// For each entry, whether it reports something other than a change of type.
pub open spec fn not_typechanges(entries: Seq<Seq<char>>) -> Seq<bool> {
    Seq::new(entries.len(), |i: int| !is_typechange_entry(entries[i]))
}

/// The lines of `output` as owned texts, each trimmed.
pub fn read_trimmed_lines(output: &str) -> (out: Vec<Vec<char>>)
    ensures
        views(out@) == trimmed_lines(output@),
{
    let chars = chars_of(output);
    let raw = split_lines(&chars);
    let mut out: Vec<Vec<char>> = Vec::new();
    let mut i: usize = 0;
    while i < raw.len()
        invariant
            i <= raw.len(),
            views(raw@) == lines(output@),
            views(out@) == trimmed_lines(output@).take(i as int),
        decreases raw.len() - i,
    {
        let ghost before = views(out@);
        let t = trim_chars(&raw[i]);
        out.push(t);
        proof {
            assert(views(raw@)[i as int] == raw@[i as int]@);
            assert(views(out@) =~= before.push(t@));
            assert(trimmed_lines(output@).take(i + 1) =~= trimmed_lines(output@).take(
                i as int,
            ).push(trim(lines(output@)[i as int])));
        }
        i += 1;
    }
    assert(trimmed_lines(output@).take(i as int) =~= trimmed_lines(output@));
    out
}

/// The files that the short status `output` lists, for the lines that
/// `filter` accepts. Each line is trimmed, shown to `filter`, and, where the
/// answer is yes, gives what follows its last space.
pub fn changed_files(output: &str, filter: impl Fn(&str) -> bool) -> (files: Vec<String>)
    requires
        forall|line: &str| call_requires(filter, (line,)),
    ensures
        exists|keep: Seq<bool>|
            {
                &&& keep.len() == trimmed_lines(output@).len()
                &&& forall|i: int|
                    0 <= i < keep.len() ==> answers(
                        filter,
                        #[trigger] trimmed_lines(output@)[i],
                        keep[i],
                    )
                &&& views(files@) == kept_paths(trimmed_lines(output@), keep)
            },
{
    let entries = read_trimmed_lines(output);
    let ghost all = trimmed_lines(output@);
    let mut files: Vec<String> = Vec::new();
    let ghost mut keep: Seq<bool> = Seq::empty();
    let mut i: usize = 0;
    while i < entries.len()
        invariant
            i <= entries.len(),
            views(entries@) == all,
            all == trimmed_lines(output@),
            forall|line: &str| call_requires(filter, (line,)),
            keep.len() == i,
            forall|k: int| 0 <= k < i ==> answers(filter, #[trigger] all[k], keep[k]),
            views(files@) == kept_paths(all.take(i as int), keep),
        decreases entries.len() - i,
    {
        let ghost files_before = views(files@);
        let ghost keep_before = keep;
        let line = string_of(&entries[i]);
        assert(views(entries@)[i as int] == entries@[i as int]@);
        let wanted = filter(line.as_str());
        proof {
            keep = keep.push(wanted);
            assert(answers(filter, all[i as int], wanted));
            assert(all.take(i + 1).drop_last() =~= all.take(i as int));
            assert(keep.drop_last() =~= keep_before);
        }
        if wanted {
            let path = after_last_chars(&entries[i], ' ');
            files.push(string_of(&path));
            assert(views(files@) =~= files_before.push(path_of_entry(all[i as int])));
        }
        i += 1;
    }
    assert(all.take(i as int) =~= all);
    files
}

/// Whether a line of the short status reports a change of file type.
pub fn is_typechange(line: &str) -> (b: bool)
    ensures
        b == is_typechange_entry(line@),
{
    let chars = chars_of(line);
    let mark = chars_of("T ");
    starts_with_chars(&chars, &mark)
}

/// The files that the short status `output` lists, but for those whose type
/// changed.
pub fn changed_files_except_typechanges(output: &str) -> (files: Vec<String>)
    ensures
        views(files@) == kept_paths(
            trimmed_lines(output@),
            not_typechanges(trimmed_lines(output@)),
        ),
{
    let keep_others = |line: &str| -> (b: bool)
        ensures
            b == !is_typechange_entry(line@),
        { !is_typechange(line) };
    let files = changed_files(output, keep_others);
    proof {
        let all = trimmed_lines(output@);
        let keep = choose|keep: Seq<bool>|
            {
                &&& keep.len() == all.len()
                &&& forall|i: int|
                    0 <= i < keep.len() ==> answers(keep_others, #[trigger] all[i], keep[i])
                &&& views(files@) == kept_paths(all, keep)
            };
        assert(keep =~= not_typechanges(all));
    }
    files
}

/// The last words of those `entries` that hold a word, in order.
pub open spec fn last_words(entries: Seq<Seq<char>>) -> Seq<Seq<char>>
    decreases entries.len(),
{
    if entries.len() == 0 {
        Seq::empty()
    } else {
        let before = last_words(entries.drop_last());
        match last_word(entries.last()) {
            Some(word) => before.push(word),
            None => before,
        }
    }
}

/// The tags that a listing of tags names: its lines, once the white space
/// around the whole listing is gone. No listing, or a blank one, names none.
pub open spec fn listed_tags(output: Option<Seq<char>>) -> Seq<Seq<char>> {
    match output {
        None => Seq::empty(),
        Some(text) => if trim(text).len() == 0 {
            Seq::empty()
        } else {
            lines(trim(text))
        },
    }
}

/// The line of `output` with number `nth`, counted from one.
pub open spec fn line_number(output: Seq<char>, nth: int) -> Option<Seq<char>> {
    if 1 <= nth <= lines(output).len() {
        Some(lines(output)[nth - 1])
    } else {
        None
    }
}

/// Strings that hold the given texts.
pub fn strings_of(texts: &Vec<Vec<char>>) -> (out: Vec<String>)
    ensures
        views(out@) == views(texts@),
{
    let mut out: Vec<String> = Vec::new();
    let mut i: usize = 0;
    while i < texts.len()
        invariant
            i <= texts.len(),
            views(out@) == views(texts@).take(i as int),
        decreases texts.len() - i,
    {
        let ghost before = views(out@);
        let item = string_of(&texts[i]);
        out.push(item);
        assert(views(out@) =~= before.push(texts@[i as int]@));
        assert(views(texts@).take(i + 1) =~= views(texts@).take(i as int).push(
            texts@[i as int]@,
        ));
        i += 1;
    }
    assert(views(texts@).take(i as int) =~= views(texts@));
    out
}

/// The texts of the paths in `paths`, in order.
pub open spec fn path_texts(paths: Seq<Utf8PathBuf>) -> Seq<Seq<char>> {
    Seq::new(paths.len(), |i: int| path_text(paths[i]))
}

/// The files that a commit touched, from a listing with one name per line:
/// the lines, each trimmed and taken as a path, in order and with
/// repetitions.
pub fn commit_files(output: &str) -> (files: Vec<Utf8PathBuf>)
    ensures
        path_texts(files@) == trimmed_lines(output@),
{
    let entries = read_trimmed_lines(output);
    let ghost all = views(entries@);
    let mut files: Vec<Utf8PathBuf> = Vec::new();
    let mut i: usize = 0;
    while i < entries.len()
        invariant
            i <= entries.len(),
            all == views(entries@),
            path_texts(files@) == all.take(i as int),
        decreases entries.len() - i,
    {
        let ghost before = path_texts(files@);
        let path = path_from(string_of(&entries[i]));
        files.push(path);
        assert(path_texts(files@) =~= before.push(entries@[i as int]@));
        assert(all.take(i + 1) =~= all.take(i as int).push(entries@[i as int]@));
        i += 1;
    }
    assert(all.take(i as int) =~= all);
    files
}

/// The line of `output` with number `nth`, counted from one: the commit that
/// a log of hashes, newest first, holds at that place. `None` where the log
/// has fewer lines, or `nth` is zero.
pub fn nth_line(output: &str, nth: usize) -> (line: Option<String>)
    ensures
        match line {
            Some(text) => line_number(output@, nth as int) == Some(text@),
            None => line_number(output@, nth as int) is None,
        },
{
    let chars = chars_of(output);
    let all = split_lines(&chars);
    if 1 <= nth && nth <= all.len() {
        assert(views(all@)[nth - 1] == all@[nth - 1]@);
        Some(string_of(&all[nth - 1]))
    } else {
        None
    }
}

/// The tags that a listing of tags names; `None` stands for a listing that
/// could not be had.
pub fn all_tags(output: Option<&str>) -> (tags: Vec<String>)
    ensures
        views(tags@) == listed_tags(
            match output {
                Some(text) => Some(text@),
                None => None,
            },
        ),
{
    match output {
        None => {
            let tags: Vec<String> = Vec::new();
            assert(views(tags@) =~= Seq::<Seq<char>>::empty());
            tags
        },
        Some(text) => {
            let chars = chars_of(text);
            let trimmed = trim_chars(&chars);
            if trimmed.len() == 0 {
                let tags: Vec<String> = Vec::new();
                assert(views(tags@) =~= Seq::<Seq<char>>::empty());
                tags
            } else {
                let all = split_lines(&trimmed);
                strings_of(&all)
            }
        },
    }
}

/// Whether a listing of the tags of one name shows that the tag exists: it
/// does where the listing has a line.
pub fn tag_listed(output: &str) -> (found: bool)
    ensures
        found == (lines(output@).len() >= 1),
        found == (output@.len() > 0),
{
    let chars = chars_of(output);
    let all = split_lines(&chars);
    assert(views(all@).len() == all@.len());
    all.len() >= 1
}

/// The branches that a listing of branches names, one per line: of each line
/// its last word, which leaves out the mark of the current branch. A line
/// without a word names none.
pub fn branches_of_commit(output: &str) -> (branches: Vec<String>)
    ensures
        views(branches@) == last_words(lines(output@)),
{
    let chars = chars_of(output);
    let all = split_lines(&chars);
    let mut branches: Vec<String> = Vec::new();
    let mut i: usize = 0;
    while i < all.len()
        invariant
            i <= all.len(),
            views(all@) == lines(output@),
            views(branches@) == last_words(lines(output@).take(i as int)),
        decreases all.len() - i,
    {
        let ghost before = views(branches@);
        assert(views(all@)[i as int] == all@[i as int]@);
        assert(lines(output@).take(i + 1).drop_last() =~= lines(output@).take(i as int));
        match last_word_chars(&all[i]) {
            Some(word) => {
                branches.push(string_of(&word));
                assert(views(branches@) =~= before.push(word@));
            },
            None => {},
        }
        i += 1;
    }
    assert(lines(output@).take(i as int) =~= lines(output@));
    branches
}

/// The remote and the branch that the name of an upstream branch holds: what
/// stands before its first slash, and what follows it.
pub fn remote_and_branch(output: &str) -> (parts: Option<(String, String)>)
    ensures
        match parts {
            Some((remote, branch)) => split_once(output@, '/') == Some((remote@, branch@)),
            None => split_once(output@, '/') is None,
        },
{
    let chars = chars_of(output);
    match split_once_chars(&chars, '/') {
        Some((remote, branch)) => Some((string_of(&remote), string_of(&branch))),
        None => None,
    }
}

} // verus!
