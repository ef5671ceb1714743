//! Which files belong to a package: those under its directory that its
//! patterns take in and do not leave out.
//!
//! Paths are relative to the workspace, with `/` between their parts. A
//! pattern is matched against the path of a file relative to the package.
//! In a pattern `*` stands for any run of characters of one part, and `?`
//! for one such character. A pattern that begins with `/` is matched from
//! the directory of the package; any other may begin at any part of the
//! path. A pattern that matches a directory takes in all that lies in it.

use crate::text::{chars_eq, chars_of, occurs_at_chars, slice_chars, starts_with, views};
use vstd::prelude::*;

verus! {

/// Whether the pattern `p` from index `i` on matches `s` from index `j`
/// up to, not including, index `end`.
pub open spec fn wild(p: Seq<char>, s: Seq<char>, i: int, j: int, end: int) -> bool
    decreases p.len() - i, end - j,
{
    if i < 0 || j < 0 || j > end {
        false
    } else if i >= p.len() {
        j == end
    } else if p[i] == '*' {
        wild(p, s, i + 1, j, end) || (j < end && s[j] != '/' && wild(p, s, i, j + 1, end))
    } else if p[i] == '?' {
        j < end && s[j] != '/' && wild(p, s, i + 1, j + 1, end)
    } else {
        j < end && s[j] == p[i] && wild(p, s, i + 1, j + 1, end)
    }
}

/// Whether a part of the path `s` begins at index `at`.
pub open spec fn part_begins(s: Seq<char>, at: int) -> bool {
    at == 0 || (0 < at <= s.len() && s[at - 1] == '/')
}

/// Whether a part of the path `s` ends just before index `at`.
pub open spec fn part_ends(s: Seq<char>, at: int) -> bool {
    at == s.len() || (0 <= at < s.len() && s[at] == '/')
}

/// Whether the pattern `p` matches the parts of `s` that begin at index
/// `from`, or some of them from `from` on: the file itself or a directory
/// above it.
pub open spec fn matches_from(p: Seq<char>, s: Seq<char>, from: int) -> bool {
    exists|end: int|
        from <= end <= s.len() && part_ends(s, end) && #[trigger] wild(p, s, 0, from, end)
}

/// Whether the pattern `p` matches from the beginning of some part of `s`.
pub open spec fn matches_anywhere(p: Seq<char>, s: Seq<char>) -> bool {
    exists|from: int|
        0 <= from <= s.len() && part_begins(s, from) && #[trigger] matches_from(p, s, from)
}

/// The pattern without a final `/`.
pub open spec fn without_final_slash(pattern: Seq<char>) -> Seq<char> {
    if pattern.len() > 0 && pattern.last() == '/' {
        pattern.drop_last()
    } else {
        pattern
    }
}

/// Whether `pattern` matches the file at `path`, a path relative to the
/// package.
pub open spec fn pattern_matches(pattern: Seq<char>, path: Seq<char>) -> bool {
    let p = without_final_slash(pattern);
    if p.len() > 0 && p[0] == '/' {
        matches_from(p.skip(1), path, 0)
    } else {
        matches_anywhere(p, path)
    }
}

/// Whether one of `patterns` matches the file at `path`.
pub open spec fn any_matches(patterns: Seq<Seq<char>>, path: Seq<char>) -> bool {
    exists|k: int| 0 <= k < patterns.len() && pattern_matches(#[trigger] patterns[k], path)
}

/// Whether the directory `root` is the workspace itself.
pub open spec fn is_workspace_root(root: Seq<char>) -> bool {
    root.len() == 0 || root == "."@
}

/// The path of the file at `path` relative to the directory `root`, where
/// the file lies in that directory.
pub open spec fn relative_to(root: Seq<char>, path: Seq<char>) -> Option<Seq<char>> {
    if is_workspace_root(root) {
        Some(path)
    } else if starts_with(path, root + "/"@) {
        Some(path.skip(root.len() as int + 1))
    } else {
        None
    }
}

/// Whether the file at `path` belongs to the package in `root` with the
/// patterns `included` and `excluded`: it lies in the package, one of
/// `included` matches it or there is none, and none of `excluded` does.
pub open spec fn belongs(
    root: Seq<char>,
    included: Seq<Seq<char>>,
    excluded: Seq<Seq<char>>,
    path: Seq<char>,
) -> bool {
    match relative_to(root, path) {
        Some(inner) => (included.len() == 0 || any_matches(included, inner)) && !any_matches(
            excluded,
            inner,
        ),
        None => false,
    }
}

/// The entry `k` of a row of answers that ends with `last`.
pub open spec fn cell(row: Seq<bool>, last: bool, k: int) -> bool {
    if 0 <= k < row.len() {
        row[k]
    } else {
        last
    }
}

/// Whether `row` and `last` hold, for each index from `start` to `end`,
/// whether the pattern from `i` on matches the path from there to `end`.
pub open spec fn answers(
    p: Seq<char>,
    s: Seq<char>,
    i: int,
    start: int,
    end: int,
    row: Seq<bool>,
    last: bool,
) -> bool {
    &&& row.len() == end - start
    &&& forall|k: int|
        0 <= k <= end - start ==> #[trigger] cell(row, last, k) == wild(p, s, i, start + k, end)
}

/// A row of `width` answers that are all no.
fn blank_row(width: usize) -> (row: Vec<bool>)
    ensures
        row.len() == width,
        forall|k: int| 0 <= k < width ==> !row@[k],
{
    let mut row: Vec<bool> = Vec::new();
    let mut k: usize = 0;
    while k < width
        invariant
            k <= width,
            row.len() == k,
            forall|q: int| 0 <= q < k ==> !row@[q],
        decreases width - k,
    {
        row.push(false);
        k += 1;
    }
    row
}

/// The answers for the pattern from `i` on, where its character at `i` is
/// not a star, from the answers for the pattern from `i + 1` on.
fn step_plain(
    p: &Vec<char>,
    s: &Vec<char>,
    i: usize,
    start: usize,
    end: usize,
    row: &Vec<bool>,
    last: bool,
) -> (next: Vec<bool>)
    requires
        i < p.len(),
        p@[i as int] != '*',
        start <= end <= s.len(),
        answers(p@, s@, i + 1, start as int, end as int, row@, last),
    ensures
        answers(p@, s@, i as int, start as int, end as int, next@, false),
{
    let width = end - start;
    let c = p[i];
    let mut next: Vec<bool> = Vec::new();
    let mut k: usize = 0;
    while k < width
        invariant
            k <= width,
            width == end - start,
            start <= end <= s.len(),
            i < p.len(),
            c == p@[i as int],
            c != '*',
            next.len() == k,
            answers(p@, s@, i + 1, start as int, end as int, row@, last),
            forall|q: int|
                0 <= q < k ==> next@[q] == wild(p@, s@, i as int, start + q, end as int),
        decreases width - k,
    {
        let here = s[start + k];
        let fits = if c == '?' {
            here != '/'
        } else {
            here == c
        };
        let after = if k + 1 < width {
            row[k + 1]
        } else {
            last
        };
        assert(after == cell(row@, last, k + 1));
        next.push(fits && after);
        k += 1;
    }
    assert forall|q: int| 0 <= q <= end - start implies #[trigger] cell(next@, false, q) == wild(
        p@,
        s@,
        i as int,
        start + q,
        end as int,
    ) by {}
    next
}

/// The answers for the pattern from `i` on, where its character at `i` is
/// a star, from the answers for the pattern from `i + 1` on.
fn step_star(
    p: &Vec<char>,
    s: &Vec<char>,
    i: usize,
    start: usize,
    end: usize,
    row: &Vec<bool>,
    last: bool,
) -> (next: Vec<bool>)
    requires
        i < p.len(),
        p@[i as int] == '*',
        start <= end <= s.len(),
        answers(p@, s@, i + 1, start as int, end as int, row@, last),
    ensures
        answers(p@, s@, i as int, start as int, end as int, next@, last),
{
    let width = end - start;
    let mut next = blank_row(width);
    let mut k: usize = width;
    assert(cell(row@, last, width as int) == wild(p@, s@, i + 1, start + width, end as int));
    while k > 0
        invariant
            k <= width,
            width == end - start,
            start <= end <= s.len(),
            i < p.len(),
            p@[i as int] == '*',
            next.len() == width,
            answers(p@, s@, i + 1, start as int, end as int, row@, last),
            last == wild(p@, s@, i as int, end as int, end as int),
            forall|q: int|
                k <= q < width ==> next@[q] == wild(p@, s@, i as int, start + q, end as int),
        decreases k,
    {
        let at = k - 1;
        let after = if k < width {
            next[k]
        } else {
            last
        };
        assert(after == wild(p@, s@, i as int, start + at + 1, end as int));
        assert(row@[at as int] == cell(row@, last, at as int));
        let value = row[at] || (s[start + at] != '/' && after);
        next.set(at, value);
        k -= 1;
    }
    assert forall|q: int| 0 <= q <= end - start implies #[trigger] cell(next@, last, q) == wild(
        p@,
        s@,
        i as int,
        start + q,
        end as int,
    ) by {}
    next
}

/// Whether the pattern `p` matches `s` from index `start` up to, not
/// including, index `end`.
pub fn wild_match(p: &Vec<char>, s: &Vec<char>, start: usize, end: usize) -> (found: bool)
    requires
        start <= end <= s.len(),
    ensures
        found == wild(p@, s@, 0, start as int, end as int),
{
    let width = end - start;
    let mut row = blank_row(width);
    let mut last = true;
    let mut i: usize = p.len();
    assert forall|k: int| 0 <= k <= end - start implies #[trigger] cell(row@, last, k) == wild(
        p@,
        s@,
        i as int,
        start + k,
        end as int,
    ) by {}
    while i > 0
        invariant
            i <= p.len(),
            start <= end <= s.len(),
            answers(p@, s@, i as int, start as int, end as int, row@, last),
        decreases i,
    {
        i -= 1;
        if p[i] == '*' {
            row = step_star(p, s, i, start, end, &row, last);
        } else {
            row = step_plain(p, s, i, start, end, &row, last);
            last = false;
        }
    }
    assert(cell(row@, last, 0) == wild(p@, s@, 0, start + 0, end as int));
    if width > 0 {
        row[0]
    } else {
        last
    }
}

/// Whether the pattern `p` matches the parts of `s` that begin at `from`.
fn match_from(p: &Vec<char>, s: &Vec<char>, from: usize) -> (found: bool)
    requires
        from <= s.len(),
    ensures
        found == matches_from(p@, s@, from as int),
{
    let mut end: usize = from;
    while end < s.len()
        invariant
            from <= end <= s.len(),
            forall|e: int|
                from <= e < end && part_ends(s@, e) ==> !#[trigger] wild(
                    p@,
                    s@,
                    0,
                    from as int,
                    e,
                ),
        decreases s.len() - end,
    {
        if s[end] == '/' && wild_match(p, s, from, end) {
            assert(part_ends(s@, end as int));
            return true;
        }
        end += 1;
    }
    let whole = wild_match(p, s, from, s.len());
    assert(part_ends(s@, s@.len() as int));
    whole
}

/// Whether the pattern `p` matches from the beginning of some part of `s`.
fn match_anywhere(p: &Vec<char>, s: &Vec<char>) -> (found: bool)
    ensures
        found == matches_anywhere(p@, s@),
{
    if match_from(p, s, 0) {
        assert(part_begins(s@, 0));
        return true;
    }
    let mut from: usize = 0;
    while from < s.len()
        invariant
            from <= s.len(),
            forall|b: int|
                0 <= b <= from && part_begins(s@, b) ==> !#[trigger] matches_from(p@, s@, b),
        decreases s.len() - from,
    {
        if s[from] == '/' && match_from(p, s, from + 1) {
            assert(part_begins(s@, from + 1));
            return true;
        }
        from += 1;
    }
    false
}

/// Whether `pattern` matches the file at `path`, a path relative to the
/// package.
pub fn matches_pattern(pattern: &Vec<char>, path: &Vec<char>) -> (found: bool)
    ensures
        found == pattern_matches(pattern@, path@),
{
    let mut end: usize = pattern.len();
    if end > 0 && pattern[end - 1] == '/' {
        end -= 1;
    }
    if end > 0 && pattern[0] == '/' {
        let p = slice_chars(pattern, 1, end);
        assert(p@ =~= without_final_slash(pattern@).skip(1));
        match_from(&p, path, 0)
    } else {
        let p = slice_chars(pattern, 0, end);
        assert(p@ =~= without_final_slash(pattern@));
        match_anywhere(&p, path)
    }
}

/// Whether one of `patterns` matches the file at `path`.
pub fn matches_any(patterns: &Vec<String>, path: &Vec<char>) -> (found: bool)
    ensures
        found == any_matches(views(patterns@), path@),
{
    let ghost all = views(patterns@);
    let mut k: usize = 0;
    while k < patterns.len()
        invariant
            k <= patterns.len(),
            all == views(patterns@),
            forall|q: int| 0 <= q < k ==> !pattern_matches(#[trigger] all[q], path@),
        decreases patterns.len() - k,
    {
        assert(all[k as int] == patterns@[k as int]@);
        if matches_pattern(&chars_of(patterns[k].as_str()), path) {
            return true;
        }
        k += 1;
    }
    false
}

/// The path of the file at `path` relative to the directory `root`, where
/// the file lies in that directory.
pub fn make_relative(root: &Vec<char>, path: &Vec<char>) -> (inner: Option<Vec<char>>)
    ensures
        match inner {
            Some(rest) => relative_to(root@, path@) == Some(rest@),
            None => relative_to(root@, path@) is None,
        },
{
    if root.len() == 0 || chars_eq(root, &chars_of(".")) {
        return Some(slice_chars(path, 0, path.len()));
    }
    let mut prefix = slice_chars(root, 0, root.len());
    prefix.push('/');
    proof {
        reveal_strlit("/");
        assert(prefix@ =~= root@ + "/"@);
    }
    if occurs_at_chars(path, &prefix, 0) {
        Some(slice_chars(path, prefix.len(), path.len()))
    } else {
        None
    }
}

/// Whether the file at `path` belongs to the package in `root` with the
/// patterns `included` and `excluded`.
pub fn belongs_to(root: &str, included: &Vec<String>, excluded: &Vec<String>, path: &str) -> (yes:
    bool)
    ensures
        yes == belongs(root@, views(included@), views(excluded@), path@),
{
    match make_relative(&chars_of(root), &chars_of(path)) {
        Some(inner) => {
            (included.len() == 0 || matches_any(included, &inner)) && !matches_any(
                excluded,
                &inner,
            )
        },
        None => false,
    }
}

} // verus!
