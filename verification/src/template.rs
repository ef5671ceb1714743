//! The templates of the title and the body of the request: text in which
//! `{{ name }}` stands for the value of the variable `name`.
//!
//! The variables `count`, `releases`, `breaking_changes` and `changelogs`
//! speak of all releases of the plan and are always there. The variables
//! `package`, `version`, `previous_version`, `changelog` and
//! `compatibility` speak of the one release of a plan that has exactly
//! one; in any other plan they are not available.

use crate::text::{
    chars_eq, chars_of, decimal, decimal_chars, push_chars, push_str, slice_chars, string_of,
    trim, trim_chars,
};
use vstd::prelude::*;

verus! {

/// Why a template cannot be rendered.
#[derive(Debug)]
pub enum TemplateError {
    /// A `{{` is not followed by a `}}`.
    Unclosed,
    /// The template names a variable that does not exist.
    UnknownVariable { name: String },
    /// The template names a variable of a single release, and the plan has
    /// none or several.
    UnavailableVariable { name: String },
}

/// Why a template cannot be rendered, as plain values.
pub enum TemplateFault {
    Unclosed,
    UnknownVariable { name: Seq<char> },
    UnavailableVariable { name: Seq<char> },
}

impl View for TemplateError {
    type V = TemplateFault;

    open spec fn view(&self) -> TemplateFault {
        match *self {
            TemplateError::Unclosed => TemplateFault::Unclosed,
            TemplateError::UnknownVariable { name } => TemplateFault::UnknownVariable {
                name: name@,
            },
            TemplateError::UnavailableVariable { name } => TemplateFault::UnavailableVariable {
                name: name@,
            },
        }
    }
}

/// The words for a template that cannot be rendered: they name the
/// variable that is at fault.
pub open spec fn fault_words(fault: TemplateFault) -> Seq<char> {
    match fault {
        TemplateFault::Unclosed => "a `{{` is not closed by `}}`"@,
        TemplateFault::UnknownVariable { name } => "the `"@ + name + "` variable does not exist"@,
        TemplateFault::UnavailableVariable { name } => "the `"@ + name
            + "` variable is not available"@,
    }
}

impl TemplateError {
    /// The words for this error.
    pub fn message(&self) -> (words: String)
        ensures
            words@ == fault_words(self@),
    {
        match self {
            TemplateError::Unclosed => "a `{{` is not closed by `}}`".to_owned(),
            TemplateError::UnknownVariable { name } => {
                let mut out = chars_of("the `");
                push_str(&mut out, name.as_str());
                push_str(&mut out, "` variable does not exist");
                string_of(&out)
            },
            TemplateError::UnavailableVariable { name } => {
                let mut out = chars_of("the `");
                push_str(&mut out, name.as_str());
                push_str(&mut out, "` variable is not available");
                string_of(&out)
            },
        }
    }
}

/// The values of the variables that speak of the one release of a plan.
#[derive(Debug)]
pub struct SingleRelease {
    pub package: String,
    pub version: String,
    pub previous_version: String,
    pub changelog: String,
    pub compatibility: String,
}

/// The values of the variables of a template.
#[derive(Debug)]
pub struct TemplateContext {
    /// The number of releases.
    pub count: u64,
    /// The releases, one line each.
    pub releases: String,
    /// What the checks have to say of the releases that break an interface.
    pub breaking_changes: String,
    /// The changelog sections of the releases.
    pub changelogs: String,
    /// The one release, where the plan has exactly one.
    pub single: Option<SingleRelease>,
}

/// The values of the variables of a single release, as plain values.
pub struct SingleView {
    pub package: Seq<char>,
    pub version: Seq<char>,
    pub previous_version: Seq<char>,
    pub changelog: Seq<char>,
    pub compatibility: Seq<char>,
}

/// The values of the variables of a template, as plain values.
pub struct ContextView {
    pub count: nat,
    pub releases: Seq<char>,
    pub breaking_changes: Seq<char>,
    pub changelogs: Seq<char>,
    pub single: Option<SingleView>,
}

impl View for SingleRelease {
    type V = SingleView;

    open spec fn view(&self) -> SingleView {
        SingleView {
            package: self.package@,
            version: self.version@,
            previous_version: self.previous_version@,
            changelog: self.changelog@,
            compatibility: self.compatibility@,
        }
    }
}

impl View for TemplateContext {
    type V = ContextView;

    open spec fn view(&self) -> ContextView {
        ContextView {
            count: self.count as nat,
            releases: self.releases@,
            breaking_changes: self.breaking_changes@,
            changelogs: self.changelogs@,
            single: match self.single {
                Some(single) => Some(single@),
                None => None,
            },
        }
    }
}

/// The index of the first place in `s` at which `c` stands twice in a
/// row, or the length of `s` where there is none.
pub open spec fn pair_position(s: Seq<char>, c: char) -> nat
    decreases s.len(),
{
    if s.len() < 2 {
        s.len()
    } else if s[0] == c && s[1] == c {
        0
    } else {
        1 + pair_position(s.drop_first(), c)
    }
}

/// The value of the variable `name` of a single release.
pub open spec fn single_value(single: SingleView, name: Seq<char>) -> Option<Seq<char>> {
    if name == "package"@ {
        Some(single.package)
    } else if name == "version"@ {
        Some(single.version)
    } else if name == "previous_version"@ {
        Some(single.previous_version)
    } else if name == "changelog"@ {
        Some(single.changelog)
    } else if name == "compatibility"@ {
        Some(single.compatibility)
    } else {
        None
    }
}

/// Whether `name` is a variable of a single release.
pub open spec fn is_single_name(name: Seq<char>) -> bool {
    name == "package"@ || name == "version"@ || name == "previous_version"@ || name
        == "changelog"@ || name == "compatibility"@
}

/// The value of the variable `name`.
pub open spec fn value_of(context: ContextView, name: Seq<char>) -> Result<
    Seq<char>,
    TemplateFault,
> {
    if name == "count"@ {
        Ok(decimal(context.count))
    } else if name == "releases"@ {
        Ok(context.releases)
    } else if name == "breaking_changes"@ {
        Ok(context.breaking_changes)
    } else if name == "changelogs"@ {
        Ok(context.changelogs)
    } else if is_single_name(name) {
        match context.single {
            Some(single) => match single_value(single, name) {
                Some(value) => Ok(value),
                None => Err(TemplateFault::UnknownVariable { name }),
            },
            None => Err(TemplateFault::UnavailableVariable { name }),
        }
    } else {
        Err(TemplateFault::UnknownVariable { name })
    }
}

/// The template with each `{{ name }}` replaced by the value of `name`,
/// from left to right; the first fault on the way is the result. The white
/// space around a name does not count.
pub open spec fn rendered(template: Seq<char>, context: ContextView) -> Result<
    Seq<char>,
    TemplateFault,
>
    decreases template.len(),
{
    let open = pair_position(template, '{') as int;
    if open + 2 > template.len() {
        Ok(template)
    } else {
        let inner = template.skip(open + 2);
        let close = pair_position(inner, '}') as int;
        if close + 2 > inner.len() {
            Err(TemplateFault::Unclosed)
        } else {
            match value_of(context, trim(inner.take(close))) {
                Err(fault) => Err(fault),
                Ok(value) => match rendered(inner.skip(close + 2), context) {
                    Err(fault) => Err(fault),
                    Ok(rest) => Ok(template.take(open) + value + rest),
                },
            }
        }
    }
}

/// Whether `c` stands at index `k` of `s` and right after it.
pub open spec fn pair_at(s: Seq<char>, c: char, k: int) -> bool {
    0 <= k && k + 1 < s.len() && s[k] == c && s[k + 1] == c
}

/// An index at which `c` stands twice in a row, and before which it does
/// not, is the one that `pair_position` returns; so is the length of a
/// text in which it never does.
pub proof fn lemma_pair_position_is(s: Seq<char>, c: char, i: int)
    requires
        0 <= i <= s.len(),
        i < s.len() ==> pair_at(s, c, i),
        forall|k: int| 0 <= k < i ==> !pair_at(s, c, k),
    ensures
        pair_position(s, c) == i,
    decreases s.len(),
{
    if s.len() < 2 {
        if i < s.len() {
            assert(pair_at(s, c, i));
        }
    } else if s[0] == c && s[1] == c {
        assert(pair_at(s, c, 0));
    } else {
        let t = s.drop_first();
        assert(!pair_at(s, c, 0));
        if i < s.len() {
            assert(pair_at(s, c, i));
        }
        assert forall|k: int| 0 <= k < i - 1 implies !pair_at(t, c, k) by {
            assert(!pair_at(s, c, k + 1));
            if k + 1 < t.len() {
                assert(t[k] == s[k + 1] && t[k + 1] == s[k + 2]);
            }
        }
        if i < s.len() {
            assert(t[i - 1] == s[i] && t[i] == s[i + 1]);
            assert(pair_at(t, c, i - 1));
        }
        lemma_pair_position_is(t, c, i - 1);
    }
}

/// The index of the first place at or after `start` at which `c` stands
/// twice in a row, or the length of `s`.
fn find_pair(s: &Vec<char>, start: usize, c: char) -> (i: usize)
    requires
        start <= s.len(),
    ensures
        start <= i <= s.len(),
        i < s.len() ==> i + 2 <= s.len(),
        i - start == pair_position(s@.skip(start as int), c),
{
    let mut i: usize = start;
    let ghost rest = s@.skip(start as int);
    while i < s.len() && !(i + 1 < s.len() && s[i] == c && s[i + 1] == c)
        invariant
            start <= i <= s.len(),
            forall|k: int| start <= k < i ==> !pair_at(s@, c, k),
        decreases s.len() - i,
    {
        i += 1;
    }
    proof {
        assert forall|k: int| 0 <= k < i - start implies !pair_at(rest, c, k) by {
            assert(!pair_at(s@, c, start + k));
            if k + 1 < rest.len() {
                assert(rest[k] == s@[start + k] && rest[k + 1] == s@[start + k + 1]);
            }
        }
        if i < s.len() {
            assert(rest[i - start] == s@[i as int] && rest[i - start + 1] == s@[i + 1]);
        }
        lemma_pair_position_is(rest, c, i - start);
    }
    i
}

/// The outcome `rest` of rendering what follows, with `before` put in
/// front of the text.
pub open spec fn prefixed(before: Seq<char>, rest: Result<Seq<char>, TemplateFault>) -> Result<
    Seq<char>,
    TemplateFault,
> {
    match rest {
        Ok(text) => Ok(before + text),
        Err(fault) => Err(fault),
    }
}

/// The value of the variable `name`.
fn lookup(context: &TemplateContext, name: &Vec<char>) -> (out: Result<Vec<char>, TemplateError>)
    ensures
        match out {
            Ok(value) => value_of(context@, name@) == Ok::<Seq<char>, TemplateFault>(value@),
            Err(error) => value_of(context@, name@) == Err::<Seq<char>, TemplateFault>(error@),
        },
{
    if chars_eq(name, &chars_of("count")) {
        Ok(decimal_chars(context.count))
    } else if chars_eq(name, &chars_of("releases")) {
        Ok(chars_of(context.releases.as_str()))
    } else if chars_eq(name, &chars_of("breaking_changes")) {
        Ok(chars_of(context.breaking_changes.as_str()))
    } else if chars_eq(name, &chars_of("changelogs")) {
        Ok(chars_of(context.changelogs.as_str()))
    } else {
        let which: u8 = if chars_eq(name, &chars_of("package")) {
            1
        } else if chars_eq(name, &chars_of("version")) {
            2
        } else if chars_eq(name, &chars_of("previous_version")) {
            3
        } else if chars_eq(name, &chars_of("changelog")) {
            4
        } else if chars_eq(name, &chars_of("compatibility")) {
            5
        } else {
            0
        };
        if which == 0 {
            return Err(TemplateError::UnknownVariable { name: string_of(name) });
        }
        match &context.single {
            None => Err(TemplateError::UnavailableVariable { name: string_of(name) }),
            Some(single) => {
                if which == 1 {
                    Ok(chars_of(single.package.as_str()))
                } else if which == 2 {
                    Ok(chars_of(single.version.as_str()))
                } else if which == 3 {
                    Ok(chars_of(single.previous_version.as_str()))
                } else if which == 4 {
                    Ok(chars_of(single.changelog.as_str()))
                } else {
                    Ok(chars_of(single.compatibility.as_str()))
                }
            },
        }
    }
}

/// The template with each `{{ name }}` replaced by the value that
/// `context` gives the variable `name`. The error is that of the first
/// placeholder, from the left, that cannot be replaced: it is not closed,
/// it names no variable, or it names a variable of a single release where
/// the plan has not exactly one.
pub fn render(template: &str, context: &TemplateContext) -> (out: Result<String, TemplateError>)
    ensures
        match out {
            Ok(text) => rendered(template@, context@) == Ok::<Seq<char>, TemplateFault>(text@),
            Err(error) => rendered(template@, context@) == Err::<Seq<char>, TemplateFault>(
                error@,
            ),
        },
{
    let t = chars_of(template);
    let mut out: Vec<char> = Vec::new();
    let mut pos: usize = 0;
    proof {
        assert(t@.skip(0) =~= t@);
        match rendered(t@, context@) {
            Ok(text) => {
                assert(out@ + text =~= text);
            },
            Err(_) => {},
        }
    }
    while pos < t.len()
        invariant
            pos <= t.len(),
            t@ == template@,
            rendered(t@, context@) == prefixed(out@, rendered(t@.skip(pos as int), context@)),
        decreases t.len() - pos,
    {
        let ghost rest = t@.skip(pos as int);
        let ghost done = out@;
        let open = find_pair(&t, pos, '{');
        if open >= t.len() {
            push_chars(&mut out, &slice_chars(&t, pos, t.len()));
            proof {
                assert(rendered(rest, context@) == Ok::<Seq<char>, TemplateFault>(rest));
                assert(t@.subrange(pos as int, t.len() as int) =~= rest);
                let end = t@.skip(t.len() as int);
                assert(end =~= Seq::<char>::empty());
                assert(rendered(end, context@) == Ok::<Seq<char>, TemplateFault>(end));
                assert(out@ + end =~= done + rest);
            }
            pos = t.len();
        } else {
            let close = find_pair(&t, open + 2, '}');
            let ghost inner = rest.skip(open - pos + 2);
            assert(inner =~= t@.skip(open + 2));
            if close >= t.len() {
                return Err(TemplateError::Unclosed);
            }
            let name = trim_chars(&slice_chars(&t, open + 2, close));
            assert(inner.take(close - open - 2) =~= t@.subrange(open + 2, close as int));
            assert(inner.skip(close - open - 2 + 2) =~= t@.skip(close + 2));
            assert(rest.take(open - pos) =~= t@.subrange(pos as int, open as int));
            match lookup(context, &name) {
                Err(error) => {
                    return Err(error);
                },
                Ok(value) => {
                    push_chars(&mut out, &slice_chars(&t, pos, open));
                    push_chars(&mut out, &value);
                    proof {
                        let after = rendered(t@.skip(close + 2), context@);
                        match after {
                            Ok(tail) => {
                                assert(done + (rest.take(open - pos) + value@ + tail) =~= out@
                                    + tail);
                            },
                            Err(_) => {},
                        }
                    }
                    pos = close + 2;
                },
            }
        }
    }
    proof {
        let end = t@.skip(pos as int);
        assert(end =~= Seq::<char>::empty());
        assert(out@ + end =~= out@);
    }
    Ok(string_of(&out))
}

} // verus!
