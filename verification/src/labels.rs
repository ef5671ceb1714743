//! The labels of the outgoing request: which ones are acceptable, and how
//! those of a new run join those that the request has.

use crate::text::{chars_eq, chars_of, push_str, string_of, trim, trim_chars, views};
use vstd::prelude::*;

verus! {

/// The rule that a label breaks.
#[derive(Clone, Copy, Debug, PartialEq, Eq, Structural)]
pub enum LabelRule {
    /// A label is not empty.
    Empty,
    /// A label has at most 50 characters.
    TooLong,
    /// A label neither begins nor ends with white space.
    Whitespace,
    /// A label is configured once.
    Duplicate,
}

/// A label that cannot be used, and the rule it breaks.
#[derive(Debug)]
pub struct LabelError {
    pub label: String,
    pub rule: LabelRule,
}

/// A label that cannot be used and the rule it breaks, as plain values.
pub struct LabelFault {
    pub label: Seq<char>,
    pub rule: LabelRule,
}

impl View for LabelError {
    type V = LabelFault;

    open spec fn view(&self) -> LabelFault {
        LabelFault { label: self.label@, rule: self.rule }
    }
}

/// The most characters that a label may have.
pub const MAX_LABEL_LENGTH: usize = 50;

/// The first rule that the label at index `k` of `labels` breaks, if any.
pub open spec fn label_fault(labels: Seq<Seq<char>>, k: int) -> Option<LabelRule> {
    let label = labels[k];
    if label.len() == 0 {
        Some(LabelRule::Empty)
    } else if label.len() > MAX_LABEL_LENGTH {
        Some(LabelRule::TooLong)
    } else if trim(label) != label {
        Some(LabelRule::Whitespace)
    } else if labels.take(k).contains(label) {
        Some(LabelRule::Duplicate)
    } else {
        None
    }
}

/// Whether every label keeps every rule.
pub open spec fn labels_valid(labels: Seq<Seq<char>>) -> bool {
    forall|k: int| 0 <= k < labels.len() ==> label_fault(labels, k) is None
}

/// The index of the first label, at or after `from`, that breaks a rule.
pub open spec fn first_fault_from(labels: Seq<Seq<char>>, from: int) -> Option<int>
    decreases labels.len() - from,
{
    if from < 0 || from >= labels.len() {
        None
    } else if label_fault(labels, from) is Some {
        Some(from)
    } else {
        first_fault_from(labels, from + 1)
    }
}

/// What the check of the labels comes to: nothing to object to, or the
/// first label that breaks a rule with the first rule it breaks.
pub open spec fn checked(labels: Seq<Seq<char>>) -> Result<(), LabelFault> {
    match first_fault_from(labels, 0) {
        Some(k) => Err(LabelFault { label: labels[k], rule: label_fault(labels, k)->0 }),
        None => Ok(()),
    }
}

/// The check finds nothing exactly if every label keeps every rule; what
/// it finds is a label before which every label keeps every rule.
pub proof fn lemma_first_fault(labels: Seq<Seq<char>>, from: int)
    requires
        0 <= from,
    ensures
        match first_fault_from(labels, from) {
            Some(k) => from <= k < labels.len() && label_fault(labels, k) is Some && forall|
                j: int,
            | from <= j < k ==> label_fault(labels, j) is None,
            None => forall|j: int| from <= j < labels.len() ==> label_fault(labels, j) is None,
        },
    decreases labels.len() - from,
{
    if from < labels.len() && label_fault(labels, from) is None {
        lemma_first_fault(labels, from + 1);
    }
}

/// The check finds nothing exactly if every label keeps every rule.
pub proof fn law_checked_means_valid(labels: Seq<Seq<char>>)
    ensures
        checked(labels) is Ok <==> labels_valid(labels),
{
    lemma_first_fault(labels, 0);
}

/// What the rule says, as part of a sentence.
pub open spec fn rule_words(rule: LabelRule) -> Seq<char> {
    match rule {
        LabelRule::Empty => "empty labels are not allowed"@,
        LabelRule::TooLong => "it exceeds maximum length of 50 characters"@,
        LabelRule::Whitespace => "leading or trailing whitespace is not allowed"@,
        LabelRule::Duplicate => "duplicate labels are not allowed"@,
    }
}

/// The words for a label that cannot be used: they name the label and the
/// rule it breaks.
pub open spec fn label_failure(label: Seq<char>, rule: LabelRule) -> Seq<char> {
    "Failed to add label `"@ + label + "`: "@ + rule_words(rule)
}

/// The labels of a request that had `previous` after a run that is
/// configured with `configured`: those it had, in their order, then each
/// configured one that it lacks.
pub open spec fn merged_labels(previous: Seq<Seq<char>>, configured: Seq<Seq<char>>) -> Seq<
    Seq<char>,
>
    decreases configured.len(),
{
    if configured.len() == 0 {
        previous
    } else {
        let before = merged_labels(previous, configured.drop_last());
        if before.contains(configured.last()) {
            before
        } else {
            before.push(configured.last())
        }
    }
}

impl LabelError {
    /// The words for this error.
    pub fn message(&self) -> (words: String)
        ensures
            words@ == label_failure(self.label@, self.rule),
    {
        let mut chars = chars_of("Failed to add label `");
        push_str(&mut chars, self.label.as_str());
        push_str(&mut chars, "`: ");
        match self.rule {
            LabelRule::Empty => push_str(&mut chars, "empty labels are not allowed"),
            LabelRule::TooLong => push_str(
                &mut chars,
                "it exceeds maximum length of 50 characters",
            ),
            LabelRule::Whitespace => push_str(
                &mut chars,
                "leading or trailing whitespace is not allowed",
            ),
            LabelRule::Duplicate => push_str(&mut chars, "duplicate labels are not allowed"),
        }
        string_of(&chars)
    }
}

/// Whether `label` is one of the first `upto` of `labels`.
fn listed_before(labels: &Vec<Vec<char>>, upto: usize, label: &Vec<char>) -> (found: bool)
    requires
        upto <= labels.len(),
    ensures
        found == views(labels@).take(upto as int).contains(label@),
{
    let ghost front = views(labels@).take(upto as int);
    let mut i: usize = 0;
    while i < upto
        invariant
            i <= upto <= labels.len(),
            front == views(labels@).take(upto as int),
            forall|k: int| 0 <= k < i ==> front[k] != label@,
        decreases upto - i,
    {
        if chars_eq(&labels[i], label) {
            assert(front[i as int] == label@);
            return true;
        }
        assert(front[i as int] == labels@[i as int]@);
        i += 1;
    }
    false
}

/// The characters of each of `items`.
pub fn chars_of_all(items: &Vec<String>) -> (out: Vec<Vec<char>>)
    ensures
        views(out@) == views(items@),
{
    let mut out: Vec<Vec<char>> = Vec::new();
    let mut i: usize = 0;
    while i < items.len()
        invariant
            i <= items.len(),
            views(out@) == views(items@).take(i as int),
        decreases items.len() - i,
    {
        let ghost before = views(out@);
        out.push(chars_of(items[i].as_str()));
        assert(views(out@) =~= before.push(items@[i as int]@));
        assert(views(items@).take(i + 1) =~= views(items@).take(i as int).push(
            items@[i as int]@,
        ));
        i += 1;
    }
    assert(views(items@).take(i as int) =~= views(items@));
    out
}

/// Checks the configured labels, in order. The error names the first label
/// that breaks a rule, and the first rule it breaks: it is empty, longer
/// than 50 characters, begins or ends with white space, or repeats an
/// earlier label.
pub fn validate_labels(labels: &Vec<String>) -> (verdict: Result<(), LabelError>)
    ensures
        match verdict {
            Ok(_) => checked(views(labels@)) is Ok && labels_valid(views(labels@)),
            Err(error) => checked(views(labels@)) == Err::<(), LabelFault>(error@),
        },
{
    let all = chars_of_all(labels);
    let ghost texts = views(labels@);
    assert(views(all@).len() == all@.len() && texts.len() == labels@.len());
    let mut k: usize = 0;
    while k < all.len()
        invariant
            k <= all.len(),
            all.len() == labels.len(),
            views(all@) == texts,
            texts == views(labels@),
            first_fault_from(texts, 0) == first_fault_from(texts, k as int),
        decreases all.len() - k,
    {
        let label = &all[k];
        assert(texts[k as int] == label@);
        let fault = if label.len() == 0 {
            Some(LabelRule::Empty)
        } else if label.len() > MAX_LABEL_LENGTH {
            Some(LabelRule::TooLong)
        } else if !chars_eq(&trim_chars(label), label) {
            Some(LabelRule::Whitespace)
        } else if listed_before(&all, k, label) {
            Some(LabelRule::Duplicate)
        } else {
            None
        };
        assert(fault == label_fault(texts, k as int));
        match fault {
            Some(rule) => {
                assert(texts[k as int] == labels@[k as int]@);
                return Err(LabelError { label: labels[k].clone(), rule });
            },
            None => {},
        }
        k += 1;
    }
    proof {
        law_checked_means_valid(texts);
    }
    Ok(())
}

/// The labels of a request that had `previous` after a run that is
/// configured with `configured`. No label is ever taken away.
pub fn merge_labels(previous: &Vec<String>, configured: &Vec<String>) -> (merged: Vec<String>)
    ensures
        views(merged@) == merged_labels(views(previous@), views(configured@)),
{
    let mut chars = chars_of_all(previous);
    let mut merged: Vec<String> = Vec::new();
    let mut i: usize = 0;
    while i < previous.len()
        invariant
            i <= previous.len(),
            views(merged@) == views(previous@).take(i as int),
        decreases previous.len() - i,
    {
        let ghost before = views(merged@);
        merged.push(previous[i].clone());
        assert(views(merged@) =~= before.push(previous@[i as int]@));
        assert(views(previous@).take(i + 1) =~= views(previous@).take(i as int).push(
            previous@[i as int]@,
        ));
        i += 1;
    }
    assert(views(previous@).take(i as int) =~= views(previous@));
    let mut k: usize = 0;
    assert(views(configured@).take(0) =~= Seq::<Seq<char>>::empty());
    while k < configured.len()
        invariant
            k <= configured.len(),
            views(chars@) == views(merged@),
            views(merged@) == merged_labels(views(previous@), views(configured@).take(k as int)),
        decreases configured.len() - k,
    {
        let ghost before = views(merged@);
        let label = chars_of(configured[k].as_str());
        let known = listed_before(&chars, chars.len(), &label);
        proof {
            assert(views(chars@).take(chars.len() as int) =~= views(chars@));
            let upto = views(configured@).take(k + 1);
            assert(upto.drop_last() =~= views(configured@).take(k as int));
            assert(upto.last() == configured@[k as int]@);
        }
        if !known {
            merged.push(configured[k].clone());
            chars.push(label);
            assert(views(merged@) =~= before.push(configured@[k as int]@));
            assert(views(chars@) =~= before.push(configured@[k as int]@));
        }
        k += 1;
    }
    assert(views(configured@).take(k as int) =~= views(configured@));
    merged
}

/// Merging takes no label away: the labels that the request had stay, at
/// their places.
pub proof fn law_merge_keeps_previous(previous: Seq<Seq<char>>, configured: Seq<Seq<char>>)
    ensures
        previous.len() <= merged_labels(previous, configured).len(),
        merged_labels(previous, configured).take(previous.len() as int) == previous,
    decreases configured.len(),
{
    let merged = merged_labels(previous, configured);
    if configured.len() == 0 {
        assert(merged.take(previous.len() as int) =~= previous);
    } else {
        let before = merged_labels(previous, configured.drop_last());
        law_merge_keeps_previous(previous, configured.drop_last());
        assert(merged.take(previous.len() as int) =~= before.take(previous.len() as int));
    }
}

/// The merged labels are the union of those that the request had and those
/// that are configured.
pub proof fn law_merge_is_union(
    previous: Seq<Seq<char>>,
    configured: Seq<Seq<char>>,
    label: Seq<char>,
)
    ensures
        merged_labels(previous, configured).contains(label) <==> (previous.contains(label)
            || configured.contains(label)),
    decreases configured.len(),
{
    let merged = merged_labels(previous, configured);
    if configured.len() > 0 {
        let front = configured.drop_last();
        let before = merged_labels(previous, front);
        law_merge_is_union(previous, front, label);
        if merged.contains(label) {
            let k = choose|k: int| 0 <= k < merged.len() && merged[k] == label;
            if k < before.len() {
                assert(before[k] == label);
                assert(before.contains(label));
                if front.contains(label) {
                    let q = choose|q: int| 0 <= q < front.len() && front[q] == label;
                    assert(configured[q] == label);
                }
            } else {
                assert(configured[configured.len() - 1] == label);
            }
        }
        if previous.contains(label) || front.contains(label) {
            assert(before.contains(label));
            let k = choose|k: int| 0 <= k < before.len() && before[k] == label;
            assert(merged[k] == label);
        }
        if configured.contains(label) {
            let q = choose|q: int| 0 <= q < configured.len() && configured[q] == label;
            if q < front.len() {
                assert(front[q] == label);
                assert(front.contains(label));
            } else if before.contains(label) {
                let k = choose|k: int| 0 <= k < before.len() && before[k] == label;
                assert(merged[k] == label);
            } else {
                assert(merged[merged.len() - 1] == label);
            }
        }
    }
}

/// Merging the same configured labels a second time changes nothing.
pub proof fn law_merge_twice(previous: Seq<Seq<char>>, configured: Seq<Seq<char>>)
    ensures
        merged_labels(merged_labels(previous, configured), configured) == merged_labels(
            previous,
            configured,
        ),
{
    let once = merged_labels(previous, configured);
    assert forall|label: Seq<char>| configured.contains(label) implies once.contains(label) by {
        law_merge_is_union(previous, configured, label);
    }
    lemma_merge_known(once, configured, configured.len() as int);
    assert(configured.take(configured.len() as int) =~= configured);
}

/// Merging labels that are all there already changes nothing.
proof fn lemma_merge_known(labels: Seq<Seq<char>>, configured: Seq<Seq<char>>, upto: int)
    requires
        0 <= upto <= configured.len(),
        forall|label: Seq<char>| configured.contains(label) ==> labels.contains(label),
    ensures
        merged_labels(labels, configured.take(upto)) == labels,
    decreases upto,
{
    if upto > 0 {
        lemma_merge_known(labels, configured, upto - 1);
        assert(configured.take(upto).drop_last() =~= configured.take(upto - 1));
        assert(configured.contains(configured[upto - 1]));
    }
}

/// Merging labels that the request has already changes nothing.
pub proof fn law_merge_of_known_labels(labels: Seq<Seq<char>>, configured: Seq<Seq<char>>)
    requires
        forall|label: Seq<char>| configured.contains(label) ==> labels.contains(label),
    ensures
        merged_labels(labels, configured) == labels,
{
    lemma_merge_known(labels, configured, configured.len() as int);
    assert(configured.take(configured.len() as int) =~= configured);
}

} // verus!
