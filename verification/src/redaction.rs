//! Recall of the cloud redaction path against a labelled corpus.
//!
//! Each fixture lists, before any redactor ran, the values a correct
//! redaction must remove. What is measured is recall: a value that had to go
//! and is still in the prepared document is a leak. Containment is
//! case-insensitive, because a redactor that lowercased a name has still
//! leaked it.

use vstd::prelude::*;
use crate::text::{
    append, contains, contains_exec, decimal, decimal_exec, lower_exec, lowercase, to_chars, to_string,
};

verus! {

/// One value a fixture says must be removed.
pub struct Label {
    pub entity_type: String,
    pub value: String,
}

/// A labelled value still present in a prepared document.
pub struct Leak {
    pub fixture: String,
    pub language: String,
    pub entity_type: String,
    pub value: String,
}

pub type LeakView = (Seq<char>, Seq<char>, Seq<char>, Seq<char>);

impl Leak {
    pub open spec fn view(&self) -> LeakView {
        (self.fixture@, self.language@, self.entity_type@, self.value@)
    }
}

/// Whether a labelled value survived into the document.
pub open spec fn leaked(document: Seq<char>, value: Seq<char>) -> bool {
    contains(lowercase(document), lowercase(value))
}

/// The leaks of one fixture, in label order.
pub open spec fn leaks_of(document: Seq<char>, fixture: Seq<char>, language: Seq<char>, labels: Seq<Label>) -> Seq<LeakView>
    decreases labels.len(),
{
    if labels.len() == 0 {
        seq![]
    } else {
        let rest = leaks_of(document, fixture, language, labels.drop_last());
        let l = labels.last();
        if leaked(document, l.value@) {
            rest.push((fixture, language, l.entity_type@, l.value@))
        } else {
            rest
        }
    }
}

pub open spec fn leak_views(v: Seq<Leak>) -> Seq<LeakView> {
    v.map_values(|l: Leak| l.view())
}

/// Check one prepared document against its fixture's labels: the leaks,
/// and how many labels were caught.
pub fn measure(document: &str, fixture: &str, language: &str, labels: &Vec<Label>) -> (r: (Vec<Leak>, usize))
    ensures
        leak_views(r.0@) == leaks_of(document@, fixture@, language@, labels@),
        r.1 + r.0@.len() == labels@.len(),
{
    let haystack = lower_exec(&to_chars(document));
    let mut leaks: Vec<Leak> = Vec::new();
    let mut caught: usize = 0;
    let mut i: usize = 0;
    assert(labels@.take(0) =~= Seq::<Label>::empty());
    while i < labels.len()
        invariant
            i <= labels@.len(),
            haystack@ == lowercase(document@),
            leak_views(leaks@) == leaks_of(document@, fixture@, language@, labels@.take(i as int)),
            caught + leaks@.len() == i,
        decreases labels.len() - i,
    {
        let ghost prev = leaks@;
        let l = &labels[i];
        assert(labels@.take(i + 1).drop_last() =~= labels@.take(i as int));
        assert(labels@.take(i + 1).last() == labels@[i as int]);
        let needle = lower_exec(&to_chars(l.value.as_str()));
        if contains_exec(&haystack, &needle) {
            leaks.push(Leak {
                fixture: to_string(&to_chars(fixture)),
                language: to_string(&to_chars(language)),
                entity_type: to_string(&to_chars(l.entity_type.as_str())),
                value: to_string(&to_chars(l.value.as_str())),
            });
            assert(leak_views(leaks@) =~= leak_views(prev).push(
                (fixture@, language@, l.entity_type@, l.value@),
            ));
        } else {
            caught = caught + 1;
        }
        i += 1;
    }
    assert(labels@.take(labels@.len() as int) =~= labels@);
    (leaks, caught)
}


// ---------------------------------------------------------------------------
// What an evaluation run counted
// ---------------------------------------------------------------------------

/// The caught labels over every `(type, language)` cell: the sum of each
/// cell's first count.
pub open spec fn caught_sum(cells: Seq<(usize, usize)>) -> nat
    decreases cells.len(),
{
    if cells.len() == 0 {
        0
    } else {
        caught_sum(cells.drop_last()) + cells.last().0 as nat
    }
}

/// The labels checked over every cell: the sum of each cell's second count.
pub open spec fn total_sum(cells: Seq<(usize, usize)>) -> nat
    decreases cells.len(),
{
    if cells.len() == 0 {
        0
    } else {
        total_sum(cells.drop_last()) + cells.last().1 as nat
    }
}

/// The fixtures refused, over every refused data class.
pub open spec fn skipped_sum(skipped: Seq<(String, usize)>) -> nat
    decreases skipped.len(),
{
    if skipped.len() == 0 {
        0
    } else {
        skipped_sum(skipped.drop_last()) + skipped.last().1 as nat
    }
}

proof fn lemma_sums_bounded(cells: Seq<(usize, usize)>)
    ensures
        caught_sum(cells) <= cells.len() * 0xffff_ffff_ffff_ffff,
        total_sum(cells) <= cells.len() * 0xffff_ffff_ffff_ffff,
    decreases cells.len(),
{
    if cells.len() > 0 {
        lemma_sums_bounded(cells.drop_last());
    }
}

proof fn lemma_skipped_bounded(skipped: Seq<(String, usize)>)
    ensures
        skipped_sum(skipped) <= skipped.len() * 0xffff_ffff_ffff_ffff,
    decreases skipped.len(),
{
    if skipped.len() > 0 {
        lemma_skipped_bounded(skipped.drop_last());
    }
}

/// Caught and checked labels over the cells `(caught, total)` of a run.
pub fn caught_and_total(cells: &Vec<(usize, usize)>) -> (r: (u128, u128))
    ensures
        r.0 as nat == caught_sum(cells@),
        r.1 as nat == total_sum(cells@),
{
    let mut caught: u128 = 0;
    let mut total: u128 = 0;
    let mut i: usize = 0;
    while i < cells.len()
        invariant
            i <= cells@.len(),
            caught as nat == caught_sum(cells@.take(i as int)),
            total as nat == total_sum(cells@.take(i as int)),
        decreases cells.len() - i,
    {
        proof {
            lemma_sums_bounded(cells@.take(i as int));
            assert(cells@.take(i + 1).drop_last() =~= cells@.take(i as int));
            assert(i * 0xffff_ffff_ffff_ffffu128 <= 0xffff_ffff_ffff_ffffu128 * 0xffff_ffff_ffff_ffffu128) by (nonlinear_arith)
                requires
                    i <= 0xffff_ffff_ffff_ffffu128,
            ;
        }
        caught = caught + cells[i].0 as u128;
        total = total + cells[i].1 as u128;
        i += 1;
    }
    assert(cells@.take(cells.len() as int) =~= cells@);
    (caught, total)
}

/// Whether a run measured nothing: no label was checked. A gate cannot judge
/// what it did not read.
pub fn empty_measurement(cells: &Vec<(usize, usize)>) -> (r: bool)
    ensures
        r == (total_sum(cells@) == 0),
{
    let (_, total) = caught_and_total(cells);
    total == 0
}

/// The fixtures refused, over every refused data class.
pub fn skipped_fixtures(skipped: &Vec<(String, usize)>) -> (r: u128)
    ensures
        r as nat == skipped_sum(skipped@),
{
    let mut n: u128 = 0;
    let mut i: usize = 0;
    while i < skipped.len()
        invariant
            i <= skipped@.len(),
            n as nat == skipped_sum(skipped@.take(i as int)),
        decreases skipped.len() - i,
    {
        proof {
            lemma_skipped_bounded(skipped@.take(i as int));
            assert(skipped@.take(i + 1).drop_last() =~= skipped@.take(i as int));
            assert(i * 0xffff_ffff_ffff_ffffu128 <= 0xffff_ffff_ffff_ffffu128 * 0xffff_ffff_ffff_ffffu128) by (nonlinear_arith)
                requires
                    i <= 0xffff_ffff_ffff_ffffu128,
            ;
        }
        n = n + skipped[i].1 as u128;
        i += 1;
    }
    assert(skipped@.take(skipped.len() as int) =~= skipped@);
    n
}

/// Why a refused class was not measured, in words a reader can act on.
pub open spec fn skip_reason_text(data_class: Seq<char>, count: nat, refusal: Seq<char>) -> Seq<char> {
    decimal(count) + " fixture(s) refused for data_class \""@ + data_class + "\": "@ + refusal
}

/// One reason per refused class, in the order the classes are given (the
/// report keeps them sorted by class). `refusal` is the sentence the
/// preparation step refuses a local-only class with.
pub fn skip_reasons(skipped: &Vec<(String, usize)>, refusal: &str) -> (r: Vec<String>)
    ensures
        r@.len() == skipped@.len(),
        forall|i: int|
            0 <= i < skipped@.len() ==> (#[trigger] r@[i])@ == skip_reason_text(
                skipped@[i].0@,
                skipped@[i].1 as nat,
                refusal@,
            ),
{
    let mut out: Vec<String> = Vec::new();
    let mut i: usize = 0;
    while i < skipped.len()
        invariant
            i <= skipped@.len(),
            out@.len() == i,
            forall|k: int|
                0 <= k < i ==> (#[trigger] out@[k])@ == skip_reason_text(
                    skipped@[k].0@,
                    skipped@[k].1 as nat,
                    refusal@,
                ),
        decreases skipped.len() - i,
    {
        let mut v = decimal_exec(skipped[i].1 as u128);
        append(&mut v, &to_chars(" fixture(s) refused for data_class \""));
        append(&mut v, &to_chars(skipped[i].0.as_str()));
        append(&mut v, &to_chars("\": "));
        append(&mut v, &to_chars(refusal));
        out.push(to_string(&v));
        i += 1;
    }
    out
}

} // verus!
