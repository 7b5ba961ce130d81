//! The bookkeeping of a relevance scoring pass.
//!
//! Items go to the embedder in chunks of `EMBED_CHUNK_SIZE`, after one call
//! for the profile set. A chunk that does not come back costs that chunk,
//! not the pass: its items fall back to the lexical space and the rest keep
//! their semantic scores. The scores themselves are floating point and are
//! computed around this library; which space each item was scored in, how
//! many calls were made and failed, and what the pass reports, are decided
//! here.

use vstd::prelude::*;
use crate::relevance::{item_document, item_text};
use crate::store::FeedItem;
use crate::text::string_views;

verus! {

/// Items per embedding call.
pub const EMBED_CHUNK_SIZE: usize = 32;

/// The stable class of an embedding failure: the server answered wrongly,
/// or it could not be reached. Never the provider's own message.
pub open spec fn failure_class(reachable: bool) -> Seq<char> {
    if reachable {
        "embedding-failed"@
    } else {
        "embedding-unreachable"@
    }
}

pub fn embed_failure_class(reachable: bool) -> (r: &'static str)
    ensures
        r@ == failure_class(reachable),
{
    if reachable {
        "embedding-failed"
    } else {
        "embedding-unreachable"
    }
}

/// The item ranges of the embedding calls for `n` items, in order.
pub open spec fn chunk_range(n: nat, k: nat) -> (nat, nat) {
    let start = k * (EMBED_CHUNK_SIZE as nat);
    let end = if start + EMBED_CHUNK_SIZE as nat <= n { start + EMBED_CHUNK_SIZE as nat } else { n };
    (start, end)
}

pub fn chunk_bounds(n: usize) -> (r: Vec<(usize, usize)>)
    ensures
        r@.len() * (EMBED_CHUNK_SIZE as nat) >= n,
        r@.len() == 0 || (r@.len() - 1) * (EMBED_CHUNK_SIZE as nat) < n,
        forall|k: int| 0 <= k < r@.len() ==> (#[trigger] r@[k]).0 as nat == chunk_range(n as nat, k as nat).0
            && r@[k].1 as nat == chunk_range(n as nat, k as nat).1,
{
    let mut out: Vec<(usize, usize)> = Vec::new();
    let mut start: usize = 0;
    while start < n
        invariant
            start <= n,
            start as nat == if out@.len() * (EMBED_CHUNK_SIZE as nat) <= n {
                out@.len() * (EMBED_CHUNK_SIZE as nat)
            } else {
                n as nat
            },
            out@.len() == 0 || (out@.len() - 1) * (EMBED_CHUNK_SIZE as nat) < n,
            forall|k: int| 0 <= k < out@.len() ==> (#[trigger] out@[k]).0 as nat == chunk_range(n as nat, k as nat).0
                && out@[k].1 as nat == chunk_range(n as nat, k as nat).1,
        decreases n - start,
    {
        let end = if n - start >= EMBED_CHUNK_SIZE {
            start + EMBED_CHUNK_SIZE
        } else {
            n
        };
        assert(start as nat == out@.len() * (EMBED_CHUNK_SIZE as nat));
        out.push((start, end));
        assert((out@.len() - 1) * (EMBED_CHUNK_SIZE as nat) == start);
        start = end;
    }
    out
}

pub open spec fn class_view(o: Option<&str>) -> Option<Seq<char>> {
    match o {
        Some(c) => Some(c@),
        None => None,
    }
}

/// What a pass's embedding calls came to.
pub struct EmbedLedger {
    /// Embedding calls attempted.
    pub chunks: usize,
    /// Calls that did not give one vector per input.
    pub chunks_failed: usize,
    /// The class of the first failure.
    pub error_class: Option<&'static str>,
    /// For each item in order: whether it was embedded (semantic) rather than
    /// scored in the lexical space.
    pub semantic: Vec<bool>,
}

impl EmbedLedger {
    pub fn new() -> (r: Self)
        ensures
            r.chunks == 0,
            r.chunks_failed == 0,
            r.error_class is None,
            r.semantic@.len() == 0,
    {
        EmbedLedger { chunks: 0, chunks_failed: 0, error_class: None, semantic: Vec::new() }
    }

    /// The call for the profile set; `reachable` is probed only on failure.
    pub fn profile_call(&mut self, embedded: bool, reachable: bool)
        requires
            old(self).chunks < usize::MAX,
            old(self).chunks_failed < usize::MAX,
        ensures
            final(self).chunks == old(self).chunks + 1,
            final(self).chunks_failed == old(self).chunks_failed + if embedded { 0int } else { 1 },
            class_view(final(self).error_class) == if embedded {
                class_view(old(self).error_class)
            } else {
                Some(failure_class(reachable))
            },
            final(self).semantic@ == old(self).semantic@,
    {
        self.chunks = self.chunks + 1;
        if !embedded {
            self.chunks_failed = self.chunks_failed + 1;
            self.error_class = Some(embed_failure_class(reachable));
        }
    }

    /// One chunk of `len` items. It is sent only when an embedding role
    /// exists and the profile set was embedded (`attempted`); its items are
    /// semantic only when it came back whole.
    pub fn chunk(&mut self, len: usize, attempted: bool, embedded: bool, reachable: bool)
        requires
            old(self).chunks < usize::MAX,
            old(self).chunks_failed < usize::MAX,
        ensures
            final(self).chunks == old(self).chunks + if attempted { 1int } else { 0 },
            final(self).chunks_failed == old(self).chunks_failed + if attempted && !embedded { 1int } else { 0 },
            class_view(final(self).error_class) == if attempted && !embedded && old(self).error_class is None {
                Some(failure_class(reachable))
            } else {
                class_view(old(self).error_class)
            },
            final(self).semantic@ == old(self).semantic@ + Seq::new(len as nat, |i: int| attempted && embedded),
    {
        if attempted {
            self.chunks = self.chunks + 1;
            if !embedded {
                self.chunks_failed = self.chunks_failed + 1;
                if self.error_class.is_none() {
                    self.error_class = Some(embed_failure_class(reachable));
                }
            }
        }
        let flag = attempted && embedded;
        let ghost before = self.semantic@;
        let ghost chunks = self.chunks;
        let ghost failed = self.chunks_failed;
        let ghost class = self.error_class;
        let mut i: usize = 0;
        while i < len
            invariant
                i <= len,
                self.chunks == chunks,
                self.chunks_failed == failed,
                self.error_class == class,
                self.semantic@ == before + Seq::new(i as nat, |j: int| flag),
            decreases len - i,
        {
            self.semantic.push(flag);
            assert(before + Seq::new((i + 1) as nat, |j: int| flag) =~= (before + Seq::new(i as nat, |j: int| flag)).push(flag));
            i += 1;
        }
    }
}

/// The mode a whole pass reports: `unscored` when there was no lens or no
/// admitted item, else the strongest mode any item actually got.
pub open spec fn pass_mode_of(has_profiles: bool, any_allowed: bool, any_reranked: bool, any_semantic: bool) -> Seq<char> {
    if !has_profiles || !any_allowed {
        "unscored"@
    } else if any_reranked {
        "reranked"@
    } else if any_semantic {
        "semantic"@
    } else {
        "lexical"@
    }
}

pub fn pass_mode(has_profiles: bool, any_allowed: bool, any_reranked: bool, any_semantic: bool) -> (r: &'static str)
    ensures
        r@ == pass_mode_of(has_profiles, any_allowed, any_reranked, any_semantic),
{
    if !has_profiles || !any_allowed {
        "unscored"
    } else if any_reranked {
        "reranked"
    } else if any_semantic {
        "semantic"
    } else {
        "lexical"
    }
}

/// The positions of the items the class ladder admits, in order.
pub fn admitted_positions(allowed: &Vec<bool>) -> (r: Vec<usize>)
    ensures
        r@ == Seq::new(allowed@.len(), |i: int| i).filter(|i: int| allowed@[i]).map_values(|i: int| i as usize),
{
    let ghost all = Seq::new(allowed@.len(), |i: int| i);
    let ghost keep = |i: int| allowed@[i];
    let mut out: Vec<usize> = Vec::new();
    let mut i: usize = 0;
    while i < allowed.len()
        invariant
            i <= allowed@.len(),
            all == Seq::new(allowed@.len(), |i: int| i),
            keep == (|i: int| allowed@[i]),
            out@ == all.take(i as int).filter(keep).map_values(|i: int| i as usize),
        decreases allowed.len() - i,
    {
        proof {
            reveal_with_fuel(Seq::<_>::filter, 1);
            assert(all.take(i + 1).drop_last() == all.take(i as int));
            assert(all.take(i + 1).last() == i as int);
        }
        if allowed[i] {
            out.push(i);
            assert(out@ =~= all.take(i + 1).filter(keep).map_values(|i: int| i as usize));
        } else {
            assert(all.take(i + 1).filter(keep) == all.take(i as int).filter(keep));
        }
        i += 1;
    }
    assert(all.take(allowed@.len() as int) == all);
    out
}

/// Whether item `i`'s `k`-th candidate profile got a rerank score.
pub open spec fn candidate_scored(candidates: Seq<Vec<usize>>, scored: Seq<Vec<bool>>, i: int, k: int) -> bool {
    let p = candidates[i]@[k] as int;
    p < scored[i]@.len() && scored[i]@[p]
}

/// Whether the reranker scored every selected candidate: `scored[i][p]`
/// says whether item `i` got a score for profile `p`.
pub fn rerank_complete(candidates: &Vec<Vec<usize>>, scored: &Vec<Vec<bool>>) -> (r: bool)
    requires
        scored@.len() == candidates@.len(),
    ensures
        r == forall|i: int, k: int|
            0 <= i < candidates@.len() && 0 <= k < candidates@[i]@.len() ==> #[trigger] candidate_scored(
                candidates@,
                scored@,
                i,
                k,
            ),
{
    let mut i: usize = 0;
    while i < candidates.len()
        invariant
            i <= candidates@.len(),
            scored@.len() == candidates@.len(),
            forall|a: int, k: int|
                0 <= a < i && 0 <= k < candidates@[a]@.len() ==> #[trigger] candidate_scored(
                    candidates@,
                    scored@,
                    a,
                    k,
                ),
        decreases candidates.len() - i,
    {
        let mut k: usize = 0;
        while k < candidates[i].len()
            invariant
                i < candidates@.len(),
                scored@.len() == candidates@.len(),
                k <= candidates@[i as int]@.len(),
                forall|m: int|
                    0 <= m < k ==> #[trigger] candidate_scored(candidates@, scored@, i as int, m),
            decreases candidates@[i as int]@.len() - k,
        {
            let p = candidates[i][k];
            if p >= scored[i].len() || !scored[i][p] {
                assert(!candidate_scored(candidates@, scored@, i as int, k as int));
                return false;
            }
            k += 1;
        }
        i += 1;
    }
    true
}


/// What a scoring pass hands on, to the embedder and to the lexical fallback
/// alike: the document of each admitted item, in order.
pub open spec fn admitted_docs(items: Seq<FeedItem>, allowed: Seq<bool>) -> Seq<Seq<char>> {
    Seq::new(items.len(), |i: int| i).filter(|i: int| allowed[i]).map_values(
        |i: int| item_text(items[i]),
    )
}

/// The documents of the admitted items, in order. `allowed[i]` is whether the
/// class ladder admits `items[i]` to a local prompt; a refused item is left
/// out here, before any text leaves the process.
pub fn admitted_documents(items: &[FeedItem], allowed: &Vec<bool>) -> (r: Vec<String>)
    requires
        allowed@.len() == items@.len(),
    ensures
        string_views(r@) == admitted_docs(items@, allowed@),
{
    let ghost all = Seq::new(items@.len(), |i: int| i);
    let ghost keep = |i: int| allowed@[i];
    let ghost doc = |i: int| item_text(items@[i]);
    let mut out: Vec<String> = Vec::new();
    let mut i: usize = 0;
    while i < items.len()
        invariant
            i <= items@.len(),
            allowed@.len() == items@.len(),
            all == Seq::new(items@.len(), |i: int| i),
            keep == (|i: int| allowed@[i]),
            doc == (|i: int| item_text(items@[i])),
            string_views(out@) == all.take(i as int).filter(keep).map_values(doc),
        decreases items.len() - i,
    {
        proof {
            reveal_with_fuel(Seq::<_>::filter, 1);
            assert(all.take(i + 1).drop_last() == all.take(i as int));
            assert(all.take(i + 1).last() == i as int);
        }
        if allowed[i] {
            let d = item_document(&items[i]);
            let ghost before = out@;
            out.push(d);
            assert(string_views(out@) =~= string_views(before).push(d@));
            assert(all.take(i + 1).filter(keep) == all.take(i as int).filter(keep).push(i as int));
            assert(string_views(out@) =~= all.take(i + 1).filter(keep).map_values(doc));
        } else {
            assert(all.take(i + 1).filter(keep) == all.take(i as int).filter(keep));
        }
        i += 1;
    }
    assert(all.take(items@.len() as int) == all);
    out
}

/// A refused item contributes nothing to what a pass hands on: whatever it
/// holds, every document sent to the embedder or scored lexically is the
/// same.
pub proof fn a_refused_item_contributes_nothing(
    items: Seq<FeedItem>,
    allowed: Seq<bool>,
    j: int,
    other: FeedItem,
)
    requires
        allowed.len() == items.len(),
        0 <= j < items.len(),
        !allowed[j],
    ensures
        admitted_docs(items.update(j, other), allowed) == admitted_docs(items, allowed),
{
    let all = Seq::new(items.len(), |i: int| i);
    let keep = |i: int| allowed[i];
    let f = all.filter(keep);
    let changed = items.update(j, other);
    assert(Seq::new(changed.len(), |i: int| i) =~= all);
    assert forall|k: int| 0 <= k < f.len() implies #[trigger] f[k] != j by {
        all.lemma_filter_pred(keep, k);
    }
    assert forall|k: int| 0 <= k < f.len() implies 0 <= #[trigger] f[k] < items.len() by {
        all.lemma_filter_pred(keep, k);
        lemma_filter_in_range(items.len() as int, keep, k);
    }
    assert(f.map_values(|i: int| item_text(changed[i])) =~= f.map_values(
        |i: int| item_text(items[i]),
    ));
}

proof fn lemma_filter_in_range(n: int, keep: spec_fn(int) -> bool, k: int)
    requires
        0 <= n,
        0 <= k < Seq::new(n as nat, |i: int| i).filter(keep).len(),
    ensures
        0 <= Seq::new(n as nat, |i: int| i).filter(keep)[k] < n,
{
    let all = Seq::new(n as nat, |i: int| i);
    let x = all.filter(keep)[k];
    assert(all.filter(keep).contains(x));
    all.lemma_filter_contains_rev(keep, x);
    let idx = choose|idx: int| 0 <= idx < all.len() && all[idx] == x;
    assert(all[idx] == idx);
}

} // verus!
