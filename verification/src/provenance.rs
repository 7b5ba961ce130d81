//! Producer provenance and precedence for the Feed processing pipeline.

use vstd::prelude::*;
use crate::text::{to_chars, to_string};

verus! {

pub const EXTRACTION_REVISION: &'static str = "comms-extraction-v1";
pub const NORMALIZATION_REVISION: &'static str = "comms-normalization-v1";
pub const HUMAN_VERDICT_REVISION: &'static str = "human-verdict-v1";

/// Which producer tier ran a stage, at which revision, and when.
pub struct StageProvenance {
    pub stage: String,
    pub tier: String,
    pub revision: String,
    pub completed_at: String,
}

impl StageProvenance {
    pub open spec fn pending_of(&self, tier: Seq<char>, revision: Seq<char>) -> bool {
        &&& self.stage@ == Seq::<char>::empty()
        &&& self.tier@ == tier
        &&& self.revision@ == revision
        &&& self.completed_at@ == Seq::<char>::empty()
    }

    pub fn legacy(revision: &str) -> (r: Self)
        ensures
            r.pending_of("legacy"@, revision@),
    {
        Self::pending("legacy", revision)
    }

    pub fn deterministic(revision: &str) -> (r: Self)
        ensures
            r.pending_of("deterministic"@, revision@),
    {
        Self::pending("deterministic", revision)
    }

    pub fn model(revision: &str) -> (r: Self)
        ensures
            r.pending_of("model"@, revision@),
    {
        Self::pending("model", revision)
    }

    pub fn human(revision: &str) -> (r: Self)
        ensures
            r.pending_of("human"@, revision@),
    {
        Self::pending("human", revision)
    }

    fn pending(tier: &str, revision: &str) -> (r: Self)
        ensures
            r.pending_of(tier@, revision@),
    {
        Self {
            stage: String::new(),
            tier: to_string(&to_chars(tier)),
            revision: to_string(&to_chars(revision)),
            completed_at: String::new(),
        }
    }
}

/// The precedence of a producer tier; unknown tiers have none.
pub open spec fn tier_rank_of(tier: Seq<char>) -> Option<i16> {
    if tier == "legacy"@ {
        Some(0)
    } else if tier == "deterministic"@ {
        Some(10)
    } else if tier == "model"@ {
        Some(20)
    } else if tier == "human"@ {
        Some(30)
    } else {
        None
    }
}

pub fn tier_rank(tier: &str) -> (r: Option<i16>)
    ensures
        r == tier_rank_of(tier@),
{
    let t = to_chars(tier);
    if crate::text::chars_eq(&t, &to_chars("legacy")) {
        Some(0)
    } else if crate::text::chars_eq(&t, &to_chars("deterministic")) {
        Some(10)
    } else if crate::text::chars_eq(&t, &to_chars("model")) {
        Some(20)
    } else if crate::text::chars_eq(&t, &to_chars("human")) {
        Some(30)
    } else {
        None
    }
}

/// The tier a ranking mode was produced at.
pub open spec fn ranking_tier_of(mode: Seq<char>) -> Seq<char> {
    if mode == "reranked"@ || mode == "semantic"@ {
        "model"@
    } else {
        "deterministic"@
    }
}

pub fn ranking_tier(mode: &str) -> (r: &'static str)
    ensures
        r@ == ranking_tier_of(mode@),
{
    let m = to_chars(mode);
    if crate::text::chars_eq(&m, &to_chars("reranked")) || crate::text::chars_eq(
        &m,
        &to_chars("semantic"),
    ) {
        "model"
    } else {
        "deterministic"
    }
}

/// The four tiers have one strict order: legacy, deterministic, model, human.
pub proof fn tiers_are_strictly_ordered()
    ensures
        tier_rank_of("legacy"@) matches Some(a) && tier_rank_of("deterministic"@) matches Some(b)
            && tier_rank_of("model"@) matches Some(c) && tier_rank_of("human"@) matches Some(d)
            && a < b && b < c && c < d,
{
    reveal_strlit("legacy");
    reveal_strlit("deterministic");
    reveal_strlit("model");
    reveal_strlit("human");
    assert("legacy"@.len() == 6);
    assert("deterministic"@.len() == 13);
    assert("model"@.len() == 5);
    assert("human"@.len() == 5);
    assert("model"@[0] != "human"@[0]);
}

/// A ranking is only ever attributed to one of two known tiers.
pub proof fn ranking_tiers_are_ranked(mode: Seq<char>)
    ensures
        tier_rank_of(ranking_tier_of(mode)) is Some,
{
    reveal_strlit("legacy");
    reveal_strlit("deterministic");
    reveal_strlit("model");
    assert("legacy"@.len() == 6);
    assert("deterministic"@.len() == 13);
    assert("model"@.len() == 5);
}

} // verus!
