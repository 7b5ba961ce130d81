//! When the periodic passes run.
//!
//! Two drains that share a period and start together would fire together
//! forever, contending for the same local backend. Each drain is therefore
//! offset by a fraction of its own period: the enrichment drain starts at
//! once, the digest drain half a period later, and at equal periods the two
//! never land on the same instant, whatever the period is.
//!
//! An inbox sweep that keeps failing backs off by skipping ticks rather
//! than sleeping, so a recovered connector is picked up on the next
//! ordinary tick.

use vstd::prelude::*;

verus! {

/// Phases are counted in parts of a period.
pub const PHASE_PARTS: u64 = 2;

/// The enrichment drain keeps the immediate first tick.
pub const ENRICHMENT_PHASE: u64 = 0;

/// The digest drain waits half a period.
pub const DIGEST_PHASE: u64 = 1;

/// Seconds in one period of `every_minutes`.
pub open spec fn period_secs(every_minutes: nat) -> nat {
    every_minutes * 60
}

/// How long after spawn a drain with this phase first runs.
pub open spec fn offset_secs(every_minutes: nat, phase: nat) -> nat {
    period_secs(every_minutes) * phase / (PHASE_PARTS as nat)
}

/// The `n`-th instant (from the shared spawn instant) a drain fires.
pub open spec fn fire_at(every_minutes: nat, phase: nat, n: nat) -> nat {
    offset_secs(every_minutes, phase) + n * period_secs(every_minutes)
}

/// The period of a drain, in seconds.
pub fn drain_period(every_minutes: u64) -> (r: u64)
    requires
        every_minutes * 60 <= u64::MAX,
    ensures
        r as nat == period_secs(every_minutes as nat),
{
    every_minutes * 60
}

/// How long after spawn a drain's first pass runs: `phase` parts of
/// `PHASE_PARTS` of its period.
pub fn phase_offset(period: u64, phase: u64) -> (r: u64)
    requires
        phase <= PHASE_PARTS,
    ensures
        r as nat == period as nat * phase as nat / (PHASE_PARTS as nat),
{
    assert(period as nat * phase as nat <= period as nat * 2) by (nonlinear_arith)
        requires
            phase <= 2,
    ;
    let p: u128 = period as u128 * phase as u128;
    (p / (PHASE_PARTS as u128)) as u64
}

/// A drain's schedule: `None` when it is switched off (a period of zero
/// minutes), else its period and first offset in seconds.
pub fn drain_schedule(every_minutes: u64, phase: u64) -> (r: Option<(u64, u64)>)
    requires
        every_minutes * 60 <= u64::MAX,
        phase <= PHASE_PARTS,
    ensures
        every_minutes == 0 ==> r is None,
        every_minutes > 0 ==> r == Some(
            (
                period_secs(every_minutes as nat) as u64,
                offset_secs(every_minutes as nat, phase as nat) as u64,
            ),
        ),
{
    if every_minutes == 0 {
        None
    } else {
        let period = drain_period(every_minutes);
        Some((period, phase_offset(period, phase)))
    }
}

/// At equal periods the two drains never fire on the same instant: the
/// digest drain's ticks fall exactly halfway between the enrichment
/// drain's.
pub proof fn drains_never_coincide(every_minutes: nat, k: nat, j: nat)
    requires
        every_minutes > 0,
    ensures
        fire_at(every_minutes, ENRICHMENT_PHASE as nat, k) != fire_at(every_minutes, DIGEST_PHASE as nat, j),
{
    let p = period_secs(every_minutes);
    let half = every_minutes * 30;
    assert(p == 2 * half);
    assert(p * 0 / 2 == 0) by (nonlinear_arith);
    assert(p * 1 / 2 == half) by (nonlinear_arith)
        requires
            p == 2 * half,
    ;
    assert(k * p != half + j * p) by (nonlinear_arith)
        requires
            p == 2 * half,
            half > 0,
    {
        if k * p == half + j * p {
            if k <= j {
                assert(k * p <= j * p);
            } else {
                assert((k - j) * p == half);
                assert((k - j) * p >= p);
            }
        }
    }
}

/// Only the enrichment drain runs at boot; the digest drain's first pass is
/// half a period in.
pub proof fn only_enrichment_runs_at_boot(every_minutes: nat)
    requires
        every_minutes > 0,
    ensures
        fire_at(every_minutes, ENRICHMENT_PHASE as nat, 0) == 0,
        fire_at(every_minutes, DIGEST_PHASE as nat, 0) == every_minutes * 30,
{
    let p = period_secs(every_minutes);
    assert(p * 0 / 2 == 0) by (nonlinear_arith);
    assert(p * 1 / 2 == every_minutes * 30) by (nonlinear_arith)
        requires
            p == every_minutes * 60,
    ;
}

/// Ticks skipped between attempts after `failures` consecutive failures:
/// doubling, capped at thirty-two.
pub open spec fn backoff_ticks(failures: int) -> int {
    if failures >= 5 {
        32
    } else if failures == 4 {
        16
    } else if failures == 3 {
        8
    } else if failures == 2 {
        4
    } else {
        2
    }
}

/// Whether the inbox sweep runs on this tick: always when the last pass
/// succeeded, else only on every `backoff_ticks`-th tick since boot.
pub open spec fn sweep_runs(failures: int, elapsed_ticks: int) -> bool {
    failures <= 0 || elapsed_ticks % backoff_ticks(failures) == 0
}

pub fn sweep_due(failures: i64, elapsed_ticks: u64) -> (r: bool)
    ensures
        r == sweep_runs(failures as int, elapsed_ticks as int),
{
    if failures <= 0 {
        return true;
    }
    let shift: u64 = if failures >= 5 {
        5
    } else {
        failures as u64
    };
    let skip: u64 = 1u64 << shift;
    assert(skip as int == backoff_ticks(failures as int)) by {
        if shift == 1 {
            assert(1u64 << 1u64 == 2) by (bit_vector);
        } else if shift == 2 {
            assert(1u64 << 2u64 == 4) by (bit_vector);
        } else if shift == 3 {
            assert(1u64 << 3u64 == 8) by (bit_vector);
        } else if shift == 4 {
            assert(1u64 << 4u64 == 16) by (bit_vector);
        } else {
            assert(1u64 << 5u64 == 32) by (bit_vector);
        }
    }
    elapsed_ticks % skip == 0
}

} // verus!
