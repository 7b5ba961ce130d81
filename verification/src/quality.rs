//! Deterministic Feed quality signals for the human review queue.
//!
//! This module inspects values already stored by extraction, normalization,
//! summarization and ranking; a flag suggests a review and never starts
//! enrichment or changes the human Feed status.
//!
//! Percentages are kept exact: thresholds are in tenths of a percent and
//! every comparison is made on integers, so a ratio is compared with its
//! threshold without rounding. A percentage shown in evidence is rounded to
//! one decimal the way a double printed with one decimal is.

use vstd::prelude::*;
use crate::normalize::{normalize, normalized_drops, named, rule_name, views};
use crate::provenance::StageProvenance;
use crate::store::FeedItem;
use crate::text::{
    append, chars_eq, decimal, decimal_exec, is_blank, join, join_exec, lines, lines_exec,
    to_chars, to_string, trim_exec,
};

verus! {

/// Thresholds for the review signals. Percentages are in tenths of a
/// percent (`600` is 60.0%).
pub struct QualityFlagConfig {
    pub minimum_total_retention_permille: u32,
    pub maximum_total_retention_permille: u32,
    pub maximum_boilerplate_leakage_permille: u32,
    pub summary_attempt_warning: i32,
}

impl Default for QualityFlagConfig {
    /// The passing corpus envelope: 30.0% to 90.0% retained, at most 10.0%
    /// leaked boilerplate, a warning from the second failed summary.
    fn default() -> (r: Self)
        ensures
            r.minimum_total_retention_permille == 300,
            r.maximum_total_retention_permille == 900,
            r.maximum_boilerplate_leakage_permille == 100,
            r.summary_attempt_warning == 2,
    {
        QualityFlagConfig {
            minimum_total_retention_permille: 300,
            maximum_total_retention_permille: 900,
            maximum_boilerplate_leakage_permille: 100,
            summary_attempt_warning: 2,
        }
    }
}

/// One review signal: what fired, why, and the numbers behind it.
pub struct QualityFlag {
    pub signal: String,
    pub reason: String,
    pub evidence: String,
}

pub type FlagView = (Seq<char>, Seq<char>, Seq<char>);

impl QualityFlag {
    pub open spec fn view(&self) -> FlagView {
        (self.signal@, self.reason@, self.evidence@)
    }

    fn new(signal: &str, reason: &Vec<char>, evidence: &Vec<char>) -> (r: Self)
        ensures
            r.view() == (signal@, reason@, evidence@),
    {
        QualityFlag {
            signal: to_string(&to_chars(signal)),
            reason: to_string(reason),
            evidence: to_string(evidence),
        }
    }
}

// ---------------------------------------------------------------------------
// Number rendering
// ---------------------------------------------------------------------------

/// Doubles carry 53 significant bits: a scaled value in `[2^52, 2^53)` is
/// rounded to an integer.
pub const MANTISSA_LOW: u128 = 0x10_0000_0000_0000;

pub const MANTISSA_HIGH: u128 = 0x20_0000_0000_0000;

/// `num` doubled until `num / den` reaches `2^52`.
pub open spec fn scale_up(num: nat, den: nat) -> nat
    decreases (if num < MANTISSA_LOW * den {
        MANTISSA_LOW * den - num
    } else {
        0
    }),
{
    if num == 0 || num >= MANTISSA_LOW * den {
        num
    } else {
        scale_up(2 * num, den)
    }
}

/// `den` doubled until `num / den` falls below `2^53`.
pub open spec fn scale_down(num: nat, den: nat) -> nat
    decreases num + 1 - den,
{
    if den == 0 || num < MANTISSA_HIGH * den {
        den
    } else {
        scale_down(num, 2 * den)
    }
}

/// Whether the double nearest to `num / den` lies below it, for a positive
/// value that is no dyadic fraction (so that it is never halfway between two
/// doubles): scaled into `[2^52, 2^53)`, its fractional part is under one half.
pub open spec fn double_below(num: nat, den: nat) -> bool {
    let a = scale_up(num, den);
    let d = scale_down(a, den);
    2 * (a % d) < d
}

/// `100 * part / whole` in tenths of a percent, as a double printed with one
/// decimal reads: rounded to the nearest tenth. A value exactly halfway
/// between two tenths, `n / 20` with `n` odd, goes to the side of the double
/// nearest to it; where that double is the halfway value itself (`5` divides
/// `n`), to the even tenth. No whole gives `0`.
pub open spec fn permille(part: nat, whole: nat) -> nat {
    if whole == 0 {
        0
    } else {
        let q = (1000 * part) / whole;
        let rem = (1000 * part) % whole;
        if 2 * rem < whole {
            q
        } else if 2 * rem > whole {
            q + 1
        } else if (2 * q + 1) % 5 == 0 {
            if q % 2 == 0 {
                q
            } else {
                q + 1
            }
        } else if double_below(2 * q + 1, 20) {
            q
        } else {
            q + 1
        }
    }
}

/// Tenths of a percent as `12.3`.
pub open spec fn tenths_text(t: nat) -> Seq<char> {
    decimal(t / 10) + "."@ + decimal(t % 10)
}

/// A signed integer as `Display` writes it.
pub open spec fn signed_text(n: int) -> Seq<char> {
    if n < 0 {
        "-"@ + decimal((-n) as nat)
    } else {
        decimal(n as nat)
    }
}

pub open spec fn bool_text(b: bool) -> Seq<char> {
    if b {
        "true"@
    } else {
        "false"@
    }
}

fn permille_exec(part: usize, whole: usize) -> (r: u128)
    ensures
        r as nat == permille(part as nat, whole as nat),
{
    permille_wide(part as u128, whole as u128)
}

fn double_below_exec(num: u128) -> (r: bool)
    requires
        1 <= num < 0x100_0000_0000_0000_0000_0000u128,
    ensures
        r == double_below(num as nat, 20),
{
    let mut a: u128 = num;
    while a < MANTISSA_LOW * 20
        invariant
            1 <= a < 0x100_0000_0000_0000_0000_0000u128,
            scale_up(a as nat, 20) == scale_up(num as nat, 20),
        decreases (if a < MANTISSA_LOW * 20 {
            MANTISSA_LOW * 20 - a
        } else {
            0
        }),
    {
        a = 2 * a;
    }
    let mut d: u128 = 20;
    while a >= MANTISSA_HIGH * d
        invariant
            1 <= a < 0x100_0000_0000_0000_0000_0000u128,
            a >= MANTISSA_LOW * 20,
            a as nat == scale_up(num as nat, 20),
            20 <= d <= 0x1_0000_0000_0000,
            scale_down(a as nat, d as nat) == scale_down(a as nat, 20),
        decreases a + 1 - d,
    {
        assert(d < 0x10_0000_0000) by (nonlinear_arith)
            requires
                a >= MANTISSA_HIGH * d,
                a < 0x100_0000_0000_0000_0000_0000u128,
                MANTISSA_HIGH == 0x20_0000_0000_0000u128,
        ;
        d = 2 * d;
    }
    2 * (a % d) < d
}

fn permille_wide(part: u128, whole: u128) -> (r: u128)
    requires
        part < 0x100_0000_0000_0000_0000u128,
        whole < 0x1_0000_0000_0000_0000u128,
    ensures
        r as nat == permille(part as nat, whole as nat),
{
    if whole == 0 {
        0
    } else {
        let t: u128 = part * 1000;
        let q: u128 = t / whole;
        let rem: u128 = t % whole;
        assert(q <= t) by (nonlinear_arith)
            requires
                q == t / whole,
                whole >= 1,
        ;
        if 2 * rem < whole {
            q
        } else if 2 * rem > whole {
            q + 1
        } else if (2 * q + 1) % 5 == 0 {
            if q % 2 == 0 {
                q
            } else {
                q + 1
            }
        } else if double_below_exec(2 * q + 1) {
            q
        } else {
            q + 1
        }
    }
}

fn tenths_text_exec(t: u128) -> (r: Vec<char>)
    ensures
        r@ == tenths_text(t as nat),
{
    let mut v = decimal_exec(t / 10);
    append(&mut v, &to_chars("."));
    append(&mut v, &decimal_exec(t % 10));
    v
}

fn signed_text_exec(n: i32) -> (r: Vec<char>)
    ensures
        r@ == signed_text(n as int),
{
    if n < 0 {
        let m: i64 = -(n as i64);
        let mut v = to_chars("-");
        append(&mut v, &decimal_exec(m as u128));
        v
    } else {
        decimal_exec(n as u128)
    }
}

// ---------------------------------------------------------------------------
// The signals
// ---------------------------------------------------------------------------

/// The first stage record named `name`.
pub open spec fn find_stage(stages: Seq<StageProvenance>, name: Seq<char>, i: int) -> Option<
    StageProvenance,
>
    decreases stages.len() - i,
{
    if i < 0 || i >= stages.len() {
        None
    } else if stages[i].stage@ == name {
        Some(stages[i])
    } else {
        find_stage(stages, name, i + 1)
    }
}

pub open spec fn opt_text(o: Option<String>, default: Seq<char>) -> Seq<char> {
    match o {
        Some(s) => s@,
        None => default,
    }
}

pub open spec fn extraction_path(item: &FeedItem) -> Seq<char> {
    opt_text(item.captured_via, "server-fetch"@)
}

pub open spec fn content_status_flags(item: &FeedItem) -> Seq<FlagView> {
    if item.content_status@ == "none"@ {
        seq![
            (
                "content_status"@,
                "content_status fired: extraction retained no readable body"@,
                "content_status=none; extraction_path="@ + extraction_path(item),
            ),
        ]
    } else if item.content_status@ == "unknown"@ {
        seq![
            (
                "content_status"@,
                "content_status fired: legacy content has not been classified"@,
                "content_status=unknown; extraction_path="@ + extraction_path(item),
            ),
        ]
    } else {
        seq![]
    }
}

pub open spec fn extraction_flags(item: &FeedItem, raw: Option<Seq<char>>, stages: Seq<StageProvenance>) -> Seq<FlagView> {
    match raw {
        None => seq![
            (
                "extraction_path"@,
                "extraction_path fired: raw extractor output is unavailable for replay"@,
                "captured_via="@ + extraction_path(item) + "; raw_content=missing"@,
            ),
        ],
        Some(_) => match find_stage(stages, "extraction"@, 0) {
            Some(stage) => if stage.tier@ == "legacy"@ {
                seq![
                    (
                        "extraction_path"@,
                        "extraction_path fired: extractor provenance is legacy and cannot name its producer"@,
                        "captured_via="@ + extraction_path(item) + "; tier="@ + stage.tier@
                            + "; revision="@ + stage.revision@,
                    ),
                ]
            } else {
                seq![]
            },
            None => seq![],
        },
    }
}

pub open spec fn retention_flags(item: &FeedItem, raw: Option<Seq<char>>, config: &QualityFlagConfig) -> Seq<FlagView> {
    match (raw, item.transcript) {
        (Some(r), Some(t)) => {
            let raw_chars = r.len();
            let canonical_chars = t@.len();
            if raw_chars == 0 {
                seq![]
            } else {
                let tail = "; raw_chars="@ + decimal(raw_chars) + "; canonical_chars="@ + decimal(
                    canonical_chars,
                );
                let retained = tenths_text(permille(canonical_chars, raw_chars));
                if canonical_chars * 1000 < config.minimum_total_retention_permille * raw_chars {
                    seq![
                        (
                            "retention"@,
                            "retention fired: canonical text falls below the passing corpus envelope"@,
                            "retained="@ + retained + "%; minimum="@ + tenths_text(
                                config.minimum_total_retention_permille as nat,
                            ) + "%"@ + tail,
                        ),
                    ]
                } else if canonical_chars * 1000 > config.maximum_total_retention_permille
                    * raw_chars {
                    seq![
                        (
                            "retention"@,
                            "retention fired: canonical text exceeds the passing corpus envelope"@,
                            "retained="@ + retained + "%; maximum="@ + tenths_text(
                                config.maximum_total_retention_permille as nat,
                            ) + "%"@ + tail,
                        ),
                    ]
                } else {
                    seq![]
                }
            }
        },
        _ => seq![],
    }
}

pub open spec fn not_blank_run() -> spec_fn((Seq<char>, nat)) -> bool {
    |d: (Seq<char>, nat)| d.0 != rule_name(5)
}

/// One matched rule as evidence: `rule:lines`.
pub open spec fn match_text() -> spec_fn((Seq<char>, nat)) -> Seq<char> {
    |d: (Seq<char>, nat)| d.0 + ":"@ + decimal(d.1)
}

/// The drops of a second normalization pass other than blank runs.
pub open spec fn leaked(canonical: Seq<char>) -> Seq<(Seq<char>, nat)> {
    named(normalized_drops(canonical)).filter(not_blank_run())
}

pub open spec fn sum_lines(ds: Seq<(Seq<char>, nat)>) -> nat
    decreases ds.len(),
{
    if ds.len() == 0 {
        0
    } else {
        sum_lines(ds.drop_last()) + ds.last().1
    }
}

/// Non-blank lines of a text.
pub open spec fn content_lines(t: Seq<char>) -> nat {
    lines(t).filter(|l: Seq<char>| !is_blank(l)).len()
}

pub open spec fn max1(n: nat) -> nat {
    if n == 0 {
        1
    } else {
        n
    }
}

pub open spec fn leakage_flags(item: &FeedItem, config: &QualityFlagConfig) -> Seq<FlagView> {
    match item.transcript {
        Some(t) => {
            let ds = leaked(t@);
            let leaked_lines = sum_lines(ds);
            let whole = max1(content_lines(t@));
            if leaked_lines * 1000 > config.maximum_boilerplate_leakage_permille * whole {
                seq![
                    (
                        "boilerplate_leakage"@,
                        "boilerplate_leakage fired: stored canonical text still matches normalization rules"@,
                        "leakage="@ + tenths_text(permille(leaked_lines, whole)) + "%; maximum="@
                            + tenths_text(config.maximum_boilerplate_leakage_permille as nat)
                            + "%; matched="@ + join(ds.map_values(match_text()), ","@),
                    ),
                ]
            } else {
                seq![]
            }
        },
        None => seq![],
    }
}

pub open spec fn attempts_flags(item: &FeedItem, config: &QualityFlagConfig) -> Seq<FlagView> {
    if item.summary_attempts >= config.summary_attempt_warning {
        seq![
            (
                "summary_attempts"@,
                "summary_attempts fired: summarization is approaching or has reached its retry cap"@,
                "attempts="@ + signed_text(item.summary_attempts as int) + "; warning_at="@
                    + signed_text(config.summary_attempt_warning as int) + "; last_error="@
                    + opt_text(item.summary_last_error, "unknown"@),
            ),
        ]
    } else {
        seq![]
    }
}

pub open spec fn ranking_basis(item: &FeedItem) -> Seq<char> {
    if item.content_status@ == "full"@ {
        "full_text"@
    } else if item.content_status@ == "thin"@ {
        "abstract"@
    } else {
        "bare_title"@
    }
}

pub open spec fn summary_present(item: &FeedItem) -> bool {
    match item.summary {
        Some(s) => !is_blank(s@),
        None => false,
    }
}

pub open spec fn ranking_flags(item: &FeedItem, stages: Seq<StageProvenance>, has_ranking: bool) -> Seq<FlagView> {
    let basis = ranking_basis(item);
    if has_ranking && basis != "full_text"@ {
        let revision = match find_stage(stages, "ranking"@, 0) {
            Some(stage) => stage.revision@,
            None => "unknown"@,
        };
        seq![
            (
                "ranking_basis"@,
                "ranking_basis fired: ranking used "@ + basis + " rather than full text"@,
                "basis="@ + basis + "; content_status="@ + item.content_status@
                    + "; summary_present="@ + bool_text(summary_present(item))
                    + "; ranking_revision="@ + revision,
            ),
        ]
    } else {
        seq![]
    }
}

/// Every signal `derive` raises for one stored item, in order: content
/// status, extraction path, retention, boilerplate leakage, summary
/// attempts, ranking basis.
pub open spec fn flags_for(
    item: &FeedItem,
    raw: Option<Seq<char>>,
    stages: Seq<StageProvenance>,
    has_ranking: bool,
    config: &QualityFlagConfig,
) -> Seq<FlagView> {
    content_status_flags(item) + extraction_flags(item, raw, stages) + retention_flags(
        item,
        raw,
        config,
    ) + leakage_flags(item, config) + attempts_flags(item, config) + ranking_flags(
        item,
        stages,
        has_ranking,
    )
}

pub open spec fn opt_view(o: Option<&str>) -> Option<Seq<char>> {
    match o {
        Some(s) => Some(s@),
        None => None,
    }
}

pub open spec fn flag_views(v: Seq<QualityFlag>) -> Seq<FlagView> {
    v.map_values(|f: QualityFlag| f.view())
}


// ---------------------------------------------------------------------------
// Exec
// ---------------------------------------------------------------------------

fn str_is(s: &String, lit: &str) -> (r: bool)
    ensures
        r == (s@ == lit@),
{
    chars_eq(&to_chars(s.as_str()), &to_chars(lit))
}

fn opt_text_exec(o: &Option<String>, default: &str) -> (r: Vec<char>)
    ensures
        r@ == opt_text(*o, default@),
{
    match o {
        Some(s) => to_chars(s.as_str()),
        None => to_chars(default),
    }
}

fn find_stage_exec(stages: &[StageProvenance], name: &str) -> (r: Option<usize>)
    ensures
        match r {
            Some(i) => i < stages@.len() && find_stage(stages@, name@, 0) == Some(stages@[i as int]),
            None => find_stage(stages@, name@, 0) is None,
        },
{
    let mut i: usize = 0;
    while i < stages.len()
        invariant
            i <= stages@.len(),
            find_stage(stages@, name@, 0) == find_stage(stages@, name@, i as int),
        decreases stages.len() - i,
    {
        if str_is(&stages[i].stage, name) {
            return Some(i);
        }
        i += 1;
    }
    None
}

fn cat(parts: &Vec<Vec<char>>) -> (r: Vec<char>)
    ensures
        r@ == crate::text::join(parts@.map_values(|v: Vec<char>| v@), Seq::<char>::empty()),
{
    let sep: Vec<char> = Vec::new();
    join_exec(parts, &sep)
}

fn content_status_flags_exec(item: &FeedItem, out: &mut Vec<QualityFlag>)
    ensures
        flag_views(final(out)@) == flag_views(old(out)@) + content_status_flags(item),
{
    let path = opt_text_exec(&item.captured_via, "server-fetch");
    let ghost before = out@;
    if str_is(&item.content_status, "none") {
        let mut ev = to_chars("content_status=none; extraction_path=");
        append(&mut ev, &path);
        out.push(QualityFlag::new(
            "content_status",
            &to_chars("content_status fired: extraction retained no readable body"),
            &ev,
        ));
    } else if str_is(&item.content_status, "unknown") {
        let mut ev = to_chars("content_status=unknown; extraction_path=");
        append(&mut ev, &path);
        out.push(QualityFlag::new(
            "content_status",
            &to_chars("content_status fired: legacy content has not been classified"),
            &ev,
        ));
    }
    assert(flag_views(out@) =~= flag_views(before) + content_status_flags(item));
}

fn extraction_flags_exec(
    item: &FeedItem,
    raw: Option<&str>,
    stages: &[StageProvenance],
    out: &mut Vec<QualityFlag>,
)
    ensures
        flag_views(final(out)@) == flag_views(old(out)@) + extraction_flags(
            item,
            opt_view(raw),
            stages@,
        ),
{
    let path = opt_text_exec(&item.captured_via, "server-fetch");
    let ghost before = out@;
    match raw {
        None => {
            let mut ev = to_chars("captured_via=");
            append(&mut ev, &path);
            append(&mut ev, &to_chars("; raw_content=missing"));
            out.push(QualityFlag::new(
                "extraction_path",
                &to_chars("extraction_path fired: raw extractor output is unavailable for replay"),
                &ev,
            ));
        },
        Some(_) => {
            match find_stage_exec(stages, "extraction") {
                Some(i) => {
                    let stage = &stages[i];
                    if str_is(&stage.tier, "legacy") {
                        let mut ev = to_chars("captured_via=");
                        append(&mut ev, &path);
                        append(&mut ev, &to_chars("; tier="));
                        append(&mut ev, &to_chars(stage.tier.as_str()));
                        append(&mut ev, &to_chars("; revision="));
                        append(&mut ev, &to_chars(stage.revision.as_str()));
                        out.push(QualityFlag::new(
                            "extraction_path",
                            &to_chars(
                                "extraction_path fired: extractor provenance is legacy and cannot name its producer",
                            ),
                            &ev,
                        ));
                    }
                },
                None => {},
            }
        },
    }
    assert(flag_views(out@) =~= flag_views(before) + extraction_flags(item, opt_view(raw), stages@));
}

fn retention_flags_exec(
    item: &FeedItem,
    raw: Option<&str>,
    config: &QualityFlagConfig,
    out: &mut Vec<QualityFlag>,
)
    ensures
        flag_views(final(out)@) == flag_views(old(out)@) + retention_flags(
            item,
            opt_view(raw),
            config,
        ),
{
    let ghost before = out@;
    match (raw, &item.transcript) {
        (Some(r), Some(t)) => {
            let raw_chars = to_chars(r).len();
            if raw_chars > 0 {
                let canonical_chars = to_chars(t.as_str()).len();
                let c: u128 = canonical_chars as u128;
                let w: u128 = raw_chars as u128;
                let lo: u128 = config.minimum_total_retention_permille as u128;
                let hi: u128 = config.maximum_total_retention_permille as u128;
                assert(c * 1000 < 0x1_0000_0000_0000_0000u128 * 1000) by (nonlinear_arith)
                    requires
                        c < 0x1_0000_0000_0000_0000u128,
                ;
                assert(lo * w < 0x1_0000_0000u128 * 0x1_0000_0000_0000_0000u128) by (
                nonlinear_arith)
                    requires
                        lo < 0x1_0000_0000u128,
                        w < 0x1_0000_0000_0000_0000u128,
                ;
                assert(hi * w < 0x1_0000_0000u128 * 0x1_0000_0000_0000_0000u128) by (
                nonlinear_arith)
                    requires
                        hi < 0x1_0000_0000u128,
                        w < 0x1_0000_0000_0000_0000u128,
                ;
                let mut tail = to_chars("; raw_chars=");
                append(&mut tail, &decimal_exec(w));
                append(&mut tail, &to_chars("; canonical_chars="));
                append(&mut tail, &decimal_exec(c));
                let retained = tenths_text_exec(permille_exec(canonical_chars, raw_chars));
                if c * 1000 < lo * w {
                    let mut ev = to_chars("retained=");
                    append(&mut ev, &retained);
                    append(&mut ev, &to_chars("%; minimum="));
                    append(&mut ev, &tenths_text_exec(lo));
                    append(&mut ev, &to_chars("%"));
                    append(&mut ev, &tail);
                    out.push(QualityFlag::new(
                        "retention",
                        &to_chars(
                            "retention fired: canonical text falls below the passing corpus envelope",
                        ),
                        &ev,
                    ));
                } else if c * 1000 > hi * w {
                    let mut ev = to_chars("retained=");
                    append(&mut ev, &retained);
                    append(&mut ev, &to_chars("%; maximum="));
                    append(&mut ev, &tenths_text_exec(hi));
                    append(&mut ev, &to_chars("%"));
                    append(&mut ev, &tail);
                    out.push(QualityFlag::new(
                        "retention",
                        &to_chars(
                            "retention fired: canonical text exceeds the passing corpus envelope",
                        ),
                        &ev,
                    ));
                }
            }
        },
        _ => {},
    }
    assert(flag_views(out@) =~= flag_views(before) + retention_flags(item, opt_view(raw), config));
}

fn content_lines_exec(t: &Vec<char>) -> (r: usize)
    ensures
        r as nat == content_lines(t@),
{
    let ls = lines_exec(t);
    let ghost all = lines(t@);
    let ghost pred = |l: Seq<char>| !is_blank(l);
    let mut n: usize = 0;
    let mut i: usize = 0;
    while i < ls.len()
        invariant
            i <= ls@.len(),
            ls@.len() == all.len(),
            forall|k: int| 0 <= k < ls@.len() ==> #[trigger] ls@[k]@ == all[k],
            pred == (|l: Seq<char>| !is_blank(l)),
            n as nat == all.take(i as int).filter(pred).len(),
            n <= i,
        decreases ls.len() - i,
    {
        proof {
            reveal_with_fuel(Seq::<_>::filter, 1);
            assert(all.take(i + 1).drop_last() == all.take(i as int));
            assert(all.take(i + 1).last() == all[i as int]);
        }
        if trim_exec(&ls[i]).len() > 0 {
            n += 1;
        }
        i += 1;
    }
    assert(all.take(ls.len() as int) == all);
    n
}

fn leakage_flags_exec(item: &FeedItem, config: &QualityFlagConfig, out: &mut Vec<QualityFlag>)
    ensures
        flag_views(final(out)@) == flag_views(old(out)@) + leakage_flags(item, config),
{
    let ghost before = out@;
    match &item.transcript {
        Some(t) => {
            let again = normalize(t.as_str());
            let ghost dv = again.drops_view();
            let ghost keep = not_blank_run();
            let ghost show = match_text();
            let mut parts: Vec<Vec<char>> = Vec::new();
            let mut total: u128 = 0;
            let mut i: usize = 0;
            let blank = to_chars("blank-run");
            while i < again.dropped.len()
                invariant
                    i <= again.dropped@.len(),
                    again.dropped@.len() <= 6,
                    dv == again.drops_view(),
                    blank@ == rule_name(5),
                    keep == not_blank_run(),
                    show == match_text(),
                    views(parts@) == dv.take(i as int).filter(keep).map_values(show),
                    total as nat == sum_lines(dv.take(i as int).filter(keep)),
                    total <= i * 0x1_0000_0000_0000_0000u128,
                decreases again.dropped.len() - i,
            {
                let d = &again.dropped[i];
                let name = to_chars(d.rule);
                let ghost prev_parts = parts@;
                let ghost prev = dv.take(i as int).filter(keep);
                proof {
                    reveal_with_fuel(Seq::<_>::filter, 1);
                    assert(dv.take(i + 1).drop_last() == dv.take(i as int));
                    assert(dv.take(i + 1).last() == dv[i as int]);
                    assert(dv[i as int] == (d.rule@, d.lines as nat));
                }
                if !chars_eq(&name, &blank) {
                    let mut entry = name;
                    append(&mut entry, &to_chars(":"));
                    append(&mut entry, &decimal_exec(d.lines as u128));
                    parts.push(entry);
                    total = total + d.lines as u128;
                    proof {
                        let f = dv.take(i + 1).filter(keep);
                        assert(keep(dv[i as int]));
                        assert(f == prev.push(dv[i as int]));
                        assert(f.drop_last() == prev);
                        assert(entry@ == show(dv[i as int]));
                        assert(parts@ == prev_parts.push(entry));
                        assert(views(parts@) =~= views(prev_parts).push(entry@));
                        assert(f.map_values(show) =~= prev.map_values(show).push(show(dv[i as int])));
                    }
                } else {
                    proof {
                        assert(!keep(dv[i as int]));
                        assert(dv.take(i + 1).filter(keep) == prev);
                    }
                }
                i += 1;
            }
            proof {
                assert(dv.take(again.dropped@.len() as int) == dv);
                assert(dv == named(normalized_drops(t@)));
            }
            let tc = to_chars(t.as_str());
            let lines_n = content_lines_exec(&tc);
            let whole: usize = if lines_n == 0 {
                1
            } else {
                lines_n
            };
            let maxp: u128 = config.maximum_boilerplate_leakage_permille as u128;
            let w: u128 = whole as u128;
            assert(maxp * w < 0x1_0000_0000u128 * 0x1_0000_0000_0000_0000u128) by (nonlinear_arith)
                requires
                    maxp < 0x1_0000_0000u128,
                    w < 0x1_0000_0000_0000_0000u128,
            ;
            assert(total < 0x100_0000_0000_0000_0000u128) by (nonlinear_arith)
                requires
                    total <= i * 0x1_0000_0000_0000_0000u128,
                    i <= 6,
            ;
            if total * 1000 > maxp * w {
                let perm = permille_wide(total, w);
                let mut ev = to_chars("leakage=");
                append(&mut ev, &tenths_text_exec(perm));
                append(&mut ev, &to_chars("%; maximum="));
                append(&mut ev, &tenths_text_exec(maxp));
                append(&mut ev, &to_chars("%; matched="));
                append(&mut ev, &join_exec(&parts, &to_chars(",")));
                out.push(QualityFlag::new(
                    "boilerplate_leakage",
                    &to_chars(
                        "boilerplate_leakage fired: stored canonical text still matches normalization rules",
                    ),
                    &ev,
                ));
            }
        },
        None => {},
    }
    assert(flag_views(out@) =~= flag_views(before) + leakage_flags(item, config));
}

fn attempts_flags_exec(item: &FeedItem, config: &QualityFlagConfig, out: &mut Vec<QualityFlag>)
    ensures
        flag_views(final(out)@) == flag_views(old(out)@) + attempts_flags(item, config),
{
    let ghost before = out@;
    if item.summary_attempts >= config.summary_attempt_warning {
        let mut ev = to_chars("attempts=");
        append(&mut ev, &signed_text_exec(item.summary_attempts));
        append(&mut ev, &to_chars("; warning_at="));
        append(&mut ev, &signed_text_exec(config.summary_attempt_warning));
        append(&mut ev, &to_chars("; last_error="));
        append(&mut ev, &opt_text_exec(&item.summary_last_error, "unknown"));
        out.push(QualityFlag::new(
            "summary_attempts",
            &to_chars(
                "summary_attempts fired: summarization is approaching or has reached its retry cap",
            ),
            &ev,
        ));
    }
    assert(flag_views(out@) =~= flag_views(before) + attempts_flags(item, config));
}

fn ranking_basis_exec(item: &FeedItem) -> (r: &'static str)
    ensures
        r@ == ranking_basis(item),
{
    proof {
        reveal_strlit("full_text");
        reveal_strlit("abstract");
        reveal_strlit("bare_title");
    }
    if str_is(&item.content_status, "full") {
        "full_text"
    } else if str_is(&item.content_status, "thin") {
        "abstract"
    } else {
        "bare_title"
    }
}

fn ranking_flags_exec(
    item: &FeedItem,
    stages: &[StageProvenance],
    has_ranking: bool,
    out: &mut Vec<QualityFlag>,
)
    ensures
        flag_views(final(out)@) == flag_views(old(out)@) + ranking_flags(item, stages@, has_ranking),
{
    let ghost before = out@;
    if has_ranking {
        let basis = ranking_basis_exec(item);
        if !chars_eq(&to_chars(basis), &to_chars("full_text")) {
            let revision = match find_stage_exec(stages, "ranking") {
                Some(i) => to_chars(stages[i].revision.as_str()),
                None => to_chars("unknown"),
            };
            let present = match &item.summary {
                Some(s) => trim_exec(&to_chars(s.as_str())).len() > 0,
                None => false,
            };
            let mut reason = to_chars("ranking_basis fired: ranking used ");
            append(&mut reason, &to_chars(basis));
            append(&mut reason, &to_chars(" rather than full text"));
            let mut ev = to_chars("basis=");
            append(&mut ev, &to_chars(basis));
            append(&mut ev, &to_chars("; content_status="));
            append(&mut ev, &to_chars(item.content_status.as_str()));
            append(&mut ev, &to_chars("; summary_present="));
            append(&mut ev, &to_chars(if present { "true" } else { "false" }));
            append(&mut ev, &to_chars("; ranking_revision="));
            append(&mut ev, &revision);
            out.push(QualityFlag::new("ranking_basis", &reason, &ev));
        }
    }
    assert(flag_views(out@) =~= flag_views(before) + ranking_flags(item, stages@, has_ranking));
}

/// Derive independently inspectable review signals from one stored item.
///
/// `has_ranking` means an evaluation row exists; its score and any
/// self-reported confidence are deliberately not inputs.
pub fn derive(
    item: &FeedItem,
    raw_content: Option<&str>,
    stages: &[StageProvenance],
    has_ranking: bool,
    config: &QualityFlagConfig,
) -> (r: Vec<QualityFlag>)
    ensures
        flag_views(r@) == flags_for(item, opt_view(raw_content), stages@, has_ranking, config),
{
    let mut flags: Vec<QualityFlag> = Vec::new();
    assert(flag_views(flags@) =~= Seq::<FlagView>::empty());
    content_status_flags_exec(item, &mut flags);
    extraction_flags_exec(item, raw_content, stages, &mut flags);
    retention_flags_exec(item, raw_content, config, &mut flags);
    leakage_flags_exec(item, config, &mut flags);
    attempts_flags_exec(item, config, &mut flags);
    ranking_flags_exec(item, stages, has_ranking, &mut flags);
    assert(flag_views(flags@) =~= flags_for(item, opt_view(raw_content), stages@, has_ranking, config));
    flags
}

/// The window a quality refresh reviews: every item (3650 days) when
/// unset, and refused outside 1 to 3650 days.
pub fn refresh_days(days: Option<i32>) -> (r: Result<i32, String>)
    ensures
        match days {
            None => r == Ok::<i32, String>(3650),
            Some(d) => if 1 <= d && d <= 3650 {
                r == Ok::<i32, String>(d)
            } else {
                r is Err && r->Err_0@ == "days must be between 1 and 3650"@
            },
        },
{
    let d = match days {
        Some(d) => d,
        None => 3650,
    };
    if 1 <= d && d <= 3650 {
        Ok(d)
    } else {
        Err(to_string(&to_chars("days must be between 1 and 3650")))
    }
}

/// What a quality refresh reviewed and flagged.
pub struct RefreshTally {
    pub reviewed: usize,
    pub flagged_items: usize,
    pub flag_count: usize,
}

impl RefreshTally {
    pub fn new() -> (r: Self)
        ensures
            r.reviewed == 0 && r.flagged_items == 0 && r.flag_count == 0,
    {
        RefreshTally { reviewed: 0, flagged_items: 0, flag_count: 0 }
    }

    /// Count one reviewed item and the flags derived for it.
    pub fn record(&mut self, flags: &Vec<QualityFlag>)
        requires
            old(self).reviewed < usize::MAX,
            old(self).flagged_items < usize::MAX,
            old(self).flag_count + flags@.len() <= usize::MAX,
        ensures
            final(self).reviewed == old(self).reviewed + 1,
            final(self).flagged_items == old(self).flagged_items + if flags@.len() > 0 { 1int } else { 0 },
            final(self).flag_count == old(self).flag_count + flags@.len(),
    {
        self.reviewed = self.reviewed + 1;
        if flags.len() > 0 {
            self.flagged_items = self.flagged_items + 1;
            self.flag_count = self.flag_count + flags.len();
        }
    }
}

} // verus!
