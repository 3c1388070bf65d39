use vstd::prelude::*;

verus! {

/// Inputs describing one liquidity protocol.
///
/// `utilization` and `volatility` are in basis points (0..=10000), `liquidity`
/// is an ordinal scale (1 = worst, 3 = best), `audit_score` is 0..=100 and
/// `age_days` counts days since launch. Values outside those domains are not
/// rejected: the formula still yields a number for them.
#[derive(Clone, Copy, Debug, PartialEq, Eq, Structural)]
pub struct ProtocolMetrics {
    pub utilization: u32,
    pub volatility: u32,
    pub liquidity: u32,
    pub audit_score: u32,
    pub age_days: u32,
}

/// The two protocols scored in one run.
#[derive(Clone, Copy, Debug, PartialEq, Eq, Structural)]
pub struct RiskScoringInput {
    pub jediswap_metrics: ProtocolMetrics,
    pub ekubo_metrics: ProtocolMetrics,
}

/// Every score value below is kept in units of 1/10000 of a point, so that
/// each term of the formula is an exact integer.
pub const POINT: i64 = 10000;

/// Lower clamp bound, 5 points.
pub const RISK_MIN: i64 = 50000;

/// Upper clamp bound, 95 points.
pub const RISK_MAX: i64 = 950000;

/// Number of fixed-point units in one basis point of the final score.
pub const BPS_DIVISOR: i64 = 100;

/// `(utilization / 10000) * 35` points.
pub open spec fn util_component(m: ProtocolMetrics) -> int {
    m.utilization * 35
}

/// `(volatility / 10000) * 30` points.
pub open spec fn vol_component(m: ProtocolMetrics) -> int {
    m.volatility * 30
}

/// `(3 - liquidity) * 5` points.
pub open spec fn liq_component(m: ProtocolMetrics) -> int {
    (3 - m.liquidity) * 5 * POINT
}

/// `(100 - audit_score) / 5` points.
pub open spec fn audit_component(m: ProtocolMetrics) -> int {
    (100 - m.audit_score) * 2000
}

/// `10 - age_days / 100` points, before the floor at zero.
pub open spec fn age_penalty_raw(m: ProtocolMetrics) -> int {
    10 * POINT - m.age_days * 100
}

/// The age penalty, floored at zero.
pub open spec fn age_penalty(m: ProtocolMetrics) -> int {
    if age_penalty_raw(m) < 0 {
        0
    } else {
        age_penalty_raw(m)
    }
}

/// Sum of the five terms, before clamping.
pub open spec fn total_unclamped(m: ProtocolMetrics) -> int {
    util_component(m) + vol_component(m) + liq_component(m) + audit_component(m) + age_penalty(m)
}

pub open spec fn clamp(x: int, lo: int, hi: int) -> int {
    if x < lo {
        lo
    } else if x > hi {
        hi
    } else {
        x
    }
}

/// The total clamped to [5, 95] points, in units of 1/10000 of a point. The
/// same number is the exact risk score in hundredths of a basis point.
pub open spec fn total_clamped(m: ProtocolMetrics) -> int {
    clamp(total_unclamped(m), RISK_MIN as int, RISK_MAX as int)
}

/// The risk score in whole basis points. The exact score is the clamped
/// total times 100 basis points, which is `total_clamped` in hundredths of a
/// basis point; this drops its fraction of a basis point.
pub open spec fn risk_score_spec(m: ProtocolMetrics) -> int {
    total_clamped(m) / (BPS_DIVISOR as int)
}

/// Every term fits comfortably in an `i64`, whatever the `u32` fields hold.
pub proof fn lemma_terms_bounded(m: ProtocolMetrics)
    ensures
        0 <= util_component(m) <= 35 * 0xffff_ffff,
        0 <= vol_component(m) <= 30 * 0xffff_ffff,
        -50000 * 0xffff_ffff <= liq_component(m) <= 150000,
        -2000 * 0xffff_ffff <= audit_component(m) <= 200000,
        -100 * 0xffff_ffff <= age_penalty_raw(m) <= 100000,
        0 <= age_penalty(m) <= 100000,
{
}

/// Computes the risk score of one protocol, in basis points, directly on
/// integers.
pub fn risk_score(m: &ProtocolMetrics) -> (r: u32)
    ensures
        r as int == risk_score_spec(*m),
        500 <= r <= 9500,
{
    proof {
        lemma_terms_bounded(*m);
    }
    let util: i64 = m.utilization as i64 * 35;
    let vol: i64 = m.volatility as i64 * 30;
    let liq: i64 = (3 - m.liquidity as i64) * 5 * POINT;
    let audit: i64 = (100 - m.audit_score as i64) * 2000;
    let raw: i64 = 10 * POINT - m.age_days as i64 * 100;
    let age: i64 = if raw < 0 {
        0
    } else {
        raw
    };
    let total: i64 = util + vol + liq + audit + age;
    let clamped: i64 = if total < RISK_MIN {
        RISK_MIN
    } else if total > RISK_MAX {
        RISK_MAX
    } else {
        total
    };
    (clamped / BPS_DIVISOR) as u32
}

/// The clamped score always lies in [5, 95] points, hence the result in
/// [500, 9500] basis points, for any field values at all.
pub proof fn lemma_risk_score_range(m: ProtocolMetrics)
    ensures
        RISK_MIN <= total_clamped(m) <= RISK_MAX,
        500 <= risk_score_spec(m) <= 9500,
{
}

/// Once the protocol is at least 1000 days old the age penalty is exactly
/// zero, and the exact score no longer depends on the age.
pub proof fn lemma_age_floor(m: ProtocolMetrics, d: u32)
    requires
        m.age_days >= 1000,
        d >= 1000,
    ensures
        age_penalty(m) == 0,
        total_clamped(m) == total_clamped(ProtocolMetrics { age_days: d, ..m }),
{
}

/// Higher utilization strictly raises the unclamped total, and so the exact
/// score, until the clamp takes over.
pub proof fn lemma_monotone_utilization(m: ProtocolMetrics, u: u32)
    requires
        m.utilization < u,
    ensures
        total_unclamped(m) < total_unclamped(ProtocolMetrics { utilization: u, ..m }),
        total_clamped(m) <= total_clamped(ProtocolMetrics { utilization: u, ..m }),
        total_clamped(m) < RISK_MAX && total_clamped(ProtocolMetrics { utilization: u, ..m }) > RISK_MIN
            ==> total_clamped(m) < total_clamped(ProtocolMetrics { utilization: u, ..m }),
{
}

/// A higher audit score strictly lowers the unclamped total, and so the
/// exact score, until the clamp takes over.
pub proof fn lemma_monotone_audit(m: ProtocolMetrics, a: u32)
    requires
        m.audit_score < a,
    ensures
        total_unclamped(ProtocolMetrics { audit_score: a, ..m }) < total_unclamped(m),
        total_clamped(ProtocolMetrics { audit_score: a, ..m }) <= total_clamped(m),
        total_clamped(ProtocolMetrics { audit_score: a, ..m }) < RISK_MAX && total_clamped(m) > RISK_MIN
            ==> total_clamped(ProtocolMetrics { audit_score: a, ..m }) < total_clamped(m),
{
}

/// Better liquidity strictly lowers the unclamped total, and so the exact
/// score, until the clamp takes over.
pub proof fn lemma_monotone_liquidity(m: ProtocolMetrics, l: u32)
    requires
        m.liquidity < l,
    ensures
        total_unclamped(ProtocolMetrics { liquidity: l, ..m }) < total_unclamped(m),
        total_clamped(ProtocolMetrics { liquidity: l, ..m }) <= total_clamped(m),
        total_clamped(ProtocolMetrics { liquidity: l, ..m }) < RISK_MAX && total_clamped(m) > RISK_MIN
            ==> total_clamped(ProtocolMetrics { liquidity: l, ..m }) < total_clamped(m),
{
}

/// A total below 5 points is raised to 500 basis points; one above 95 points
/// is lowered to 9500.
pub proof fn lemma_clamp_bounds(m: ProtocolMetrics)
    ensures
        total_unclamped(m) < RISK_MIN ==> risk_score_spec(m) == 500,
        total_unclamped(m) > RISK_MAX ==> risk_score_spec(m) == 9500,
{
}

/// Moving from liquidity 1 to liquidity 3, all else equal, lowers the score by
/// exactly 1000 basis points, as long as neither total is clamped.
pub proof fn lemma_liquidity_shift(m: ProtocolMetrics)
    requires
        m.liquidity == 1,
        RISK_MIN <= total_unclamped(m) <= RISK_MAX,
        RISK_MIN <= total_unclamped(ProtocolMetrics { liquidity: 3, ..m }) <= RISK_MAX,
    ensures
        risk_score_spec(m) - risk_score_spec(ProtocolMetrics { liquidity: 3, ..m }) == 1000,
{
    let m3 = ProtocolMetrics { liquidity: 3, ..m };
    assert(total_unclamped(m) == total_unclamped(m3) + 100000);
    assert(total_clamped(m) == total_clamped(m3) + 100000);
    let t3 = total_clamped(m3);
    assert((t3 + 100000) / 100 == t3 / 100 + 1000) by (nonlinear_arith);
}

} // verus!
