use vstd::arithmetic::div_mod::{
    lemma_div_by_multiple, lemma_div_is_ordered, lemma_div_multiples_vanish_fancy,
    lemma_div_nonincreasing, lemma_fundamental_div_mod,
};
use vstd::arithmetic::mul::lemma_mul_inequality;
use vstd::prelude::*;

verus! {

/// Largest initial allocation, in the token's smallest unit, that the
/// calculator accepts (10^27).
pub const MAX_INITIAL: u128 = 1_000_000_000_000_000_000_000_000_000;

/// Largest cliff or vesting length, in days, that the calculator accepts.
pub const MAX_SCHEDULE_DAYS: u64 = 2190;

/// Smallest accepted ratio precision.
pub const MIN_RATIO_PRECISION: u128 = 1000;

/// Largest accepted ratio precision (10^16).
pub const MAX_RATIO_PRECISION: u128 = 10_000_000_000_000_000;

/// Length of one release period of stepped vesting, in days.
pub const STEP_DAYS: u64 = 90;

/// Number of release periods of stepped vesting.
pub const MAX_STEPS: u64 = 6;

/// Share of the still-locked remainder released per stepped period, scaled by
/// the ratio precision.
pub const STEP_RELEASE: u128 = 166_700;

/// How a pool releases its allocation once the cliff has passed.
#[derive(Clone, Copy, Debug, PartialEq, Eq, Structural)]
pub enum VestingType {
    Linear,
    Stepped,
}

/// The locked/unlocked split of one pool at one moment.
#[derive(Clone, Copy, Debug, PartialEq, Eq, Structural)]
pub struct PoolCalculation {
    pub initial: u128,
    pub ratio_precision: u128,
    pub locked_amount: u128,
    pub days_passed: u64,
    pub days_until_lock_ends: u64,
    pub days_until_vesting_ends: u64,
    pub unlocked_fraction: u128,
}

/// A pool whose parameters are out of bounds; it counts as fully unlocked.
#[derive(Clone, Copy, Debug, PartialEq, Eq, Structural)]
pub enum VestingError {
    InvalidVestingParameters,
}

/// The bounds within which the calculator works on a pool.
pub open spec fn params_valid(initial: int, cliff_days: int, vesting_days: int, ratio_precision: int) -> bool {
    &&& initial <= MAX_INITIAL
    &&& cliff_days <= MAX_SCHEDULE_DAYS
    &&& vesting_days <= MAX_SCHEDULE_DAYS
    &&& MIN_RATIO_PRECISION <= ratio_precision <= MAX_RATIO_PRECISION
}

/// Whole days from `tge_ts` to `current_ts`, zero before the TGE.
pub open spec fn days_between(current_ts: int, tge_ts: int, seconds_per_day: int) -> int {
    if current_ts <= tge_ts {
        0
    } else {
        (current_ts - tge_ts) / seconds_per_day
    }
}

/// `a - b`, or zero where `b` exceeds `a`.
pub open spec fn sat_sub(a: int, b: int) -> int {
    if a >= b {
        a - b
    } else {
        0
    }
}

/// The smaller of `a` and `b`.
pub open spec fn min_int(a: int, b: int) -> int {
    if a <= b {
        a
    } else {
        b
    }
}

/// The share unlocked at the TGE, scaled by the ratio precision.
pub open spec fn tge_fraction(tge_percentage: int, ratio_precision: int) -> int {
    tge_percentage * ratio_precision / 100
}

/// Unlocked share under linear vesting after `days` days.
pub open spec fn linear_fraction(
    tge_percentage: int,
    cliff_days: int,
    vesting_days: int,
    ratio_precision: int,
    days: int,
) -> int {
    let tf = tge_fraction(tge_percentage, ratio_precision);
    if days < cliff_days || vesting_days == 0 {
        tf
    } else {
        min_int(ratio_precision, tf + (days - cliff_days) * ratio_precision / vesting_days)
    }
}

/// One stepped release: a fixed share of what is still locked moves to the
/// unlocked side. A release larger than the remainder leaves the remainder as
/// it was.
pub open spec fn step_once(state: (int, int), ratio_precision: int) -> (int, int) {
    let (unlocked, remaining) = state;
    let release = remaining * STEP_RELEASE / ratio_precision;
    (unlocked + release, if release <= remaining { remaining - release } else { remaining })
}

/// (unlocked, remaining) after `periods` stepped releases.
pub open spec fn stepped_state(tge_fraction: int, ratio_precision: int, periods: nat) -> (int, int)
    decreases periods,
{
    if periods == 0 {
        (tge_fraction, sat_sub(ratio_precision, tge_fraction))
    } else {
        step_once(stepped_state(tge_fraction, ratio_precision, (periods - 1) as nat), ratio_precision)
    }
}

/// Number of stepped releases that have happened `days` days after the TGE.
pub open spec fn stepped_periods(cliff_days: int, days: int) -> int {
    min_int(MAX_STEPS as int, (days - cliff_days) / STEP_DAYS as int)
}

/// Unlocked share under stepped vesting after `days` days.
pub open spec fn stepped_fraction(
    tge_percentage: int,
    cliff_days: int,
    ratio_precision: int,
    days: int,
) -> int {
    let tf = tge_fraction(tge_percentage, ratio_precision);
    if days < cliff_days {
        tf
    } else {
        let periods = stepped_periods(cliff_days, days);
        min_int(stepped_state(tf, ratio_precision, periods as nat).0, ratio_precision)
    }
}

/// Unlocked share, scaled by the ratio precision, `days` days after the TGE.
pub open spec fn unlocked_fraction_of(
    tge_percentage: int,
    cliff_days: int,
    vesting_days: int,
    ratio_precision: int,
    days: int,
    vesting_type: VestingType,
) -> int {
    match vesting_type {
        VestingType::Linear => linear_fraction(
            tge_percentage,
            cliff_days,
            vesting_days,
            ratio_precision,
            days,
        ),
        VestingType::Stepped => stepped_fraction(tge_percentage, cliff_days, ratio_precision, days),
    }
}

/// What stays locked of `initial` when `fraction / ratio_precision` of it is
/// unlocked (floor division).
pub open spec fn locked_amount_of(initial: int, fraction: int, ratio_precision: int) -> int {
    sat_sub(initial, initial * fraction / ratio_precision)
}

/// The full calculation for valid parameters.
pub open spec fn pool_calculation_spec(
    initial: u128,
    tge_percentage: u64,
    cliff_days: u64,
    vesting_days: u64,
    ratio_precision: u128,
    current_ts: u64,
    tge_ts: u64,
    seconds_per_day: u64,
    vesting_type: VestingType,
) -> PoolCalculation {
    let days = days_between(current_ts as int, tge_ts as int, seconds_per_day as int);
    let fraction = unlocked_fraction_of(
        tge_percentage as int,
        cliff_days as int,
        vesting_days as int,
        ratio_precision as int,
        days,
        vesting_type,
    );
    PoolCalculation {
        initial,
        ratio_precision,
        locked_amount: locked_amount_of(initial as int, fraction, ratio_precision as int) as u128,
        days_passed: days as u64,
        days_until_lock_ends: sat_sub(cliff_days as int, days) as u64,
        days_until_vesting_ends: sat_sub(cliff_days + vesting_days, days) as u64,
        unlocked_fraction: fraction as u128,
    }
}

/// What the calculator returns: the calculation for valid parameters, the
/// error otherwise.
pub open spec fn vesting_result(
    initial: u128,
    tge_percentage: u64,
    cliff_days: u64,
    vesting_days: u64,
    ratio_precision: u128,
    current_ts: u64,
    tge_ts: u64,
    seconds_per_day: u64,
    vesting_type: VestingType,
) -> Result<PoolCalculation, VestingError> {
    if params_valid(initial as int, cliff_days as int, vesting_days as int, ratio_precision as int)
        && seconds_per_day > 0 {
        Ok(
            pool_calculation_spec(
                initial,
                tge_percentage,
                cliff_days,
                vesting_days,
                ratio_precision,
                current_ts,
                tge_ts,
                seconds_per_day,
                vesting_type,
            ),
        )
    } else {
        Err(VestingError::InvalidVestingParameters)
    }
}

/// A stepped release never exceeds the fixed release share, and keeps the
/// remainder within `[0, ratio_precision]`.
proof fn lemma_step_bounds(state: (int, int), ratio_precision: int)
    requires
        0 < ratio_precision,
        0 <= state.1 <= ratio_precision,
    ensures
        state.1 * STEP_RELEASE / ratio_precision <= STEP_RELEASE,
        0 <= state.1 * STEP_RELEASE / ratio_precision,
        0 <= step_once(state, ratio_precision).1 <= ratio_precision,
        state.0 <= step_once(state, ratio_precision).0 <= state.0 + STEP_RELEASE,
{
    let rem = state.1;
    lemma_mul_inequality(rem, ratio_precision, STEP_RELEASE as int);
    lemma_div_is_ordered(rem * STEP_RELEASE, ratio_precision * STEP_RELEASE, ratio_precision);
    assert(ratio_precision * STEP_RELEASE == STEP_RELEASE * ratio_precision) by (nonlinear_arith);
    lemma_div_by_multiple(STEP_RELEASE as int, ratio_precision);
    assert(0 <= rem * STEP_RELEASE) by (nonlinear_arith)
        requires
            0 <= rem,
    ;
    lemma_div_is_ordered(0, rem * STEP_RELEASE, ratio_precision);
}

/// Bounds on the stepped state after any number of releases.
proof fn lemma_stepped_state_bounds(tge_fraction: int, ratio_precision: int, periods: nat)
    requires
        0 < ratio_precision,
        0 <= tge_fraction,
    ensures
        0 <= stepped_state(tge_fraction, ratio_precision, periods).1 <= ratio_precision,
        tge_fraction <= stepped_state(tge_fraction, ratio_precision, periods).0
            <= tge_fraction + periods * STEP_RELEASE,
    decreases periods,
{
    if periods > 0 {
        lemma_stepped_state_bounds(tge_fraction, ratio_precision, (periods - 1) as nat);
        lemma_step_bounds(
            stepped_state(tge_fraction, ratio_precision, (periods - 1) as nat),
            ratio_precision,
        );
    }
}

/// `initial * fraction / ratio_precision`, computed without an intermediate
/// product that could overflow.
fn scaled_share(initial: u128, fraction: u128, ratio_precision: u128) -> (r: u128)
    requires
        0 < ratio_precision <= MAX_RATIO_PRECISION,
        fraction < ratio_precision,
    ensures
        r == (initial as int) * (fraction as int) / (ratio_precision as int),
        r <= initial,
{
    let q = initial / ratio_precision;
    let rem = initial % ratio_precision;
    proof {
        lemma_fundamental_div_mod(initial as int, ratio_precision as int);
        assert(q * fraction <= q * ratio_precision) by (nonlinear_arith)
            requires
                fraction < ratio_precision,
                0 <= q,
        ;
        assert(rem * fraction < ratio_precision * ratio_precision) by (nonlinear_arith)
            requires
                0 <= rem < ratio_precision,
                0 <= fraction < ratio_precision,
        ;
        assert(ratio_precision * ratio_precision <= MAX_RATIO_PRECISION * MAX_RATIO_PRECISION)
            by (nonlinear_arith)
            requires
                0 < ratio_precision <= MAX_RATIO_PRECISION,
        ;
        assert(q * ratio_precision == ratio_precision * q) by (nonlinear_arith);
    }
    let low = rem * fraction / ratio_precision;
    proof {
        let rp = ratio_precision as int;
        let f = fraction as int;
        // initial * f == rp * (q * f) + rem * f
        assert(initial * f == rp * (q * f) + rem * f) by (nonlinear_arith)
            requires
                initial == rp * q + rem,
        ;
        lemma_fundamental_div_mod(rem * f, rp);
        let b = (rem * f) % rp;
        assert(initial * f == rp * (q * f + (rem * f) / rp) + b) by (nonlinear_arith)
            requires
                initial * f == rp * (q * f) + rem * f,
                rem * f == rp * ((rem * f) / rp) + b,
        ;
        lemma_div_multiples_vanish_fancy(q * f + (rem * f) / rp, b, rp);
        assert(low <= rem) by (nonlinear_arith)
            requires
                low == rem * f / rp,
                0 <= rem,
                0 <= f < rp,
                rem * f == rp * low + b,
                0 <= b,
        ;
    }
    q * fraction + low
}

/// Splits one pool's initial allocation into locked and unlocked parts at
/// `current_ts`, given its TGE share, cliff and vesting length in days, the
/// ratio precision and the release type. Days are counted in units of
/// `seconds_per_day` since `tge_ts`. Parameters out of bounds, or a day
/// length of zero, give `InvalidVestingParameters`.
pub fn calculate_pool_vesting(
    initial: u128,
    tge_percentage: u64,
    cliff_days: u64,
    vesting_days: u64,
    ratio_precision: u128,
    current_ts: u64,
    tge_ts: u64,
    seconds_per_day: u64,
    vesting_type: VestingType,
) -> (r: Result<PoolCalculation, VestingError>)
    ensures
        r == vesting_result(
            initial,
            tge_percentage,
            cliff_days,
            vesting_days,
            ratio_precision,
            current_ts,
            tge_ts,
            seconds_per_day,
            vesting_type,
        ),
        r is Ok <==> params_valid(
            initial as int,
            cliff_days as int,
            vesting_days as int,
            ratio_precision as int,
        ) && seconds_per_day > 0,
        r is Ok ==> r->Ok_0.locked_amount <= initial,
        r is Ok && tge_percentage <= 100 ==> r->Ok_0.unlocked_fraction <= ratio_precision,
{
    if initial > MAX_INITIAL || cliff_days > MAX_SCHEDULE_DAYS || vesting_days > MAX_SCHEDULE_DAYS
        || ratio_precision < MIN_RATIO_PRECISION || ratio_precision > MAX_RATIO_PRECISION
        || seconds_per_day == 0 {
        return Err(VestingError::InvalidVestingParameters);
    }
    let days: u64 = if current_ts <= tge_ts {
        0
    } else {
        (current_ts - tge_ts) / seconds_per_day
    };
    let days_until_lock_ends: u64 = if cliff_days >= days {
        cliff_days - days
    } else {
        0
    };
    let vesting_end: u64 = cliff_days + vesting_days;
    let days_until_vesting_ends: u64 = if vesting_end >= days {
        vesting_end - days
    } else {
        0
    };
    proof {
        assert(tge_percentage * ratio_precision <= 0xffff_ffff_ffff_ffff * MAX_RATIO_PRECISION)
            by (nonlinear_arith)
            requires
                tge_percentage <= 0xffff_ffff_ffff_ffff,
                ratio_precision <= MAX_RATIO_PRECISION,
        ;
    }
    let tf: u128 = tge_percentage as u128 * ratio_precision / 100;
    proof {
        lemma_div_is_ordered(
            tge_percentage * ratio_precision,
            0xffff_ffff_ffff_ffff * MAX_RATIO_PRECISION,
            100,
        );
        assert(tge_percentage <= 100 ==> tf <= ratio_precision) by {
            if tge_percentage <= 100 {
                lemma_mul_inequality(tge_percentage as int, 100, ratio_precision as int);
                lemma_div_is_ordered(tge_percentage * ratio_precision, 100 * ratio_precision, 100);
                assert(100 * ratio_precision == ratio_precision * 100) by (nonlinear_arith);
                lemma_div_by_multiple(ratio_precision as int, 100);
            }
        }
    }
    let fraction: u128 = if days < cliff_days {
        tf
    } else {
        match vesting_type {
            VestingType::Linear => {
                if vesting_days == 0 {
                    tf
                } else {
                    let progress: u64 = days - cliff_days;
                    if progress >= vesting_days {
                        proof {
                            let p = progress as int;
                            let rp = ratio_precision as int;
                            let v = vesting_days as int;
                            lemma_mul_inequality(v, p, rp);
                            lemma_div_is_ordered(v * rp, p * rp, v);
                            assert(v * rp == rp * v) by (nonlinear_arith);
                            lemma_div_by_multiple(rp, v);
                        }
                        ratio_precision
                    } else {
                        proof {
                            assert(progress * ratio_precision <= MAX_SCHEDULE_DAYS
                                * MAX_RATIO_PRECISION) by (nonlinear_arith)
                                requires
                                    progress <= MAX_SCHEDULE_DAYS,
                                    ratio_precision <= MAX_RATIO_PRECISION,
                            ;
                            lemma_div_is_ordered(
                                0,
                                progress * ratio_precision,
                                vesting_days as int,
                            );
                            lemma_div_nonincreasing(progress * ratio_precision, vesting_days as int);
                        }
                        let gained: u128 = progress as u128 * ratio_precision
                            / vesting_days as u128;
                        let sum: u128 = tf + gained;
                        if sum < ratio_precision {
                            sum
                        } else {
                            ratio_precision
                        }
                    }
                }
            },
            VestingType::Stepped => {
                let elapsed: u64 = (days - cliff_days) / STEP_DAYS;
                let periods: u64 = if elapsed < MAX_STEPS {
                    elapsed
                } else {
                    MAX_STEPS
                };
                let mut unlocked: u128 = tf;
                let mut remaining: u128 = if ratio_precision >= tf {
                    ratio_precision - tf
                } else {
                    0
                };
                let mut i: u64 = 0;
                while i < periods
                    invariant
                        periods <= MAX_STEPS,
                        0 <= i <= periods,
                        MIN_RATIO_PRECISION <= ratio_precision <= MAX_RATIO_PRECISION,
                        tf <= 0xffff_ffff_ffff_ffff * MAX_RATIO_PRECISION / 100,
                        (unlocked as int, remaining as int) == stepped_state(
                            tf as int,
                            ratio_precision as int,
                            i as nat,
                        ),
                    decreases periods - i,
                {
                    proof {
                        lemma_stepped_state_bounds(tf as int, ratio_precision as int, i as nat);
                        lemma_step_bounds(
                            (unlocked as int, remaining as int),
                            ratio_precision as int,
                        );
                    }
                    let release: u128 = remaining * STEP_RELEASE / ratio_precision;
                    unlocked = unlocked + release;
                    if release <= remaining {
                        remaining = remaining - release;
                    }
                    i = i + 1;
                }
                if unlocked < ratio_precision {
                    unlocked
                } else {
                    ratio_precision
                }
            },
        }
    };
    let locked: u128 = if fraction >= ratio_precision {
        proof {
            lemma_mul_inequality(ratio_precision as int, fraction as int, initial as int);
            assert(ratio_precision * initial == initial * ratio_precision) by (nonlinear_arith);
            assert(fraction * initial == initial * fraction) by (nonlinear_arith);
            lemma_div_is_ordered(
                initial * ratio_precision,
                initial * fraction,
                ratio_precision as int,
            );
            lemma_div_by_multiple(initial as int, ratio_precision as int);
        }
        0
    } else {
        initial - scaled_share(initial, fraction, ratio_precision)
    };
    Ok(
        PoolCalculation {
            initial,
            ratio_precision,
            locked_amount: locked,
            days_passed: days,
            days_until_lock_ends,
            days_until_vesting_ends,
            unlocked_fraction: fraction,
        },
    )
}

/// Two results that each meet the calculator's contract on the same inputs
/// are equal: the calculation depends on its inputs alone.
pub proof fn lemma_vesting_deterministic(
    initial: u128,
    tge_percentage: u64,
    cliff_days: u64,
    vesting_days: u64,
    ratio_precision: u128,
    current_ts: u64,
    tge_ts: u64,
    seconds_per_day: u64,
    vesting_type: VestingType,
    first: Result<PoolCalculation, VestingError>,
    second: Result<PoolCalculation, VestingError>,
)
    requires
        first == vesting_result(
            initial,
            tge_percentage,
            cliff_days,
            vesting_days,
            ratio_precision,
            current_ts,
            tge_ts,
            seconds_per_day,
            vesting_type,
        ),
        second == vesting_result(
            initial,
            tge_percentage,
            cliff_days,
            vesting_days,
            ratio_precision,
            current_ts,
            tge_ts,
            seconds_per_day,
            vesting_type,
        ),
    ensures
        first == second,
{
}

/// A larger unlocked share never leaves more locked.
proof fn lemma_locked_antitone(initial: int, f1: int, f2: int, ratio_precision: int)
    requires
        0 <= initial,
        0 <= f1 <= f2,
        0 < ratio_precision,
    ensures
        locked_amount_of(initial, f2, ratio_precision) <= locked_amount_of(
            initial,
            f1,
            ratio_precision,
        ),
        0 <= locked_amount_of(initial, f1, ratio_precision) <= initial,
{
    lemma_mul_inequality(f1, f2, initial);
    assert(f1 * initial == initial * f1 && f2 * initial == initial * f2) by (nonlinear_arith);
    lemma_div_is_ordered(initial * f1, initial * f2, ratio_precision);
    assert(0 <= initial * f1) by (nonlinear_arith)
        requires
            0 <= initial,
            0 <= f1,
    ;
    lemma_div_is_ordered(0, initial * f1, ratio_precision);
}

/// At or beyond a full share nothing stays locked.
proof fn lemma_locked_zero_at_full(initial: int, f: int, ratio_precision: int)
    requires
        0 <= initial,
        ratio_precision <= f,
        0 < ratio_precision,
    ensures
        locked_amount_of(initial, f, ratio_precision) == 0,
{
    lemma_mul_inequality(ratio_precision, f, initial);
    assert(ratio_precision * initial == initial * ratio_precision) by (nonlinear_arith);
    assert(f * initial == initial * f) by (nonlinear_arith);
    lemma_div_is_ordered(initial * ratio_precision, initial * f, ratio_precision);
    lemma_div_by_multiple(initial, ratio_precision);
}

/// Under linear vesting the locked amount never grows as time passes, all
/// other inputs fixed.
pub proof fn lemma_linear_locked_nonincreasing(
    initial: u128,
    tge_percentage: u64,
    cliff_days: u64,
    vesting_days: u64,
    ratio_precision: u128,
    earlier_ts: u64,
    later_ts: u64,
    tge_ts: u64,
    seconds_per_day: u64,
)
    requires
        seconds_per_day > 0,
        earlier_ts <= later_ts,
        params_valid(initial as int, cliff_days as int, vesting_days as int, ratio_precision as int),
    ensures
        pool_calculation_spec(
            initial,
            tge_percentage,
            cliff_days,
            vesting_days,
            ratio_precision,
            later_ts,
            tge_ts,
            seconds_per_day,
            VestingType::Linear,
        ).locked_amount <= pool_calculation_spec(
            initial,
            tge_percentage,
            cliff_days,
            vesting_days,
            ratio_precision,
            earlier_ts,
            tge_ts,
            seconds_per_day,
            VestingType::Linear,
        ).locked_amount,
{
    let spd = seconds_per_day as int;
    let d1 = days_between(earlier_ts as int, tge_ts as int, spd);
    let d2 = days_between(later_ts as int, tge_ts as int, spd);
    if earlier_ts > tge_ts {
        lemma_div_is_ordered(earlier_ts - tge_ts, later_ts - tge_ts, spd);
    } else if later_ts > tge_ts {
        lemma_div_is_ordered(0, later_ts - tge_ts, spd);
    }
    assert(d1 <= d2);
    let rp = ratio_precision as int;
    let tf = tge_fraction(tge_percentage as int, rp);
    assert(0 <= tge_percentage * rp) by (nonlinear_arith)
        requires
            0 <= tge_percentage,
            0 <= rp,
    ;
    lemma_div_is_ordered(0, tge_percentage * rp, 100);
    let f1 = linear_fraction(tge_percentage as int, cliff_days as int, vesting_days as int, rp, d1);
    let f2 = linear_fraction(tge_percentage as int, cliff_days as int, vesting_days as int, rp, d2);
    if d1 >= cliff_days && vesting_days > 0 {
        let v = vesting_days as int;
        lemma_mul_inequality(d1 - cliff_days, d2 - cliff_days, rp);
        lemma_div_is_ordered((d1 - cliff_days) * rp, (d2 - cliff_days) * rp, v);
    }
    if d1 < cliff_days && d2 >= cliff_days && vesting_days > 0 {
        assert(0 <= (d2 - cliff_days) * rp) by (nonlinear_arith)
            requires
                d2 >= cliff_days,
                0 <= rp,
        ;
        lemma_div_is_ordered(0, (d2 - cliff_days) * rp, vesting_days as int);
    }
    assert(f1 <= f2 || f2 >= rp);
    assert(0 <= f1);
    if f1 <= f2 {
        lemma_locked_antitone(initial as int, f1, f2, rp);
    } else {
        lemma_locked_zero_at_full(initial as int, f2, rp);
        lemma_locked_antitone(initial as int, f1, f1, rp);
    }
    lemma_locked_antitone(initial as int, f2, f2, rp);
}

/// The TGE share of a percentage of at most 100 is at most the full share.
proof fn lemma_tge_fraction_bounds(tge_percentage: int, ratio_precision: int)
    requires
        0 <= tge_percentage <= 100,
        0 < ratio_precision,
    ensures
        0 <= tge_fraction(tge_percentage, ratio_precision) <= ratio_precision,
        tge_percentage == 100 ==> tge_fraction(tge_percentage, ratio_precision)
            == ratio_precision,
{
    lemma_mul_inequality(tge_percentage, 100, ratio_precision);
    lemma_div_is_ordered(tge_percentage * ratio_precision, 100 * ratio_precision, 100);
    assert(100 * ratio_precision == ratio_precision * 100) by (nonlinear_arith);
    lemma_div_by_multiple(ratio_precision, 100);
    assert(0 <= tge_percentage * ratio_precision) by (nonlinear_arith)
        requires
            0 <= tge_percentage,
            0 < ratio_precision,
    ;
    lemma_div_is_ordered(0, tge_percentage * ratio_precision, 100);
}

/// At the TGE itself no day has passed and exactly the TGE share is unlocked,
/// whatever the release type.
pub proof fn lemma_at_tge_only_tge_share(
    initial: u128,
    tge_percentage: u64,
    cliff_days: u64,
    vesting_days: u64,
    ratio_precision: u128,
    tge_ts: u64,
    seconds_per_day: u64,
    vesting_type: VestingType,
)
    requires
        seconds_per_day > 0,
        tge_percentage <= 100,
        params_valid(initial as int, cliff_days as int, vesting_days as int, ratio_precision as int),
    ensures
        ({
            let c = pool_calculation_spec(
                initial,
                tge_percentage,
                cliff_days,
                vesting_days,
                ratio_precision,
                tge_ts,
                tge_ts,
                seconds_per_day,
                vesting_type,
            );
            &&& c.days_passed == 0
            &&& c.unlocked_fraction == tge_fraction(tge_percentage as int, ratio_precision as int)
        }),
{
    let rp = ratio_precision as int;
    lemma_tge_fraction_bounds(tge_percentage as int, rp);
    // zero days past a zero-day cliff: no linear gain and no stepped period
    assert(0 * rp == 0);
    assert(stepped_periods(cliff_days as int, 0) == 0 || cliff_days > 0);
}

/// Once every stepped period has passed, unlocked is at least the full share,
/// provided the first release drains the remainder (a ratio precision of at
/// most the release share) or nothing was locked past the TGE.
proof fn lemma_stepped_reaches_full(tge_fraction: int, ratio_precision: int, periods: nat)
    requires
        0 < ratio_precision,
        0 <= tge_fraction <= ratio_precision,
        ratio_precision <= STEP_RELEASE || tge_fraction == ratio_precision,
        periods >= 1,
    ensures
        stepped_state(tge_fraction, ratio_precision, periods).0 >= ratio_precision,
    decreases periods,
{
    if periods == 1 {
        let rem = ratio_precision - tge_fraction;
        if ratio_precision <= STEP_RELEASE {
            lemma_mul_inequality(ratio_precision, STEP_RELEASE as int, rem);
            assert(ratio_precision * rem == rem * ratio_precision) by (nonlinear_arith);
            assert(STEP_RELEASE * rem == rem * STEP_RELEASE) by (nonlinear_arith);
            lemma_div_is_ordered(rem * ratio_precision, rem * STEP_RELEASE, ratio_precision);
            lemma_div_by_multiple(rem, ratio_precision);
        } else {
            assert(rem == 0);
        }
        lemma_step_bounds(stepped_state(tge_fraction, ratio_precision, 0), ratio_precision);
    } else {
        lemma_stepped_reaches_full(tge_fraction, ratio_precision, (periods - 1) as nat);
        lemma_stepped_state_bounds(tge_fraction, ratio_precision, (periods - 1) as nat);
        lemma_step_bounds(
            stepped_state(tge_fraction, ratio_precision, (periods - 1) as nat),
            ratio_precision,
        );
    }
}

/// Stepped vesting unlocks exactly the full share once all six periods have
/// passed after the cliff, for a ratio precision of at most the release share
/// or a TGE share of 100 percent. (With a larger precision each period
/// releases less than the whole remainder, and a remainder stays locked.)
pub proof fn lemma_stepped_fully_unlocked(
    initial: u128,
    tge_percentage: u64,
    cliff_days: u64,
    vesting_days: u64,
    ratio_precision: u128,
    current_ts: u64,
    tge_ts: u64,
    seconds_per_day: u64,
)
    requires
        seconds_per_day > 0,
        tge_percentage <= 100,
        params_valid(initial as int, cliff_days as int, vesting_days as int, ratio_precision as int),
        days_between(current_ts as int, tge_ts as int, seconds_per_day as int) - cliff_days
            >= MAX_STEPS * STEP_DAYS,
        ratio_precision <= STEP_RELEASE || tge_percentage == 100,
    ensures
        pool_calculation_spec(
            initial,
            tge_percentage,
            cliff_days,
            vesting_days,
            ratio_precision,
            current_ts,
            tge_ts,
            seconds_per_day,
            VestingType::Stepped,
        ).unlocked_fraction == ratio_precision,
{
    let rp = ratio_precision as int;
    let days = days_between(current_ts as int, tge_ts as int, seconds_per_day as int);
    lemma_tge_fraction_bounds(tge_percentage as int, rp);
    lemma_div_is_ordered(
        (MAX_STEPS * STEP_DAYS) as int,
        days - cliff_days,
        STEP_DAYS as int,
    );
    assert(stepped_periods(cliff_days as int, days) == MAX_STEPS);
    lemma_stepped_reaches_full(tge_fraction(tge_percentage as int, rp), rp, MAX_STEPS as nat);
}

} // verus!
