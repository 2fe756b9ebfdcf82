use crate::batch::{ChainReads, PoolRecord};
use crate::config::{OffchainPool, SupplyConfig};
use crate::utils::{human_amount, u256_to_human};
use crate::vesting::{
    calculate_pool_vesting, min_int, sat_sub, vesting_result, VestingError, VestingType,
    MAX_SCHEDULE_DAYS,
};
use vstd::prelude::*;

verus! {

/// Ratio precision of the off-chain allocation schedules.
pub const OFFCHAIN_RATIO_PRECISION: u128 = 1_000_000;

/// A pool whose parameters were out of bounds and which therefore counted
/// nothing as locked.
#[derive(Clone, Copy, Debug, PartialEq, Eq, Structural)]
pub enum PoolRef {
    /// Entry `index` of the off-chain pool list.
    Offchain { index: usize },
    /// Pool `index` of the chain at `chain` in the configuration.
    Onchain { chain: usize, index: usize },
}

/// The supply figures of one request, in the token's smallest unit.
#[derive(Clone, Debug)]
pub struct SupplySnapshot {
    /// Total supply net of burnt tokens, over all chains.
    pub total_supply: u128,
    pub burn_balance: u128,
    pub excluded_balance: u128,
    pub locked_balance: u128,
    pub circulating_supply: u128,
    /// The pools skipped for invalid parameters, off-chain ones first.
    pub invalid_pools: Vec<PoolRef>,
}

/// A sum that does not fit the amount type.
#[derive(Clone, Copy, Debug, PartialEq, Eq, Structural)]
pub enum SupplyError {
    Overflow,
}

/// What an off-chain pool keeps locked at `current_ts`, or why it counts
/// nothing.
pub open spec fn offchain_outcome(pool: OffchainPool, current_ts: u64, tge_ts: u64, seconds_per_day: u64) -> Result<
    u128,
    VestingError,
> {
    match vesting_result(
        pool.balance_at_tge,
        pool.tge_percentage,
        pool.cliff_days,
        pool.vesting_days,
        OFFCHAIN_RATIO_PRECISION,
        current_ts,
        tge_ts,
        seconds_per_day,
        pool.vesting_type,
    ) {
        Ok(c) => Ok(c.locked_amount),
        Err(e) => Err(e),
    }
}

/// What an on-chain pool keeps locked at `current_ts`, or why it counts
/// nothing: a reserved pool keeps its whole balance; any other vests
/// linearly from a TGE share of zero, its durations turned into days.
pub open spec fn onchain_outcome(
    record: PoolRecord,
    units_per_day: u64,
    current_ts: u64,
    tge_ts: u64,
    seconds_per_day: u64,
) -> Result<u128, VestingError> {
    match record {
        PoolRecord::Reserved { balance } => Ok(balance),
        PoolRecord::Vesting { initial, lock_period_raw, vesting_duration_raw, ratio_precision } => {
            if units_per_day == 0 || (lock_period_raw as int) / (units_per_day as int) > MAX_SCHEDULE_DAYS
                || (vesting_duration_raw as int) / (units_per_day as int) > MAX_SCHEDULE_DAYS {
                Err(VestingError::InvalidVestingParameters)
            } else {
                match vesting_result(
                    initial,
                    0,
                    ((lock_period_raw as int) / (units_per_day as int)) as u64,
                    ((vesting_duration_raw as int) / (units_per_day as int)) as u64,
                    ratio_precision,
                    current_ts,
                    tge_ts,
                    seconds_per_day,
                    VestingType::Linear,
                ) {
                    Ok(c) => Ok(c.locked_amount),
                    Err(e) => Err(e),
                }
            }
        },
    }
}

/// The locked amount of an outcome; an invalid pool counts zero.
pub open spec fn locked_or_zero(o: Result<u128, VestingError>) -> int {
    match o {
        Ok(v) => v as int,
        Err(_) => 0,
    }
}

/// Sum of the first `n` values of `s`.
pub open spec fn seq_sum(s: Seq<u128>, n: nat) -> int
    decreases n,
{
    if n == 0 {
        0
    } else {
        seq_sum(s, (n - 1) as nat) + s[n - 1]
    }
}

/// Locked amounts of the first `n` off-chain pools.
pub open spec fn offchain_locked_sum(
    pools: Seq<OffchainPool>,
    n: nat,
    current_ts: u64,
    tge_ts: u64,
    seconds_per_day: u64,
) -> int
    decreases n,
{
    if n == 0 {
        0
    } else {
        offchain_locked_sum(pools, (n - 1) as nat, current_ts, tge_ts, seconds_per_day)
            + locked_or_zero(offchain_outcome(pools[n - 1], current_ts, tge_ts, seconds_per_day))
    }
}

/// Locked amounts of the first `n` pool records of a chain.
pub open spec fn records_locked_sum(
    records: Seq<PoolRecord>,
    n: nat,
    units_per_day: u64,
    current_ts: u64,
    tge_ts: u64,
    seconds_per_day: u64,
) -> int
    decreases n,
{
    if n == 0 {
        0
    } else {
        records_locked_sum(records, (n - 1) as nat, units_per_day, current_ts, tge_ts, seconds_per_day)
            + locked_or_zero(
            onchain_outcome(records[n - 1], units_per_day, current_ts, tge_ts, seconds_per_day),
        )
    }
}

/// Locked amounts of the on-chain pools of the first `n` chains.
pub open spec fn chains_locked_sum(
    reads: Seq<ChainReads>,
    n: nat,
    current_ts: u64,
    tge_ts: u64,
    seconds_per_day: u64,
) -> int
    decreases n,
{
    if n == 0 {
        0
    } else {
        let c = reads[n - 1];
        chains_locked_sum(reads, (n - 1) as nat, current_ts, tge_ts, seconds_per_day)
            + records_locked_sum(
            c.pools@,
            c.pools@.len(),
            c.units_per_day,
            current_ts,
            tge_ts,
            seconds_per_day,
        )
    }
}

/// Total supply net of burns, each chain clamped at zero, over the first `n`
/// chains.
pub open spec fn chains_net_total(reads: Seq<ChainReads>, n: nat) -> int
    decreases n,
{
    if n == 0 {
        0
    } else {
        chains_net_total(reads, (n - 1) as nat) + sat_sub(
            reads[n - 1].total_supply as int,
            reads[n - 1].burn_balance as int,
        )
    }
}

/// Burn balances of the first `n` chains.
pub open spec fn chains_burn_sum(reads: Seq<ChainReads>, n: nat) -> int
    decreases n,
{
    if n == 0 {
        0
    } else {
        chains_burn_sum(reads, (n - 1) as nat) + reads[n - 1].burn_balance
    }
}

/// Excluded balances of the first `n` chains.
pub open spec fn chains_excluded_sum(reads: Seq<ChainReads>, n: nat) -> int
    decreases n,
{
    if n == 0 {
        0
    } else {
        let e = reads[n - 1].excluded_balances@;
        chains_excluded_sum(reads, (n - 1) as nat) + seq_sum(e, e.len())
    }
}

/// The off-chain pools among the first `n` whose parameters are invalid.
pub open spec fn offchain_warnings(
    pools: Seq<OffchainPool>,
    n: nat,
    current_ts: u64,
    tge_ts: u64,
    seconds_per_day: u64,
) -> Seq<PoolRef>
    decreases n,
{
    if n == 0 {
        seq![]
    } else {
        let rest = offchain_warnings(pools, (n - 1) as nat, current_ts, tge_ts, seconds_per_day);
        if offchain_outcome(pools[n - 1], current_ts, tge_ts, seconds_per_day) is Err {
            rest.push(PoolRef::Offchain { index: (n - 1) as usize })
        } else {
            rest
        }
    }
}

/// The pools among the first `n` records of chain `chain` whose parameters
/// are invalid.
pub open spec fn record_warnings(
    chain: int,
    records: Seq<PoolRecord>,
    n: nat,
    units_per_day: u64,
    current_ts: u64,
    tge_ts: u64,
    seconds_per_day: u64,
) -> Seq<PoolRef>
    decreases n,
{
    if n == 0 {
        seq![]
    } else {
        let rest = record_warnings(
            chain,
            records,
            (n - 1) as nat,
            units_per_day,
            current_ts,
            tge_ts,
            seconds_per_day,
        );
        if onchain_outcome(records[n - 1], units_per_day, current_ts, tge_ts, seconds_per_day) is Err {
            rest.push(PoolRef::Onchain { chain: chain as usize, index: (n - 1) as usize })
        } else {
            rest
        }
    }
}

/// The on-chain pools of the first `n` chains whose parameters are invalid.
pub open spec fn chain_warnings(
    reads: Seq<ChainReads>,
    n: nat,
    current_ts: u64,
    tge_ts: u64,
    seconds_per_day: u64,
) -> Seq<PoolRef>
    decreases n,
{
    if n == 0 {
        seq![]
    } else {
        let c = reads[n - 1];
        chain_warnings(reads, (n - 1) as nat, current_ts, tge_ts, seconds_per_day)
            + record_warnings(
            n - 1,
            c.pools@,
            c.pools@.len(),
            c.units_per_day,
            current_ts,
            tge_ts,
            seconds_per_day,
        )
    }
}

/// Total supply net of burns over all chains.
pub open spec fn net_total(reads: Seq<ChainReads>) -> int {
    chains_net_total(reads, reads.len())
}

/// Burn balances over all chains.
pub open spec fn burn_total(reads: Seq<ChainReads>) -> int {
    chains_burn_sum(reads, reads.len())
}

/// Excluded balances over all chains.
pub open spec fn excluded_total(reads: Seq<ChainReads>) -> int {
    chains_excluded_sum(reads, reads.len())
}

/// Locked amounts over every off-chain pool and every on-chain pool.
pub open spec fn locked_total(config: SupplyConfig, reads: Seq<ChainReads>, current_ts: u64) -> int {
    offchain_locked_sum(
        config.offchain_pools@,
        config.offchain_pools@.len(),
        current_ts,
        config.tge_timestamp,
        config.seconds_per_day,
    ) + chains_locked_sum(
        reads,
        reads.len(),
        current_ts,
        config.tge_timestamp,
        config.seconds_per_day,
    )
}

/// Every pool skipped for invalid parameters, off-chain ones first.
pub open spec fn all_warnings(config: SupplyConfig, reads: Seq<ChainReads>, current_ts: u64) -> Seq<
    PoolRef,
> {
    offchain_warnings(
        config.offchain_pools@,
        config.offchain_pools@.len(),
        current_ts,
        config.tge_timestamp,
        config.seconds_per_day,
    ) + chain_warnings(reads, reads.len(), current_ts, config.tge_timestamp, config.seconds_per_day)
}

/// The circulating supply: the total less the excluded balance less the
/// locked balance, each subtraction clamped at zero on its own.
pub open spec fn circulating_of(total: int, excluded: int, locked: int) -> int {
    sat_sub(sat_sub(if total >= 0 {
        total
    } else {
        0
    }, excluded), locked)
}

/// Whether every sum of a snapshot fits the amount type.
pub open spec fn snapshot_fits(config: SupplyConfig, reads: Seq<ChainReads>, current_ts: u64) -> bool {
    &&& net_total(reads) <= u128::MAX
    &&& burn_total(reads) <= u128::MAX
    &&& excluded_total(reads) <= u128::MAX
    &&& locked_total(config, reads, current_ts) <= u128::MAX
}

/// The circulating supply of `reads` under `config` at `current_ts`.
pub open spec fn circulating_total(config: SupplyConfig, reads: Seq<ChainReads>, current_ts: u64) -> int {
    circulating_of(net_total(reads), excluded_total(reads), locked_total(config, reads, current_ts))
}

/// `s` holds the figures of `reads` under `config` at `current_ts`.
pub open spec fn snapshot_matches(
    config: SupplyConfig,
    reads: Seq<ChainReads>,
    current_ts: u64,
    s: SupplySnapshot,
) -> bool {
    &&& s.total_supply == net_total(reads)
    &&& s.burn_balance == burn_total(reads)
    &&& s.excluded_balance == excluded_total(reads)
    &&& s.locked_balance == locked_total(config, reads, current_ts)
    &&& s.circulating_supply == circulating_total(config, reads, current_ts)
    &&& s.invalid_pools@ == all_warnings(config, reads, current_ts)
}

/// `r` is the circulating supply written in whole tokens, or the overflow
/// error exactly when some sum does not fit.
pub open spec fn circulating_text(
    config: SupplyConfig,
    reads: Seq<ChainReads>,
    current_ts: u64,
    decimals: u8,
    r: Result<String, SupplyError>,
) -> bool {
    &&& r is Ok <==> snapshot_fits(config, reads, current_ts)
    &&& r is Ok ==> r->Ok_0@ == human_amount(
        circulating_total(config, reads, current_ts) as nat,
        decimals as nat,
    )
    &&& r is Err ==> r->Err_0 == SupplyError::Overflow
}

/// `v`, or the largest amount where `v` exceeds it.
pub open spec fn capped(v: int) -> int {
    min_int(v, u128::MAX as int)
}

/// Adds `x` to a running sum that is kept capped at the largest amount,
/// with a flag that records whether the true sum went past it.
fn add_capped(acc: u128, over: bool, x: u128, Ghost(sum): Ghost<int>) -> (r: (u128, bool))
    requires
        sum >= 0,
        acc == capped(sum),
        over == (sum > u128::MAX),
    ensures
        r.0 == capped(sum + x),
        r.1 == (sum + x > u128::MAX),
{
    if over {
        (u128::MAX, true)
    } else if acc > u128::MAX - x {
        (u128::MAX, true)
    } else {
        (acc + x, false)
    }
}

/// What an off-chain pool keeps locked at `current_ts`, or
/// `InvalidVestingParameters` for a pool out of bounds.
pub fn offchain_pool_locked(pool: &OffchainPool, current_ts: u64, tge_ts: u64, seconds_per_day: u64) -> (r:
    Result<u128, VestingError>)
    ensures
        r == offchain_outcome(*pool, current_ts, tge_ts, seconds_per_day),
{
    match calculate_pool_vesting(
        pool.balance_at_tge,
        pool.tge_percentage,
        pool.cliff_days,
        pool.vesting_days,
        OFFCHAIN_RATIO_PRECISION,
        current_ts,
        tge_ts,
        seconds_per_day,
        pool.vesting_type,
    ) {
        Ok(c) => Ok(c.locked_amount),
        Err(e) => Err(e),
    }
}

/// What an on-chain pool keeps locked at `current_ts`: a reserved pool its
/// whole balance, any other what linear vesting from a zero TGE share leaves
/// locked, its raw durations divided by `units_per_day`. Out-of-bounds
/// parameters give `InvalidVestingParameters`.
pub fn onchain_pool_locked(
    record: PoolRecord,
    units_per_day: u64,
    current_ts: u64,
    tge_ts: u64,
    seconds_per_day: u64,
) -> (r: Result<u128, VestingError>)
    ensures
        r == onchain_outcome(record, units_per_day, current_ts, tge_ts, seconds_per_day),
{
    match record {
        PoolRecord::Reserved { balance } => Ok(balance),
        PoolRecord::Vesting { initial, lock_period_raw, vesting_duration_raw, ratio_precision } => {
            if units_per_day == 0 {
                return Err(VestingError::InvalidVestingParameters);
            }
            let lock_days = lock_period_raw / units_per_day as u128;
            let vesting_days = vesting_duration_raw / units_per_day as u128;
            if lock_days > MAX_SCHEDULE_DAYS as u128 || vesting_days > MAX_SCHEDULE_DAYS as u128 {
                return Err(VestingError::InvalidVestingParameters);
            }
            match calculate_pool_vesting(
                initial,
                0,
                lock_days as u64,
                vesting_days as u64,
                ratio_precision,
                current_ts,
                tge_ts,
                seconds_per_day,
                VestingType::Linear,
            ) {
                Ok(c) => Ok(c.locked_amount),
                Err(e) => Err(e),
            }
        },
    }
}

/// Total supply net of burns: per chain the total supply less the burn
/// balance, clamped at zero, summed over all chains.
pub fn total_supply_value(reads: &Vec<ChainReads>) -> (r: Result<u128, SupplyError>)
    ensures
        r is Ok <==> net_total(reads@) <= u128::MAX,
        r is Ok ==> r->Ok_0 == net_total(reads@),
        r is Err ==> r->Err_0 == SupplyError::Overflow,
{
    let mut acc: u128 = 0;
    let mut over = false;
    let mut k: usize = 0;
    while k < reads.len()
        invariant
            0 <= k <= reads@.len(),
            chains_net_total(reads@, k as nat) >= 0,
            acc == capped(chains_net_total(reads@, k as nat)),
            over == (chains_net_total(reads@, k as nat) > u128::MAX),
        decreases reads@.len() - k,
    {
        let c = &reads[k];
        let net: u128 = if c.total_supply >= c.burn_balance {
            c.total_supply - c.burn_balance
        } else {
            0
        };
        let r = add_capped(acc, over, net, Ghost(chains_net_total(reads@, k as nat)));
        acc = r.0;
        over = r.1;
        k = k + 1;
    }
    if over {
        Err(SupplyError::Overflow)
    } else {
        Ok(acc)
    }
}

/// The supply figures of one request: `reads` holds each chain's decoded
/// batch, `current_ts` the time at which vesting is evaluated.
pub fn supply_snapshot(config: &SupplyConfig, reads: &Vec<ChainReads>, current_ts: u64) -> (r:
    Result<SupplySnapshot, SupplyError>)
    ensures
        r is Ok <==> snapshot_fits(*config, reads@, current_ts),
        match r {
            Ok(s) => snapshot_matches(*config, reads@, current_ts, s),
            Err(e) => e == SupplyError::Overflow,
        },
{
    let tge_ts = config.tge_timestamp;
    let spd = config.seconds_per_day;
    let ghost pools = config.offchain_pools@;
    let mut warnings: Vec<PoolRef> = Vec::new();
    let mut locked: u128 = 0;
    let mut locked_over = false;
    let mut p: usize = 0;
    while p < config.offchain_pools.len()
        invariant
            0 <= p <= pools.len(),
            pools == config.offchain_pools@,
            tge_ts == config.tge_timestamp,
            spd == config.seconds_per_day,
            offchain_locked_sum(pools, p as nat, current_ts, tge_ts, spd) >= 0,
            locked == capped(offchain_locked_sum(pools, p as nat, current_ts, tge_ts, spd)),
            locked_over == (offchain_locked_sum(pools, p as nat, current_ts, tge_ts, spd)
                > u128::MAX),
            warnings@ == offchain_warnings(pools, p as nat, current_ts, tge_ts, spd),
        decreases pools.len() - p,
    {
        let outcome = offchain_pool_locked(&config.offchain_pools[p], current_ts, tge_ts, spd);
        let amount: u128 = match outcome {
            Ok(v) => v,
            Err(_) => {
                warnings.push(PoolRef::Offchain { index: p });
                0
            },
        };
        let r = add_capped(
            locked,
            locked_over,
            amount,
            Ghost(offchain_locked_sum(pools, p as nat, current_ts, tge_ts, spd)),
        );
        locked = r.0;
        locked_over = r.1;
        p = p + 1;
    }
    let ghost off_sum = offchain_locked_sum(pools, pools.len(), current_ts, tge_ts, spd);
    let ghost off_warn = warnings@;
    let mut net: u128 = 0;
    let mut net_over = false;
    let mut burn: u128 = 0;
    let mut burn_over = false;
    let mut excluded: u128 = 0;
    let mut excluded_over = false;
    let mut k: usize = 0;
    while k < reads.len()
        invariant
            0 <= k <= reads@.len(),
            tge_ts == config.tge_timestamp,
            spd == config.seconds_per_day,
            off_sum >= 0,
            chains_net_total(reads@, k as nat) >= 0,
            net == capped(chains_net_total(reads@, k as nat)),
            net_over == (chains_net_total(reads@, k as nat) > u128::MAX),
            chains_burn_sum(reads@, k as nat) >= 0,
            burn == capped(chains_burn_sum(reads@, k as nat)),
            burn_over == (chains_burn_sum(reads@, k as nat) > u128::MAX),
            chains_excluded_sum(reads@, k as nat) >= 0,
            excluded == capped(chains_excluded_sum(reads@, k as nat)),
            excluded_over == (chains_excluded_sum(reads@, k as nat) > u128::MAX),
            chains_locked_sum(reads@, k as nat, current_ts, tge_ts, spd) >= 0,
            locked == capped(off_sum + chains_locked_sum(reads@, k as nat, current_ts, tge_ts, spd)),
            locked_over == (off_sum + chains_locked_sum(reads@, k as nat, current_ts, tge_ts, spd)
                > u128::MAX),
            warnings@ == off_warn + chain_warnings(reads@, k as nat, current_ts, tge_ts, spd),
        decreases reads@.len() - k,
    {
        let c = &reads[k];
        let chain_net: u128 = if c.total_supply >= c.burn_balance {
            c.total_supply - c.burn_balance
        } else {
            0
        };
        let r = add_capped(net, net_over, chain_net, Ghost(chains_net_total(reads@, k as nat)));
        net = r.0;
        net_over = r.1;
        let r = add_capped(burn, burn_over, c.burn_balance, Ghost(chains_burn_sum(reads@, k as nat)));
        burn = r.0;
        burn_over = r.1;
        let ghost ex = c.excluded_balances@;
        let mut i: usize = 0;
        while i < c.excluded_balances.len()
            invariant
                0 <= i <= ex.len(),
                ex == c.excluded_balances@,
                chains_excluded_sum(reads@, k as nat) + seq_sum(ex, i as nat) >= 0,
                excluded == capped(chains_excluded_sum(reads@, k as nat) + seq_sum(ex, i as nat)),
                excluded_over == (chains_excluded_sum(reads@, k as nat) + seq_sum(ex, i as nat)
                    > u128::MAX),
            decreases ex.len() - i,
        {
            let r = add_capped(
                excluded,
                excluded_over,
                c.excluded_balances[i],
                Ghost(chains_excluded_sum(reads@, k as nat) + seq_sum(ex, i as nat)),
            );
            excluded = r.0;
            excluded_over = r.1;
            i = i + 1;
        }
        let ghost recs = c.pools@;
        let ghost upd = c.units_per_day;
        let ghost before = off_sum + chains_locked_sum(reads@, k as nat, current_ts, tge_ts, spd);
        let ghost warn_before = warnings@;
        let mut j: usize = 0;
        while j < c.pools.len()
            invariant
                0 <= j <= recs.len(),
                recs == c.pools@,
                upd == c.units_per_day,
                before >= 0,
                records_locked_sum(recs, j as nat, upd, current_ts, tge_ts, spd) >= 0,
                locked == capped(before + records_locked_sum(recs, j as nat, upd, current_ts, tge_ts, spd)),
                locked_over == (before + records_locked_sum(recs, j as nat, upd, current_ts, tge_ts, spd)
                    > u128::MAX),
                warnings@ == warn_before + record_warnings(
                    k as int,
                    recs,
                    j as nat,
                    upd,
                    current_ts,
                    tge_ts,
                    spd,
                ),
            decreases recs.len() - j,
        {
            let outcome = onchain_pool_locked(c.pools[j], c.units_per_day, current_ts, tge_ts, spd);
            let amount: u128 = match outcome {
                Ok(v) => v,
                Err(_) => {
                    warnings.push(PoolRef::Onchain { chain: k, index: j });
                    0
                },
            };
            let r = add_capped(
                locked,
                locked_over,
                amount,
                Ghost(before + records_locked_sum(recs, j as nat, upd, current_ts, tge_ts, spd)),
            );
            locked = r.0;
            locked_over = r.1;
            j = j + 1;
            assert(warnings@ =~= warn_before + record_warnings(
                k as int,
                recs,
                j as nat,
                upd,
                current_ts,
                tge_ts,
                spd,
            ));
        }
        k = k + 1;
        assert(warnings@ =~= off_warn + chain_warnings(reads@, k as nat, current_ts, tge_ts, spd));
    }
    if net_over || burn_over || excluded_over || locked_over {
        return Err(SupplyError::Overflow);
    }
    let after_excluded: u128 = if net >= excluded {
        net - excluded
    } else {
        0
    };
    let circulating: u128 = if after_excluded >= locked {
        after_excluded - locked
    } else {
        0
    };
    Ok(
        SupplySnapshot {
            total_supply: net,
            burn_balance: burn,
            excluded_balance: excluded,
            locked_balance: locked,
            circulating_supply: circulating,
            invalid_pools: warnings,
        },
    )
}

/// Total supply net of burns over all chains, written in whole tokens of
/// `10^decimals` units.
pub fn total_supply_string(reads: &Vec<ChainReads>, decimals: u8) -> (r: Result<String, SupplyError>)
    ensures
        r is Ok <==> net_total(reads@) <= u128::MAX,
        r is Ok ==> r->Ok_0@ == human_amount(net_total(reads@) as nat, decimals as nat),
        r is Err ==> r->Err_0 == SupplyError::Overflow,
{
    match total_supply_value(reads) {
        Ok(v) => Ok(u256_to_human(v, decimals)),
        Err(e) => Err(e),
    }
}

/// The circulating supply of `reads` under `config` at `current_ts`, written
/// in whole tokens of `10^decimals` units.
pub fn circulating_supply_string(
    config: &SupplyConfig,
    reads: &Vec<ChainReads>,
    current_ts: u64,
    decimals: u8,
) -> (r: Result<String, SupplyError>)
    ensures
        circulating_text(*config, reads@, current_ts, decimals, r),
{
    match supply_snapshot(config, reads, current_ts) {
        Ok(s) => Ok(u256_to_human(s.circulating_supply, decimals)),
        Err(e) => Err(e),
    }
}

/// Two circulating-supply computations against the same chain state, the
/// same configuration and the same time give the same text, or both fail
/// alike.
pub proof fn lemma_circulating_idempotent(
    config: SupplyConfig,
    reads: Seq<ChainReads>,
    current_ts: u64,
    decimals: u8,
    first: Result<String, SupplyError>,
    second: Result<String, SupplyError>,
)
    requires
        circulating_text(config, reads, current_ts, decimals, first),
        circulating_text(config, reads, current_ts, decimals, second),
    ensures
        first is Ok <==> second is Ok,
        first is Ok ==> first->Ok_0@ == second->Ok_0@,
        first is Err ==> first->Err_0 == second->Err_0,
{
}

/// The circulating supply is never negative, never more than the total, and
/// is zero whenever the excluded balance reaches the total.
pub proof fn lemma_circulating_clamped(total: int, excluded: int, locked: int)
    requires
        0 <= excluded,
        0 <= locked,
    ensures
        0 <= circulating_of(total, excluded, locked),
        total >= 0 ==> circulating_of(total, excluded, locked) <= total,
        excluded >= total ==> circulating_of(total, excluded, locked) == 0,
{
}

} // verus!
