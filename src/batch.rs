use crate::config::{
    is_on_locked_path, on_locked_path, Address, AddressInfo, OnchainPool, SupplyConfig,
};
use vstd::prelude::*;

verus! {

/// One read of a batch, tagged with what it is for.
#[derive(Clone, Copy, Debug)]
pub enum ReadCall {
    /// The token's total supply on the chain.
    TotalSupply,
    /// The token balance of the burn address.
    BurnBalance(Address),
    /// The token balance of an excluded address.
    ExcludedBalance(Address),
    /// The token balance of a reserved pool.
    ReservedPoolBalance(Address),
    /// A pool contract's initial stake.
    InitialStake(Address),
    /// A pool contract's lock period, in the chain's native unit.
    LockPeriod(Address),
    /// A pool contract's vesting duration, in the chain's native unit.
    VestingDuration(Address),
    /// A pool contract's ratio-precision denominator.
    RatioPrecision(Address),
}

/// What one chain's batch reads: the excluded addresses left after removing
/// those counted on the locked path, and the chain's pools, in order.
#[derive(Clone, Debug)]
pub struct ChainPlan {
    pub chain: u64,
    pub units_per_day: u64,
    pub burn_address: Address,
    pub excluded: Vec<Address>,
    pub pools: Vec<OnchainPool>,
}

/// What was read for one pool.
#[derive(Clone, Copy, Debug, PartialEq, Eq, Structural)]
pub enum PoolRecord {
    Reserved { balance: u128 },
    Vesting {
        initial: u128,
        lock_period_raw: u128,
        vesting_duration_raw: u128,
        ratio_precision: u128,
    },
}

/// The decoded results of one chain's batch.
#[derive(Clone, Debug)]
pub struct ChainReads {
    pub total_supply: u128,
    pub burn_balance: u128,
    pub excluded_balances: Vec<u128>,
    pub pools: Vec<PoolRecord>,
    /// Copied from the plan: converts the pools' raw durations to days.
    pub units_per_day: u64,
}

/// A batch answered with fewer results than it asked for.
#[derive(Clone, Copy, Debug, PartialEq, Eq, Structural)]
pub enum DecodeError {
    TooFewResults { received: usize },
}

/// The excluded addresses of `entries` on `chain` that are not counted on
/// the locked path, in order.
pub open spec fn excluded_on_chain(config: SupplyConfig, entries: Seq<AddressInfo>, chain: u64) -> Seq<
    Address,
>
    decreases entries.len(),
{
    if entries.len() == 0 {
        seq![]
    } else {
        let rest = excluded_on_chain(config, entries.drop_last(), chain);
        let e = entries.last();
        if e.chain == chain && !on_locked_path(config, e.address) {
            rest.push(e.address)
        } else {
            rest
        }
    }
}

/// The plan of the chain at `index` of `config`.
pub open spec fn plan_matches(config: SupplyConfig, index: int, plan: ChainPlan) -> bool {
    let setup = config.chains@[index];
    &&& plan.chain == setup.chain
    &&& plan.units_per_day == setup.units_per_day
    &&& plan.burn_address == config.burn_address
    &&& plan.excluded@ == excluded_on_chain(config, config.excluded@, setup.chain)
    &&& plan.pools@ == setup.pools@
}

/// Number of reads for one pool.
pub open spec fn group_width(p: OnchainPool) -> int {
    if p.reserved {
        1
    } else {
        4
    }
}

/// The reads for one pool, in order.
pub open spec fn group_calls(p: OnchainPool) -> Seq<ReadCall> {
    if p.reserved {
        seq![ReadCall::ReservedPoolBalance(p.address)]
    } else {
        seq![
            ReadCall::InitialStake(p.address),
            ReadCall::LockPeriod(p.address),
            ReadCall::VestingDuration(p.address),
            ReadCall::RatioPrecision(p.address),
        ]
    }
}

/// Number of reads for all of `pools`.
pub open spec fn pools_width(pools: Seq<OnchainPool>) -> int
    decreases pools.len(),
{
    if pools.len() == 0 {
        0
    } else {
        pools_width(pools.drop_last()) + group_width(pools.last())
    }
}

/// The reads for all of `pools`, pool by pool.
pub open spec fn pool_calls(pools: Seq<OnchainPool>) -> Seq<ReadCall>
    decreases pools.len(),
{
    if pools.len() == 0 {
        seq![]
    } else {
        pool_calls(pools.drop_last()) + group_calls(pools.last())
    }
}

/// The reads of excluded balances, one per address.
pub open spec fn excluded_calls(excluded: Seq<Address>) -> Seq<ReadCall> {
    Seq::new(excluded.len(), |i: int| ReadCall::ExcludedBalance(excluded[i]))
}

/// The whole batch of a plan: total supply, burn balance, the excluded
/// balances, then the pools' reads.
pub open spec fn batch_calls_of(plan: ChainPlan) -> Seq<ReadCall> {
    seq![ReadCall::TotalSupply, ReadCall::BurnBalance(plan.burn_address)] + excluded_calls(
        plan.excluded@,
    ) + pool_calls(plan.pools@)
}

/// Number of results that a plan's batch answers with.
pub open spec fn expected_results(plan: ChainPlan) -> int {
    2 + plan.excluded@.len() + pools_width(plan.pools@)
}

/// Position of the first result of pool `j` of a plan.
pub open spec fn pool_offset(plan: ChainPlan, j: int) -> int {
    2 + plan.excluded@.len() + pools_width(plan.pools@.subrange(0, j))
}

/// The record of pool `p` read from `results` starting at `at`.
pub open spec fn record_at(p: OnchainPool, results: Seq<u128>, at: int) -> PoolRecord {
    if p.reserved {
        PoolRecord::Reserved { balance: results[at] }
    } else {
        PoolRecord::Vesting {
            initial: results[at],
            lock_period_raw: results[at + 1],
            vesting_duration_raw: results[at + 2],
            ratio_precision: results[at + 3],
        }
    }
}

/// A decoding of `results` for `plan`: every field taken from its position.
pub open spec fn decodes(plan: ChainPlan, results: Seq<u128>, reads: ChainReads) -> bool {
    let e = plan.excluded@.len() as int;
    &&& reads.total_supply == results[0]
    &&& reads.burn_balance == results[1]
    &&& reads.units_per_day == plan.units_per_day
    &&& reads.excluded_balances@ == results.subrange(2, 2 + e)
    &&& reads.pools@.len() == plan.pools@.len()
    &&& forall|j: int|
        0 <= j < plan.pools@.len() ==> #[trigger] reads.pools@[j] == record_at(
            plan.pools@[j],
            results,
            pool_offset(plan, j),
        )
}

proof fn lemma_pools_width_prefix(pools: Seq<OnchainPool>, j: int)
    requires
        0 <= j <= pools.len(),
    ensures
        0 <= pools_width(pools.subrange(0, j)) <= pools_width(pools),
        j < pools.len() ==> pools_width(pools.subrange(0, j + 1)) == pools_width(
            pools.subrange(0, j),
        ) + group_width(pools[j]),
        pool_calls(pools).len() == pools_width(pools),
    decreases pools.len(),
{
    if j < pools.len() {
        assert(pools.subrange(0, j + 1).drop_last() =~= pools.subrange(0, j));
    }
    if pools.len() > 0 {
        let init = pools.drop_last();
        if j < pools.len() {
            lemma_pools_width_prefix(init, j);
            assert(init.subrange(0, j) =~= pools.subrange(0, j));
        } else {
            lemma_pools_width_prefix(init, j - 1);
            assert(pools.subrange(0, j) =~= pools);
        }
    }
}

/// The reads of pool `j` stand in `pool_calls` at the width of the pools
/// before it.
proof fn lemma_pool_calls_index(pools: Seq<OnchainPool>, j: int, t: int)
    requires
        0 <= j < pools.len(),
        0 <= t < group_width(pools[j]),
    ensures
        pools_width(pools.subrange(0, j)) + t < pool_calls(pools).len(),
        pool_calls(pools)[pools_width(pools.subrange(0, j)) + t] == group_calls(pools[j])[t],
    decreases pools.len(),
{
    let init = pools.drop_last();
    lemma_pools_width_prefix(pools, j);
    lemma_pools_width_prefix(pools, j + 1);
    if j < pools.len() - 1 {
        lemma_pool_calls_index(init, j, t);
        assert(init.subrange(0, j) =~= pools.subrange(0, j));
        lemma_pools_width_prefix(init, j + 1);
        assert(init.subrange(0, j + 1) =~= pools.subrange(0, j + 1));
        lemma_pools_width_prefix(init, init.len() as int);
    } else {
        assert(init =~= pools.subrange(0, j));
        lemma_pools_width_prefix(init, init.len() as int);
        assert(init.subrange(0, init.len() as int) =~= init);
    }
}

/// The builder and the decoder agree on the schema: the batch has exactly as
/// many reads as the decoder consumes, and every field that the decoder takes
/// from a position is answered by the read that the builder placed there.
pub proof fn lemma_batch_positions(plan: ChainPlan)
    ensures
        batch_calls_of(plan).len() == expected_results(plan),
        batch_calls_of(plan)[0] == ReadCall::TotalSupply,
        batch_calls_of(plan)[1] == ReadCall::BurnBalance(plan.burn_address),
        forall|i: int|
            0 <= i < plan.excluded@.len() ==> #[trigger] batch_calls_of(plan)[2 + i]
                == ReadCall::ExcludedBalance(plan.excluded@[i]),
        forall|j: int, t: int|
            0 <= j < plan.pools@.len() && 0 <= t < group_width(plan.pools@[j]) ==> #[trigger]
            batch_calls_of(plan)[pool_offset(plan, j) + t] == #[trigger] group_calls(
                plan.pools@[j],
            )[t],
{
    let pools = plan.pools@;
    let head = seq![ReadCall::TotalSupply, ReadCall::BurnBalance(plan.burn_address)]
        + excluded_calls(plan.excluded@);
    lemma_pools_width_prefix(pools, 0);
    assert(batch_calls_of(plan) == head + pool_calls(pools));
    assert forall|j: int, t: int|
        0 <= j < pools.len() && 0 <= t < group_width(pools[j]) implies #[trigger] batch_calls_of(
        plan,
    )[pool_offset(plan, j) + t] == #[trigger] group_calls(pools[j])[t] by {
        lemma_pool_calls_index(pools, j, t);
        lemma_pools_width_prefix(pools, j);
        let x = pools_width(pools.subrange(0, j)) + t;
        assert(head.len() == 2 + plan.excluded@.len());
        assert((head + pool_calls(pools))[head.len() + x] == pool_calls(pools)[x]);
    }
}

/// The plan of every configured chain, in order. An excluded address goes to
/// the plan of its own chain, unless it is counted on the locked path.
pub fn plan_batches(config: &SupplyConfig) -> (r: Vec<ChainPlan>)
    ensures
        r@.len() == config.chains@.len(),
        forall|k: int| 0 <= k < r@.len() ==> plan_matches(*config, k, #[trigger] r@[k]),
{
    let mut plans: Vec<ChainPlan> = Vec::new();
    let mut k: usize = 0;
    while k < config.chains.len()
        invariant
            0 <= k <= config.chains@.len(),
            plans@.len() == k,
            forall|m: int| 0 <= m < k ==> plan_matches(*config, m, #[trigger] plans@[m]),
        decreases config.chains@.len() - k,
    {
        let setup = &config.chains[k];
        let mut excluded: Vec<Address> = Vec::new();
        let mut i: usize = 0;
        while i < config.excluded.len()
            invariant
                0 <= i <= config.excluded@.len(),
                setup == config.chains@[k as int],
                excluded@ == excluded_on_chain(
                    *config,
                    config.excluded@.subrange(0, i as int),
                    setup.chain,
                ),
            decreases config.excluded@.len() - i,
        {
            let e = config.excluded[i];
            if e.chain == setup.chain && !is_on_locked_path(config, e.address) {
                excluded.push(e.address);
            }
            proof {
                assert(config.excluded@.subrange(0, i + 1).drop_last()
                    =~= config.excluded@.subrange(0, i as int));
            }
            i = i + 1;
        }
        let mut pools: Vec<OnchainPool> = Vec::new();
        let mut j: usize = 0;
        while j < setup.pools.len()
            invariant
                0 <= j <= setup.pools@.len(),
                pools@ == setup.pools@.subrange(0, j as int),
            decreases setup.pools@.len() - j,
        {
            pools.push(setup.pools[j]);
            j = j + 1;
            assert(pools@ =~= setup.pools@.subrange(0, j as int));
        }
        proof {
            assert(config.excluded@.subrange(0, config.excluded@.len() as int) =~= config.excluded@);
            assert(setup.pools@.subrange(0, setup.pools@.len() as int) =~= setup.pools@);
        }
        plans.push(
            ChainPlan {
                chain: setup.chain,
                units_per_day: setup.units_per_day,
                burn_address: config.burn_address,
                excluded,
                pools,
            },
        );
        k = k + 1;
    }
    plans
}

/// The ordered, tagged reads of a plan's batch.
pub fn batch_calls(plan: &ChainPlan) -> (r: Vec<ReadCall>)
    ensures
        r@ == batch_calls_of(*plan),
{
    let mut calls: Vec<ReadCall> = Vec::new();
    calls.push(ReadCall::TotalSupply);
    calls.push(ReadCall::BurnBalance(plan.burn_address));
    let mut i: usize = 0;
    while i < plan.excluded.len()
        invariant
            0 <= i <= plan.excluded@.len(),
            calls@ == seq![ReadCall::TotalSupply, ReadCall::BurnBalance(plan.burn_address)]
                + excluded_calls(plan.excluded@.subrange(0, i as int)),
        decreases plan.excluded@.len() - i,
    {
        calls.push(ReadCall::ExcludedBalance(plan.excluded[i]));
        i = i + 1;
        assert(calls@ =~= seq![ReadCall::TotalSupply, ReadCall::BurnBalance(plan.burn_address)]
            + excluded_calls(plan.excluded@.subrange(0, i as int)));
    }
    assert(plan.excluded@.subrange(0, plan.excluded@.len() as int) =~= plan.excluded@);
    let ghost head = calls@;
    let mut j: usize = 0;
    while j < plan.pools.len()
        invariant
            0 <= j <= plan.pools@.len(),
            calls@ == head + pool_calls(plan.pools@.subrange(0, j as int)),
        decreases plan.pools@.len() - j,
    {
        let p = plan.pools[j];
        let a = p.address;
        if p.reserved {
            calls.push(ReadCall::ReservedPoolBalance(a));
        } else {
            calls.push(ReadCall::InitialStake(a));
            calls.push(ReadCall::LockPeriod(a));
            calls.push(ReadCall::VestingDuration(a));
            calls.push(ReadCall::RatioPrecision(a));
        }
        proof {
            assert(plan.pools@.subrange(0, j + 1).drop_last() =~= plan.pools@.subrange(
                0,
                j as int,
            ));
        }
        j = j + 1;
        assert(calls@ =~= head + pool_calls(plan.pools@.subrange(0, j as int)));
    }
    assert(plan.pools@.subrange(0, plan.pools@.len() as int) =~= plan.pools@);
    calls
}

/// Reads a batch's flat results back into records, strictly in the order in
/// which `batch_calls` asked for them. Fewer results than the batch asked
/// for is an error; results past those are not read.
pub fn decode_results(plan: &ChainPlan, results: &Vec<u128>) -> (r: Result<ChainReads, DecodeError>)
    ensures
        r is Ok <==> results@.len() >= expected_results(*plan),
        match r {
            Ok(reads) => decodes(*plan, results@, reads),
            Err(DecodeError::TooFewResults { received }) => received == results@.len(),
        },
{
    let n = results.len();
    proof {
        lemma_pools_width_prefix(plan.pools@, 0);
    }
    if n < 2 {
        return Err(DecodeError::TooFewResults { received: n });
    }
    let total_supply = results[0];
    let burn_balance = results[1];
    let mut at: usize = 2;
    let mut excluded_balances: Vec<u128> = Vec::new();
    let mut i: usize = 0;
    while i < plan.excluded.len()
        invariant
            0 <= i <= plan.excluded@.len(),
            n == results@.len(),
            at == 2 + i,
            at <= n,
            excluded_balances@ == results@.subrange(2, at as int),
        decreases plan.excluded@.len() - i,
    {
        if at >= n {
            proof {
                lemma_pools_width_prefix(plan.pools@, 0);
            }
            return Err(DecodeError::TooFewResults { received: n });
        }
        excluded_balances.push(results[at]);
        at = at + 1;
        i = i + 1;
        assert(excluded_balances@ =~= results@.subrange(2, at as int));
    }
    let mut pools: Vec<PoolRecord> = Vec::new();
    let mut j: usize = 0;
    while j < plan.pools.len()
        invariant
            0 <= j <= plan.pools@.len(),
            n == results@.len(),
            at == pool_offset(*plan, j as int),
            at <= n,
            pools@.len() == j,
            forall|m: int|
                0 <= m < j ==> #[trigger] pools@[m] == record_at(
                    plan.pools@[m],
                    results@,
                    pool_offset(*plan, m),
                ),
        decreases plan.pools@.len() - j,
    {
        proof {
            lemma_pools_width_prefix(plan.pools@, j as int);
            lemma_pools_width_prefix(plan.pools@, j + 1);
        }
        let p = plan.pools[j];
        if p.reserved {
            if n - at < 1 {
                return Err(DecodeError::TooFewResults { received: n });
            }
            pools.push(PoolRecord::Reserved { balance: results[at] });
            at = at + 1;
        } else {
            if n - at < 4 {
                return Err(DecodeError::TooFewResults { received: n });
            }
            pools.push(
                PoolRecord::Vesting {
                    initial: results[at],
                    lock_period_raw: results[at + 1],
                    vesting_duration_raw: results[at + 2],
                    ratio_precision: results[at + 3],
                },
            );
            at = at + 4;
        }
        j = j + 1;
    }
    proof {
        assert(plan.pools@.subrange(0, plan.pools@.len() as int) =~= plan.pools@);
    }
    Ok(
        ChainReads {
            total_supply,
            burn_balance,
            excluded_balances,
            pools,
            units_per_day: plan.units_per_day,
        },
    )
}

proof fn lemma_excluded_on_chain_off_locked_path(
    config: SupplyConfig,
    entries: Seq<AddressInfo>,
    chain: u64,
)
    ensures
        forall|i: int|
            0 <= i < excluded_on_chain(config, entries, chain).len() ==> !on_locked_path(
                config,
                #[trigger] excluded_on_chain(config, entries, chain)[i],
            ),
    decreases entries.len(),
{
    if entries.len() > 0 {
        let rest = excluded_on_chain(config, entries.drop_last(), chain);
        lemma_excluded_on_chain_off_locked_path(config, entries.drop_last(), chain);
        let all = excluded_on_chain(config, entries, chain);
        assert forall|i: int| 0 <= i < all.len() implies !on_locked_path(
            config,
            #[trigger] all[i],
        ) by {
            if i < rest.len() {
                assert(all[i] == rest[i]);
            }
        }
    }
}

/// No address counted on the locked path (an on-chain pool or an off-chain
/// pool address) is ever read as an excluded balance: such an address is
/// counted once, as locked, and left out of the excluded balance.
pub proof fn lemma_pool_addresses_not_excluded(config: SupplyConfig, index: int, plan: ChainPlan)
    requires
        0 <= index < config.chains@.len(),
        plan_matches(config, index, plan),
    ensures
        forall|i: int|
            0 <= i < plan.excluded@.len() ==> !on_locked_path(config, #[trigger] plan.excluded@[i]),
        forall|i: int|
            0 <= i < plan.excluded@.len() ==> #[trigger] batch_calls_of(plan)[2 + i]
                == ReadCall::ExcludedBalance(plan.excluded@[i]),
{
    lemma_excluded_on_chain_off_locked_path(
        config,
        config.excluded@,
        config.chains@[index].chain,
    );
    lemma_batch_positions(plan);
}

} // verus!
