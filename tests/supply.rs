use matchain_supply_apis::batch::{
    batch_calls, decode_results, plan_batches, ChainReads, DecodeError, PoolRecord, ReadCall,
};
use matchain_supply_apis::config::{
    Address, AddressInfo, ChainSetup, OffchainPool, OnchainPool, SupplyConfig,
};
use matchain_supply_apis::supply::{
    circulating_supply_string, offchain_pool_locked, onchain_pool_locked, supply_snapshot,
    total_supply_string, total_supply_value, PoolRef, SupplyError,
};
use matchain_supply_apis::vesting::{VestingError, VestingType};

const DAY: u64 = 86_400;
const BLOCKS_PER_DAY: u64 = 172_800;
const TGE: u64 = 1_700_000_000;

fn addr(n: u8) -> Address {
    Address { bytes: [n; 20] }
}

fn on(n: u8, chain: u64) -> AddressInfo {
    AddressInfo { address: addr(n), chain }
}

fn sample_config() -> SupplyConfig {
    SupplyConfig {
        chains: vec![
            ChainSetup {
                chain: 1,
                units_per_day: BLOCKS_PER_DAY,
                pools: vec![
                    OnchainPool { address: addr(2), reserved: true },
                    OnchainPool { address: addr(4), reserved: false },
                ],
            },
            ChainSetup { chain: 56, units_per_day: DAY, pools: vec![] },
        ],
        excluded: vec![on(1, 1), on(2, 1), on(3, 56), on(5, 1)],
        offchain_pools: vec![OffchainPool {
            aliases: vec![on(5, 1)],
            tge_percentage: 10,
            cliff_days: 30,
            vesting_days: 90,
            vesting_type: VestingType::Linear,
            balance_at_tge: 1_000_000,
        }],
        burn_address: addr(0),
        tge_timestamp: TGE,
        seconds_per_day: DAY,
    }
}

fn chain_one_results() -> Vec<u128> {
    vec![
        10_000_000,
        500_000,
        1_000_000,
        2_000_000,
        3_000_000,
        10 * BLOCKS_PER_DAY as u128,
        100 * BLOCKS_PER_DAY as u128,
        1_000_000,
    ]
}

fn sample_reads(config: &SupplyConfig) -> Vec<ChainReads> {
    let plans = plan_batches(config);
    vec![
        decode_results(&plans[0], &chain_one_results()).unwrap(),
        decode_results(&plans[1], &vec![4_000_000, 0, 250_000]).unwrap(),
    ]
}

#[test]
fn plans_drop_pool_addresses_from_excluded() {
    let config = sample_config();
    let plans = plan_batches(&config);
    assert_eq!(plans.len(), 2);
    assert_eq!(plans[0].excluded, vec![addr(1)]);
    assert_eq!(plans[1].excluded, vec![addr(3)]);
    assert_eq!(plans[0].pools.len(), 2);
    assert_eq!(plans[0].units_per_day, BLOCKS_PER_DAY);
    assert_eq!(plans[1].chain, 56);
}

#[test]
fn batch_calls_in_schema_order() {
    let config = sample_config();
    let plans = plan_batches(&config);
    let calls = batch_calls(&plans[0]);
    assert_eq!(calls.len(), 8);
    assert!(matches!(calls[0], ReadCall::TotalSupply));
    assert!(matches!(calls[1], ReadCall::BurnBalance(a) if a == addr(0)));
    assert!(matches!(calls[2], ReadCall::ExcludedBalance(a) if a == addr(1)));
    assert!(matches!(calls[3], ReadCall::ReservedPoolBalance(a) if a == addr(2)));
    assert!(matches!(calls[4], ReadCall::InitialStake(a) if a == addr(4)));
    assert!(matches!(calls[5], ReadCall::LockPeriod(a) if a == addr(4)));
    assert!(matches!(calls[6], ReadCall::VestingDuration(a) if a == addr(4)));
    assert!(matches!(calls[7], ReadCall::RatioPrecision(a) if a == addr(4)));
    assert_eq!(batch_calls(&plans[1]).len(), 3);
}

#[test]
fn decode_reads_each_position() {
    let config = sample_config();
    let plans = plan_batches(&config);
    let reads = decode_results(&plans[0], &chain_one_results()).unwrap();
    assert_eq!(reads.total_supply, 10_000_000);
    assert_eq!(reads.burn_balance, 500_000);
    assert_eq!(reads.excluded_balances, vec![1_000_000]);
    assert_eq!(reads.pools[0], PoolRecord::Reserved { balance: 2_000_000 });
    assert_eq!(
        reads.pools[1],
        PoolRecord::Vesting {
            initial: 3_000_000,
            lock_period_raw: 10 * BLOCKS_PER_DAY as u128,
            vesting_duration_raw: 100 * BLOCKS_PER_DAY as u128,
            ratio_precision: 1_000_000,
        }
    );
    assert_eq!(reads.units_per_day, BLOCKS_PER_DAY);
}

#[test]
fn decode_short_results_fail() {
    let config = sample_config();
    let plans = plan_batches(&config);
    let mut short = chain_one_results();
    short.pop();
    assert_eq!(
        decode_results(&plans[0], &short).unwrap_err(),
        DecodeError::TooFewResults { received: 7 }
    );
    assert_eq!(
        decode_results(&plans[1], &vec![1]).unwrap_err(),
        DecodeError::TooFewResults { received: 1 }
    );
    assert_eq!(
        decode_results(&plans[1], &vec![1, 2]).unwrap_err(),
        DecodeError::TooFewResults { received: 2 }
    );
}

#[test]
fn snapshot_nets_all_balances() {
    let config = sample_config();
    let reads = sample_reads(&config);
    let s = supply_snapshot(&config, &reads, TGE + 60 * DAY).unwrap();
    assert_eq!(s.total_supply, 13_500_000);
    assert_eq!(s.burn_balance, 500_000);
    assert_eq!(s.excluded_balance, 1_250_000);
    // off-chain 566,667 + reserved 2,000,000 + on-chain vesting 1,500,000
    assert_eq!(s.locked_balance, 4_066_667);
    assert_eq!(s.circulating_supply, 8_183_333);
    assert!(s.invalid_pools.is_empty());
}

#[test]
fn pool_in_excluded_list_counted_once_as_locked() {
    let config = sample_config();
    let reads = sample_reads(&config);
    let s = supply_snapshot(&config, &reads, TGE + 60 * DAY).unwrap();
    // address 2 is excluded and a reserved pool: only its locked 2,000,000 counts
    assert_eq!(s.excluded_balance, 1_000_000 + 250_000);
    assert!(s.locked_balance >= 2_000_000);
}

#[test]
fn supply_strings() {
    let config = sample_config();
    let reads = sample_reads(&config);
    assert_eq!(circulating_supply_string(&config, &reads, TGE + 60 * DAY, 6).unwrap(), "8.183333");
    assert_eq!(total_supply_string(&reads, 6).unwrap(), "13.5");
    assert_eq!(total_supply_value(&reads).unwrap(), 13_500_000);
}

#[test]
fn repeated_computation_is_identical() {
    let config = sample_config();
    let reads = sample_reads(&config);
    let a = circulating_supply_string(&config, &reads, TGE + 77 * DAY, 18).unwrap();
    let b = circulating_supply_string(&config, &reads, TGE + 77 * DAY, 18).unwrap();
    assert_eq!(a, b);
}

fn single_chain(total: u128, burn: u128, excluded: Vec<u128>) -> Vec<ChainReads> {
    vec![ChainReads {
        total_supply: total,
        burn_balance: burn,
        excluded_balances: excluded,
        pools: vec![],
        units_per_day: DAY,
    }]
}

fn empty_config() -> SupplyConfig {
    SupplyConfig {
        chains: vec![],
        excluded: vec![],
        offchain_pools: vec![],
        burn_address: addr(0),
        tge_timestamp: TGE,
        seconds_per_day: DAY,
    }
}

#[test]
fn excluded_beyond_total_clamps_to_zero() {
    let reads = single_chain(1_000_000, 0, vec![700_000, 500_000]);
    let s = supply_snapshot(&empty_config(), &reads, TGE).unwrap();
    assert_eq!(s.excluded_balance, 1_200_000);
    assert_eq!(s.circulating_supply, 0);
    assert_eq!(circulating_supply_string(&empty_config(), &reads, TGE, 18).unwrap(), "0");
}

#[test]
fn burn_beyond_total_clamps_chain_to_zero() {
    let mut reads = single_chain(100, 300, vec![]);
    reads.push(ChainReads {
        total_supply: 1_000,
        burn_balance: 1,
        excluded_balances: vec![],
        pools: vec![],
        units_per_day: DAY,
    });
    assert_eq!(total_supply_value(&reads).unwrap(), 999);
}

#[test]
fn sums_past_the_amount_range_fail() {
    let mut reads = single_chain(u128::MAX, 0, vec![]);
    reads.push(ChainReads {
        total_supply: 1,
        burn_balance: 0,
        excluded_balances: vec![],
        pools: vec![],
        units_per_day: DAY,
    });
    assert_eq!(total_supply_value(&reads), Err(SupplyError::Overflow));
    assert_eq!(total_supply_string(&reads, 18), Err(SupplyError::Overflow));
    assert!(matches!(supply_snapshot(&empty_config(), &reads, TGE), Err(SupplyError::Overflow)));
    let excluded = single_chain(5, 0, vec![u128::MAX, 1]);
    assert!(matches!(supply_snapshot(&empty_config(), &excluded, TGE), Err(SupplyError::Overflow)));
    assert_eq!(total_supply_value(&single_chain(u128::MAX, 0, vec![])).unwrap(), u128::MAX);
}

#[test]
fn invalid_pools_count_nothing_and_are_reported() {
    let mut config = empty_config();
    config.offchain_pools = vec![
        OffchainPool {
            aliases: vec![],
            tge_percentage: 0,
            cliff_days: 3_000,
            vesting_days: 0,
            vesting_type: VestingType::Linear,
            balance_at_tge: 400,
        },
        OffchainPool {
            aliases: vec![],
            tge_percentage: 0,
            cliff_days: 10,
            vesting_days: 0,
            vesting_type: VestingType::Linear,
            balance_at_tge: 300,
        },
    ];
    let reads = vec![ChainReads {
        total_supply: 10_000,
        burn_balance: 0,
        excluded_balances: vec![],
        pools: vec![
            PoolRecord::Reserved { balance: 50 },
            PoolRecord::Vesting {
                initial: 1_000,
                lock_period_raw: 0,
                vesting_duration_raw: 0,
                ratio_precision: 10,
            },
        ],
        units_per_day: DAY,
    }];
    let s = supply_snapshot(&config, &reads, TGE).unwrap();
    assert_eq!(s.locked_balance, 350);
    assert_eq!(s.circulating_supply, 9_650);
    assert_eq!(
        s.invalid_pools,
        vec![PoolRef::Offchain { index: 0 }, PoolRef::Onchain { chain: 0, index: 1 }]
    );
}

#[test]
fn onchain_pool_durations_in_native_units() {
    let rec = PoolRecord::Vesting {
        initial: 500_000_000_000_000_000_000,
        lock_period_raw: 10 * BLOCKS_PER_DAY as u128,
        vesting_duration_raw: 100 * BLOCKS_PER_DAY as u128,
        ratio_precision: 1_000_000,
    };
    assert_eq!(
        onchain_pool_locked(rec, BLOCKS_PER_DAY, TGE + 60 * DAY, TGE, DAY),
        Ok(250_000_000_000_000_000_000)
    );
    assert_eq!(
        onchain_pool_locked(rec, 0, TGE, TGE, DAY),
        Err(VestingError::InvalidVestingParameters)
    );
    // a lock one day past the bound is rejected
    let long = PoolRecord::Vesting {
        initial: 1_000,
        lock_period_raw: 2191 * DAY as u128,
        vesting_duration_raw: 0,
        ratio_precision: 1_000,
    };
    assert_eq!(
        onchain_pool_locked(long, DAY, TGE, TGE, DAY),
        Err(VestingError::InvalidVestingParameters)
    );
    assert_eq!(onchain_pool_locked(PoolRecord::Reserved { balance: 9 }, 0, TGE, TGE, DAY), Ok(9));
}

#[test]
fn offchain_pool_uses_fixed_precision() {
    let pool = OffchainPool {
        aliases: vec![],
        tge_percentage: 10,
        cliff_days: 30,
        vesting_days: 90,
        vesting_type: VestingType::Linear,
        balance_at_tge: 1_000_000,
    };
    assert_eq!(offchain_pool_locked(&pool, TGE + 30 * DAY, TGE, DAY), Ok(900_000));
    assert_eq!(offchain_pool_locked(&pool, TGE + 60 * DAY, TGE, DAY), Ok(566_667));
}
