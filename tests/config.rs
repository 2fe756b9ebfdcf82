use matchain_supply_apis::config::{
    default_vesting_type, entry_addresses, pool_from_entry, validate_address_lists,
    vesting_type_from_name, Address, AddressInfo, ConfigError, OnchainPool, PoolEntry,
};
use matchain_supply_apis::vesting::VestingType;

fn addr(n: u8) -> Address {
    Address { bytes: [n; 20] }
}

fn on(n: u8, chain: u64) -> AddressInfo {
    AddressInfo { address: addr(n), chain }
}

#[test]
fn disjoint_lists_are_valid() {
    let excluded = vec![on(1, 1), on(2, 56)];
    let pools = vec![OnchainPool { address: addr(3), reserved: true }];
    assert!(validate_address_lists(&excluded, &pools).is_ok());
    assert!(validate_address_lists(&vec![], &vec![]).is_ok());
}

#[test]
fn overlap_lists_every_offending_pool() {
    let excluded = vec![on(1, 1), on(2, 56), on(4, 1)];
    let pools = vec![
        OnchainPool { address: addr(4), reserved: false },
        OnchainPool { address: addr(3), reserved: true },
        OnchainPool { address: addr(2), reserved: true },
    ];
    match validate_address_lists(&excluded, &pools) {
        Err(ConfigError::AddressOverlap(found)) => assert_eq!(found, vec![addr(4), addr(2)]),
        Ok(()) => panic!("overlap not reported"),
    }
}

#[test]
fn addresses_differing_in_one_byte_are_distinct() {
    let mut other = addr(7);
    other.bytes[19] = 8;
    assert_ne!(addr(7), other);
    assert_eq!(addr(7), addr(7));
}

#[test]
fn vesting_type_names() {
    assert_eq!(vesting_type_from_name("stepped"), VestingType::Stepped);
    assert_eq!(vesting_type_from_name("linear"), VestingType::Linear);
    assert_eq!(vesting_type_from_name("Stepped"), VestingType::Linear);
    assert_eq!(vesting_type_from_name("steppe"), VestingType::Linear);
    assert_eq!(vesting_type_from_name(""), VestingType::Linear);
    assert_eq!(default_vesting_type(), VestingType::Linear);
}

fn entry(addresses: Vec<AddressInfo>, balance: u64) -> PoolEntry {
    PoolEntry {
        addresses,
        tge_percentage: 10,
        cliff: 30,
        vesting: 90,
        balance_at_tge: balance,
        vesting_type: VestingType::Stepped,
    }
}

#[test]
fn entry_addresses_flatten_in_order() {
    let entries = vec![entry(vec![on(1, 1), on(1, 56)], 1), entry(vec![], 2), entry(vec![on(9, 1)], 3)];
    let all = entry_addresses(&entries);
    assert_eq!(all.len(), 3);
    assert_eq!(all[0].address, addr(1));
    assert_eq!(all[0].chain, 1);
    assert_eq!(all[1].chain, 56);
    assert_eq!(all[2].address, addr(9));
}

#[test]
fn entry_allocation_in_smallest_units() {
    let p = pool_from_entry(&entry(vec![on(5, 1)], 250_000_000));
    assert_eq!(p.balance_at_tge, 250_000_000_000_000_000_000_000_000);
    assert_eq!(p.aliases.len(), 1);
    assert_eq!(p.aliases[0].address, addr(5));
    assert_eq!(p.cliff_days, 30);
    assert_eq!(p.vesting_days, 90);
    assert_eq!(p.tge_percentage, 10);
    assert_eq!(p.vesting_type, VestingType::Stepped);
    let most = pool_from_entry(&entry(vec![], u64::MAX));
    assert_eq!(most.balance_at_tge, u64::MAX as u128 * 1_000_000_000_000_000_000);
}
