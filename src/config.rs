use crate::vesting::VestingType;
use vstd::prelude::*;
use vstd::string::StrSliceExecFns;

verus! {

/// A 20-byte account address.
#[derive(Clone, Copy, Debug, Eq)]
pub struct Address {
    pub bytes: [u8; 20],
}

impl PartialEq for Address {
    fn eq(&self, other: &Address) -> (r: bool) {
        let mut i: usize = 0;
        while i < 20
            invariant
                0 <= i <= 20,
                forall|j: int| 0 <= j < i ==> self.bytes[j] == other.bytes[j],
            decreases 20 - i,
        {
            if self.bytes[i] != other.bytes[i] {
                return false;
            }
            i = i + 1;
        }
        proof {
            assert(self.bytes =~= other.bytes);
        }
        true
    }
}

impl vstd::std_specs::cmp::PartialEqSpecImpl for Address {
    open spec fn obeys_eq_spec() -> bool {
        true
    }

    open spec fn eq_spec(&self, other: &Address) -> bool {
        *self == *other
    }
}

/// An address together with the chain it lives on, identified by the
/// chain's numeric id.
#[derive(Clone, Copy, Debug)]
pub struct AddressInfo {
    pub address: Address,
    pub chain: u64,
}

/// A pool contract read on chain. A reserved pool counts its whole balance as
/// locked; any other has its stake and schedule read from the contract.
#[derive(Clone, Copy, Debug)]
pub struct OnchainPool {
    pub address: Address,
    pub reserved: bool,
}

/// One entry of the off-chain allocation list, as configured: the wallet's
/// addresses on each chain, its schedule, and its allocation in whole tokens.
#[derive(Clone, Debug)]
pub struct PoolEntry {
    pub addresses: Vec<AddressInfo>,
    pub tge_percentage: u64,
    pub cliff: u64,
    pub vesting: u64,
    pub balance_at_tge: u64,
    pub vesting_type: VestingType,
}

/// One logical vesting wallet, possibly known under several addresses, with
/// its allocation in the token's smallest unit.
#[derive(Clone, Debug)]
pub struct OffchainPool {
    pub aliases: Vec<AddressInfo>,
    pub tge_percentage: u64,
    pub cliff_days: u64,
    pub vesting_days: u64,
    pub vesting_type: VestingType,
    pub balance_at_tge: u128,
}

/// Smallest units in one whole token of the off-chain allocation list.
pub const UNITS_PER_TOKEN: u128 = 1_000_000_000_000_000_000;

/// A configuration that cannot be used.
#[derive(Clone, Debug)]
pub enum ConfigError {
    /// These on-chain pool addresses also appear in the excluded list, which
    /// would count their balance twice.
    AddressOverlap(Vec<Address>),
}

/// The release type an entry has when its configuration names none.
pub fn default_vesting_type() -> (r: VestingType)
    ensures
        r == VestingType::Linear,
{
    VestingType::Linear
}

/// The release type named `name`: "stepped" is stepped, anything else linear.
pub fn vesting_type_from_name(name: &str) -> (r: VestingType)
    ensures
        r == (if name@ == "stepped"@ {
            VestingType::Stepped
        } else {
            VestingType::Linear
        }),
{
    let stepped = "stepped";
    proof {
        reveal_strlit("stepped");
    }
    let n = name.unicode_len();
    if n != stepped.unicode_len() {
        return VestingType::Linear;
    }
    let mut i: usize = 0;
    while i < n
        invariant
            0 <= i <= n,
            n == name@.len(),
            n == stepped@.len(),
            stepped@ == "stepped"@,
            forall|j: int| 0 <= j < i ==> name@[j] == stepped@[j],
        decreases n - i,
    {
        if name.get_char(i) != stepped.get_char(i) {
            assert(name@[i as int] != stepped@[i as int]);
            return VestingType::Linear;
        }
        i = i + 1;
    }
    proof {
        assert(name@ =~= stepped@);
    }
    VestingType::Stepped
}

/// Whether `a` is the address of one of `entries`.
pub open spec fn lists_address(entries: Seq<AddressInfo>, a: Address) -> bool {
    exists|i: int| 0 <= i < entries.len() && entries[i].address == a
}

/// Whether `a` is the address of one of `pools`.
pub open spec fn is_pool_address(pools: Seq<OnchainPool>, a: Address) -> bool {
    exists|i: int| 0 <= i < pools.len() && pools[i].address == a
}

/// The addresses of `pools` that also appear among `excluded`, in pool order.
pub open spec fn overlapping_pools(excluded: Seq<AddressInfo>, pools: Seq<OnchainPool>) -> Seq<
    Address,
>
    decreases pools.len(),
{
    if pools.len() == 0 {
        seq![]
    } else {
        let rest = overlapping_pools(excluded, pools.drop_last());
        if lists_address(excluded, pools.last().address) {
            rest.push(pools.last().address)
        } else {
            rest
        }
    }
}

/// Whether `a` is the address of one of `entries`.
pub fn contains_address(entries: &Vec<AddressInfo>, a: Address) -> (r: bool)
    ensures
        r == lists_address(entries@, a),
{
    let mut i: usize = 0;
    while i < entries.len()
        invariant
            0 <= i <= entries@.len(),
            forall|j: int| 0 <= j < i ==> entries@[j].address != a,
        decreases entries@.len() - i,
    {
        if entries[i].address == a {
            return true;
        }
        i = i + 1;
    }
    false
}

/// Checks that no on-chain pool address is also in the excluded list; on
/// failure lists every such pool address, in pool order.
pub fn validate_address_lists(excluded: &Vec<AddressInfo>, onchain_pools: &Vec<OnchainPool>) -> (r:
    Result<(), ConfigError>)
    ensures
        r is Ok <==> overlapping_pools(excluded@, onchain_pools@).len() == 0,
        r is Ok <==> forall|i: int|
            0 <= i < onchain_pools@.len() ==> !lists_address(
                excluded@,
                #[trigger] onchain_pools@[i].address,
            ),
        match r {
            Ok(_) => true,
            Err(ConfigError::AddressOverlap(found)) => found@ == overlapping_pools(
                excluded@,
                onchain_pools@,
            ),
        },
{
    let mut found: Vec<Address> = Vec::new();
    let mut i: usize = 0;
    while i < onchain_pools.len()
        invariant
            0 <= i <= onchain_pools@.len(),
            found@ == overlapping_pools(excluded@, onchain_pools@.subrange(0, i as int)),
        decreases onchain_pools@.len() - i,
    {
        let a = onchain_pools[i].address;
        if contains_address(excluded, a) {
            found.push(a);
        }
        proof {
            assert(onchain_pools@.subrange(0, i + 1).drop_last() =~= onchain_pools@.subrange(
                0,
                i as int,
            ));
        }
        i = i + 1;
    }
    proof {
        assert(onchain_pools@.subrange(0, onchain_pools@.len() as int) =~= onchain_pools@);
        lemma_overlap_empty(excluded@, onchain_pools@);
    }
    if found.len() == 0 {
        Ok(())
    } else {
        Err(ConfigError::AddressOverlap(found))
    }
}

proof fn lemma_overlap_empty(excluded: Seq<AddressInfo>, pools: Seq<OnchainPool>)
    ensures
        overlapping_pools(excluded, pools).len() == 0 <==> forall|i: int|
            0 <= i < pools.len() ==> !lists_address(excluded, #[trigger] pools[i].address),
    decreases pools.len(),
{
    if pools.len() > 0 {
        lemma_overlap_empty(excluded, pools.drop_last());
        assert forall|i: int| 0 <= i < pools.len() - 1 implies #[trigger] pools.drop_last()[i]
            == pools[i] by {}
        if overlapping_pools(excluded, pools).len() == 0 {
            assert forall|i: int| 0 <= i < pools.len() implies !lists_address(
                excluded,
                #[trigger] pools[i].address,
            ) by {
                if i < pools.len() - 1 {
                    assert(pools.drop_last()[i] == pools[i]);
                }
            }
        }
    }
}

/// All addresses of all entries, entry by entry.
pub open spec fn all_addresses(entries: Seq<PoolEntry>) -> Seq<AddressInfo>
    decreases entries.len(),
{
    if entries.len() == 0 {
        seq![]
    } else {
        all_addresses(entries.drop_last()) + entries.last().addresses@
    }
}

/// A copy of `v`.
fn copy_addresses(v: &Vec<AddressInfo>) -> (r: Vec<AddressInfo>)
    ensures
        r@ == v@,
{
    let mut r: Vec<AddressInfo> = Vec::new();
    let mut i: usize = 0;
    while i < v.len()
        invariant
            0 <= i <= v@.len(),
            r@ == v@.subrange(0, i as int),
        decreases v@.len() - i,
    {
        r.push(v[i]);
        i = i + 1;
        assert(r@ =~= v@.subrange(0, i as int));
    }
    assert(v@.subrange(0, v@.len() as int) =~= v@);
    r
}

/// Every address named by the entries, entry by entry, each with its chain.
pub fn entry_addresses(entries: &Vec<PoolEntry>) -> (r: Vec<AddressInfo>)
    ensures
        r@ == all_addresses(entries@),
{
    let mut r: Vec<AddressInfo> = Vec::new();
    let mut i: usize = 0;
    while i < entries.len()
        invariant
            0 <= i <= entries@.len(),
            r@ == all_addresses(entries@.subrange(0, i as int)),
        decreases entries@.len() - i,
    {
        let addrs = &entries[i].addresses;
        let ghost before = r@;
        let mut j: usize = 0;
        while j < addrs.len()
            invariant
                0 <= j <= addrs@.len(),
                r@ == before + addrs@.subrange(0, j as int),
            decreases addrs@.len() - j,
        {
            r.push(addrs[j]);
            j = j + 1;
            assert(r@ =~= before + addrs@.subrange(0, j as int));
        }
        proof {
            assert(addrs@.subrange(0, addrs@.len() as int) =~= addrs@);
            assert(entries@.subrange(0, i + 1).drop_last() =~= entries@.subrange(0, i as int));
        }
        i = i + 1;
    }
    assert(entries@.subrange(0, entries@.len() as int) =~= entries@);
    r
}

/// The off-chain pool that a configured entry describes, its allocation
/// turned from whole tokens into smallest units.
pub fn pool_from_entry(entry: &PoolEntry) -> (r: OffchainPool)
    ensures
        r.aliases@ == entry.addresses@,
        r.tge_percentage == entry.tge_percentage,
        r.cliff_days == entry.cliff,
        r.vesting_days == entry.vesting,
        r.vesting_type == entry.vesting_type,
        r.balance_at_tge == entry.balance_at_tge * UNITS_PER_TOKEN,
{
    proof {
        assert(entry.balance_at_tge * UNITS_PER_TOKEN <= 0xffff_ffff_ffff_ffff * UNITS_PER_TOKEN)
            by (nonlinear_arith)
            requires
                entry.balance_at_tge <= 0xffff_ffff_ffff_ffff,
        ;
    }
    OffchainPool {
        aliases: copy_addresses(&entry.addresses),
        tge_percentage: entry.tge_percentage,
        cliff_days: entry.cliff,
        vesting_days: entry.vesting,
        vesting_type: entry.vesting_type,
        balance_at_tge: entry.balance_at_tge as u128 * UNITS_PER_TOKEN,
    }
}

/// One chain the token lives on, with the pool contracts read there.
#[derive(Clone, Debug)]
pub struct ChainSetup {
    pub chain: u64,
    /// Native time units (seconds or blocks) per day in which this chain's
    /// pool contracts report their lock and vesting lengths.
    pub units_per_day: u64,
    pub pools: Vec<OnchainPool>,
}

/// The immutable context that every supply computation reads.
#[derive(Clone, Debug)]
pub struct SupplyConfig {
    pub chains: Vec<ChainSetup>,
    /// Addresses whose balance on their chain is subtracted from supply.
    pub excluded: Vec<AddressInfo>,
    pub offchain_pools: Vec<OffchainPool>,
    /// The address that burnt tokens are sent to.
    pub burn_address: Address,
    pub tge_timestamp: u64,
    /// Timestamp units per day, for counting days since the TGE.
    pub seconds_per_day: u64,
}

/// Whether `a` is counted on the locked path: an on-chain pool of some chain,
/// or an address of an off-chain pool.
pub open spec fn on_locked_path(config: SupplyConfig, a: Address) -> bool {
    ||| exists|c: int|
        0 <= c < config.chains@.len() && is_pool_address(#[trigger] config.chains@[c].pools@, a)
    ||| exists|p: int|
        0 <= p < config.offchain_pools@.len() && lists_address(
            #[trigger] config.offchain_pools@[p].aliases@,
            a,
        )
}

/// Whether `a` is the address of one of `pools`.
pub fn contains_pool(pools: &Vec<OnchainPool>, a: Address) -> (r: bool)
    ensures
        r == is_pool_address(pools@, a),
{
    let mut i: usize = 0;
    while i < pools.len()
        invariant
            0 <= i <= pools@.len(),
            forall|j: int| 0 <= j < i ==> pools@[j].address != a,
        decreases pools@.len() - i,
    {
        if pools[i].address == a {
            return true;
        }
        i = i + 1;
    }
    false
}

/// Whether `a` is counted on the locked path of `config`.
pub fn is_on_locked_path(config: &SupplyConfig, a: Address) -> (r: bool)
    ensures
        r == on_locked_path(*config, a),
{
    let mut c: usize = 0;
    while c < config.chains.len()
        invariant
            0 <= c <= config.chains@.len(),
            forall|k: int| 0 <= k < c ==> !is_pool_address(#[trigger] config.chains@[k].pools@, a),
        decreases config.chains@.len() - c,
    {
        if contains_pool(&config.chains[c].pools, a) {
            return true;
        }
        c = c + 1;
    }
    let mut p: usize = 0;
    while p < config.offchain_pools.len()
        invariant
            0 <= p <= config.offchain_pools@.len(),
            forall|k: int| 0 <= k < config.chains@.len() ==> !is_pool_address(
                #[trigger] config.chains@[k].pools@,
                a,
            ),
            forall|k: int|
                0 <= k < p ==> !lists_address(#[trigger] config.offchain_pools@[k].aliases@, a),
        decreases config.offchain_pools@.len() - p,
    {
        if contains_address(&config.offchain_pools[p].aliases, a) {
            return true;
        }
        p = p + 1;
    }
    false
}

} // verus!
