use vstd::prelude::*;
use vstd::bytes::{spec_u64_from_le_bytes, spec_u64_to_le_bytes};
use vstd::bytes::lemma_auto_spec_u64_to_from_le_bytes;
use crate::account::write_prefix;
use crate::error::LedgerError;
use crate::identity::Identity;
use crate::ledger::{holders_well_formed, lemma_normalized_holders, normalized_holders};
use crate::ledger::HolderLedger;
use crate::wire::{decode_pool, encode_pool};

verus! {

/// Seconds that must pass between two distributions, and between two
/// additions of liquidity.
pub const INTERVAL_SECONDS: i64 = 1800;

/// The liquidity threshold that a new pool starts with.
pub const LIQUIDITY_THRESHOLD: u64 = 100_000_000;

/// The rewards pool: what it holds of the reference asset, whom it pays, and
/// when it last paid and last added liquidity.
#[derive(Clone, Debug, PartialEq, Eq)]
pub struct RewardsPool {
    pub last_distribution_time: i64,
    pub total_wbtc_balance: u64,
    pub token_holders: HolderLedger,
    pub reserve_wallet: Identity,
    pub last_liquidity_add_time: i64,
    pub liquidity_threshold: u64,
}

pub ghost struct PoolView {
    pub last_distribution_time: i64,
    pub total_wbtc_balance: u64,
    pub token_holders: Seq<(Seq<u8>, u64)>,
    pub reserve_wallet: Seq<u8>,
    pub last_liquidity_add_time: i64,
    pub liquidity_threshold: u64,
}

impl View for RewardsPool {
    type V = PoolView;

    open spec fn view(&self) -> PoolView {
        PoolView {
            last_distribution_time: self.last_distribution_time,
            total_wbtc_balance: self.total_wbtc_balance,
            token_holders: self.token_holders@,
            reserve_wallet: self.reserve_wallet@,
            last_liquidity_add_time: self.last_liquidity_add_time,
            liquidity_threshold: self.liquidity_threshold,
        }
    }
}

impl PoolView {
    /// Every identity in the pool is 32 bytes wide.
    pub open spec fn well_formed(self) -> bool {
        &&& holders_well_formed(self.token_holders)
        &&& self.reserve_wallet.len() == 32
    }
}

/// The bytes of the holders, one after the other: 32 bytes of identity and
/// the balance, little-endian.
pub open spec fn holder_bytes(entries: Seq<(Seq<u8>, u64)>) -> Seq<u8>
    decreases entries.len(),
{
    if entries.len() == 0 {
        Seq::empty()
    } else {
        holder_bytes(entries.drop_last()) + entries.last().0 + spec_u64_to_le_bytes(
            entries.last().1,
        )
    }
}

/// The stored form of a pool: the two leading counters, the number of
/// holders and the holders, the reserve wallet, the two trailing counters.
/// Every integer takes eight bytes, little-endian.
pub open spec fn pool_bytes(pool: PoolView) -> Seq<u8> {
    spec_u64_to_le_bytes(pool.last_distribution_time as u64) + spec_u64_to_le_bytes(
        pool.total_wbtc_balance,
    ) + spec_u64_to_le_bytes(pool.token_holders.len() as u64) + holder_bytes(pool.token_holders)
        + pool.reserve_wallet + spec_u64_to_le_bytes(pool.last_liquidity_add_time as u64)
        + spec_u64_to_le_bytes(pool.liquidity_threshold)
}

/// The number of holders that stored bytes announce.
pub open spec fn stored_holder_count(bytes: Seq<u8>) -> int {
    spec_u64_from_le_bytes(bytes.subrange(16, 24)) as int
}

/// `bytes` are long enough for a pool with the holders that they announce.
pub open spec fn pool_decodes(bytes: Seq<u8>) -> bool {
    bytes.len() >= 24 && bytes.len() >= 72 + 40 * stored_holder_count(bytes)
}

/// The pool that stored bytes hold, its holders as they are stored.
pub open spec fn pool_of_bytes(bytes: Seq<u8>) -> PoolView {
    let count = stored_holder_count(bytes);
    let tail = 24 + 40 * count;
    PoolView {
        last_distribution_time: spec_u64_from_le_bytes(bytes.subrange(0, 8)) as i64,
        total_wbtc_balance: spec_u64_from_le_bytes(bytes.subrange(8, 16)),
        token_holders: Seq::new(
            count as nat,
            |i: int|
                (
                    bytes.subrange(24 + 40 * i, 56 + 40 * i),
                    spec_u64_from_le_bytes(bytes.subrange(56 + 40 * i, 64 + 40 * i)),
                ),
        ),
        reserve_wallet: bytes.subrange(tail, tail + 32),
        last_liquidity_add_time: spec_u64_from_le_bytes(bytes.subrange(tail + 32, tail + 40)) as i64,
        liquidity_threshold: spec_u64_from_le_bytes(bytes.subrange(tail + 40, tail + 48)),
    }
}

/// The pool that a region holds, each holder once.
pub open spec fn stored_pool(data: Seq<u8>) -> Result<PoolView, LedgerError> {
    if pool_decodes(data) {
        let pool = pool_of_bytes(data);
        Ok(PoolView { token_holders: normalized_holders(pool.token_holders), ..pool })
    } else {
        Err(LedgerError::InvalidInstructionData)
    }
}

/// A region after `pool` was written at its start.
pub open spec fn pool_region(pool: PoolView, prior: Seq<u8>) -> Seq<u8> {
    pool_bytes(pool) + prior.subrange(pool_bytes(pool).len() as int, prior.len() as int)
}

/// The pool that a deployment starts from.
pub open spec fn initial_pool(reserve_wallet: Seq<u8>) -> PoolView {
    PoolView {
        last_distribution_time: 0,
        total_wbtc_balance: 0,
        token_holders: Seq::empty(),
        reserve_wallet,
        last_liquidity_add_time: 0,
        liquidity_threshold: 100_000_000,
    }
}

/// The view of the outcome of reading a pool.
pub open spec fn pool_result_view(r: Result<RewardsPool, LedgerError>) -> Result<
    PoolView,
    LedgerError,
> {
    match r {
        Ok(pool) => Ok(pool@),
        Err(e) => Err(e),
    }
}

/// The holders take 40 bytes each.
pub proof fn lemma_holder_bytes_len(entries: Seq<(Seq<u8>, u64)>)
    requires
        holders_well_formed(entries),
    ensures
        holder_bytes(entries).len() == 40 * entries.len(),
    decreases entries.len(),
{
    lemma_auto_spec_u64_to_from_le_bytes();
    if entries.len() > 0 {
        let front = entries.drop_last();
        assert forall|i: int| 0 <= i < front.len() implies (#[trigger] front[i]).0.len() == 32 by {
            assert(entries[i].0.len() == 32);
        }
        lemma_holder_bytes_len(front);
        assert(entries[entries.len() - 1].0.len() == 32);
    }
}

/// A stored pool takes 72 bytes and 40 more for each holder.
pub proof fn lemma_pool_bytes_len(pool: PoolView)
    requires
        pool.well_formed(),
    ensures
        pool_bytes(pool).len() == 72 + 40 * pool.token_holders.len(),
{
    lemma_auto_spec_u64_to_from_le_bytes();
    lemma_holder_bytes_len(pool.token_holders);
}

/// Where the holder at `i` stands among the bytes of the holders.
pub proof fn lemma_holder_bytes_at(entries: Seq<(Seq<u8>, u64)>, i: int)
    requires
        holders_well_formed(entries),
        0 <= i < entries.len(),
    ensures
        holder_bytes(entries).len() == 40 * entries.len(),
        holder_bytes(entries).subrange(40 * i, 40 * i + 32) == entries[i].0,
        holder_bytes(entries).subrange(40 * i + 32, 40 * i + 40) == spec_u64_to_le_bytes(
            entries[i].1,
        ),
    decreases entries.len(),
{
    lemma_auto_spec_u64_to_from_le_bytes();
    lemma_holder_bytes_len(entries);
    let front = entries.drop_last();
    let last = entries.last();
    assert(last.0.len() == 32);
    assert forall|k: int| 0 <= k < front.len() implies (#[trigger] front[k]).0.len() == 32 by {
        assert(entries[k].0.len() == 32);
    }
    lemma_holder_bytes_len(front);
    let bytes = holder_bytes(entries);
    if i < front.len() {
        lemma_holder_bytes_at(front, i);
        assert(bytes.subrange(40 * i, 40 * i + 32) =~= holder_bytes(front).subrange(
            40 * i,
            40 * i + 32,
        ));
        assert(bytes.subrange(40 * i + 32, 40 * i + 40) =~= holder_bytes(front).subrange(
            40 * i + 32,
            40 * i + 40,
        ));
    } else {
        assert(bytes.subrange(40 * i, 40 * i + 32) =~= last.0);
        assert(bytes.subrange(40 * i + 32, 40 * i + 40) =~= spec_u64_to_le_bytes(last.1));
    }
}

/// What was written is what is read: a region that a pool was written to
/// holds that pool, with the holders as they were written.
pub proof fn lemma_pool_region_decodes(pool: PoolView, prior: Seq<u8>)
    requires
        pool.well_formed(),
        pool.token_holders.len() <= u64::MAX,
        pool_bytes(pool).len() <= prior.len(),
    ensures
        pool_decodes(pool_region(pool, prior)),
        pool_of_bytes(pool_region(pool, prior)) == pool,
{
    lemma_auto_spec_u64_to_from_le_bytes();
    lemma_pool_bytes_len(pool);
    lemma_holder_bytes_len(pool.token_holders);
    let holders = pool.token_holders;
    let count = holders.len() as int;
    let bytes = pool_bytes(pool);
    let data = pool_region(pool, prior);
    let tail = 24 + 40 * count;
    let listed = holder_bytes(holders);
    assert(data.subrange(0, 8) =~= spec_u64_to_le_bytes(pool.last_distribution_time as u64));
    assert(data.subrange(8, 16) =~= spec_u64_to_le_bytes(pool.total_wbtc_balance));
    assert(data.subrange(16, 24) =~= spec_u64_to_le_bytes(count as u64));
    assert(stored_holder_count(data) == count);
    assert(data.subrange(tail, tail + 32) =~= pool.reserve_wallet);
    assert(data.subrange(tail + 32, tail + 40) =~= spec_u64_to_le_bytes(
        pool.last_liquidity_add_time as u64,
    ));
    assert(data.subrange(tail + 40, tail + 48) =~= spec_u64_to_le_bytes(pool.liquidity_threshold));
    let first = pool.last_distribution_time;
    let second = pool.last_liquidity_add_time;
    assert((first as u64) as i64 == first) by (bit_vector);
    assert((second as u64) as i64 == second) by (bit_vector);
    let read = pool_of_bytes(data);
    assert(read.token_holders =~= holders) by {
        assert forall|i: int| 0 <= i < count implies read.token_holders[i] == holders[i] by {
            lemma_holder_bytes_at(holders, i);
            assert(data.subrange(24 + 40 * i, 56 + 40 * i) =~= listed.subrange(
                40 * i,
                40 * i + 32,
            ));
            assert(data.subrange(56 + 40 * i, 64 + 40 * i) =~= listed.subrange(
                40 * i + 32,
                40 * i + 40,
            ));
        }
    }
}

/// A region that a pool with each holder once was written to reads as that
/// pool.
pub proof fn lemma_pool_region_reads_back(pool: PoolView, prior: Seq<u8>)
    requires
        pool.well_formed(),
        crate::ledger::distinct(pool.token_holders),
        pool.token_holders.len() <= u64::MAX,
        pool_bytes(pool).len() <= prior.len(),
    ensures
        stored_pool(pool_region(pool, prior)) == Ok::<PoolView, LedgerError>(pool),
{
    lemma_pool_region_decodes(pool, prior);
    lemma_normalized_holders(pool.token_holders);
}

/// A pool that is read from a region is well formed, holds each holder
/// once, and has no more holders than the region announces.
pub proof fn lemma_stored_pool_well_formed(data: Seq<u8>)
    requires
        pool_decodes(data),
    ensures
        stored_pool(data).unwrap().well_formed(),
        crate::ledger::distinct(stored_pool(data).unwrap().token_holders),
        stored_pool(data).unwrap().token_holders.len() <= stored_holder_count(data) <= u64::MAX,
{
    let raw = pool_of_bytes(data);
    assert(holders_well_formed(raw.token_holders));
    lemma_normalized_holders(raw.token_holders);
}

impl RewardsPool {
    /// The pool that a deployment starts from.
    pub fn new(reserve_wallet: Identity) -> (pool: RewardsPool)
        ensures
            pool@ == initial_pool(reserve_wallet@),
            pool.token_holders.well_formed(),
    {
        RewardsPool {
            last_distribution_time: 0,
            total_wbtc_balance: 0,
            token_holders: HolderLedger::new(),
            reserve_wallet,
            last_liquidity_add_time: 0,
            liquidity_threshold: LIQUIDITY_THRESHOLD,
        }
    }

    /// The view of a pool is well formed.
    pub proof fn lemma_well_formed(&self)
        ensures
            self@.well_formed(),
    {
        assert forall|i: int| 0 <= i < self.token_holders@.len() implies (
        #[trigger] self.token_holders@[i]).0.len() == 32 by {}
    }
}

/// Reads the pool from its region, each holder once.
pub fn read_pool(data: &[u8]) -> (r: Result<RewardsPool, LedgerError>)
    ensures
        pool_result_view(r) == stored_pool(data@),
        r matches Ok(pool) ==> pool.token_holders.well_formed(),
{
    match decode_pool(data) {
        Ok(stored) => {
            let RewardsPool {
                last_distribution_time,
                total_wbtc_balance,
                token_holders,
                reserve_wallet,
                last_liquidity_add_time,
                liquidity_threshold,
            } = stored;
            Ok(
                RewardsPool {
                    last_distribution_time,
                    total_wbtc_balance,
                    token_holders: token_holders.normalized(),
                    reserve_wallet,
                    last_liquidity_add_time,
                    liquidity_threshold,
                },
            )
        },
        Err(_) => Err(LedgerError::InvalidInstructionData),
    }
}

/// Writes `pool` at the start of `data`. A region that is too small is
/// refused and left as it was.
pub fn write_pool(data: &mut Vec<u8>, pool: &RewardsPool) -> (r: Result<(), LedgerError>)
    ensures
        pool_bytes(pool@).len() <= old(data)@.len() ==> r is Ok && final(data)@ == pool_region(
            pool@,
            old(data)@,
        ),
        pool_bytes(pool@).len() > old(data)@.len() ==> r == Err::<(), LedgerError>(
            LedgerError::InvalidInstructionData,
        ) && final(data)@ == old(data)@,
{
    let bytes = match encode_pool(pool) {
        Ok(bytes) => bytes,
        Err(_) => {
            return Err(LedgerError::InvalidInstructionData);
        },
    };
    if bytes.len() > data.len() {
        return Err(LedgerError::InvalidInstructionData);
    }
    write_prefix(data, &bytes);
    Ok(())
}

/// A pool that was read from a region fits into that region again, also
/// after its counters have changed.
pub proof fn lemma_stored_pool_fits(data: Seq<u8>, pool: PoolView)
    requires
        pool_decodes(data),
        pool.well_formed(),
        pool.token_holders == normalized_holders(pool_of_bytes(data).token_holders),
    ensures
        pool_bytes(pool).len() <= data.len(),
{
    lemma_pool_bytes_len(pool);
    lemma_normalized_holders(pool_of_bytes(data).token_holders);
}

} // verus!
