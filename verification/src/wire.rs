use vstd::prelude::*;
use crate::identity::Identity;
use crate::ledger::{HolderEntry, HolderLedger};
use crate::mint::{fee_config_bytes, fee_config_of_bytes, TransferFeeConfig};
use crate::pool::{pool_bytes, pool_decodes, pool_of_bytes, RewardsPool};

verus! {

/// What the wire codec reports when it fails. Nothing is known of a value
/// of it; the code that receives one reports undecodable data.
#[verifier::external_type_specification]
#[verifier::external_body]
pub struct ExWireErrorKind(bincode::ErrorKind);

/// Calls `bincode::serialize` on the four fields of a fee schedule. With
/// that function's fixed-width little-endian integers and no size limit, the
/// result is the two rates in two bytes each and the 64 bytes of the two
/// identities, and the call cannot fail.
#[verifier::external_body]
pub(crate) fn encode_fee_config(config: &TransferFeeConfig) -> (r: Result<
    Vec<u8>,
    Box<bincode::ErrorKind>,
>)
    ensures
        r is Ok,
        r matches Ok(bytes) ==> bytes@ == fee_config_bytes(config@),
{
    bincode::serialize(
        &(
            config.buy_fee_basis_points,
            config.sell_fee_basis_points,
            config.fee_collector.bytes,
            config.rewards_program.bytes,
        ),
    )
}

/// Calls `bincode::deserialize` for the four fields of a fee schedule. It
/// reads 68 bytes from the front, ignores what follows, and fails only when
/// fewer are there.
#[verifier::external_body]
pub(crate) fn decode_fee_config(bytes: &[u8]) -> (r: Result<
    TransferFeeConfig,
    Box<bincode::ErrorKind>,
>)
    ensures
        r is Ok <==> bytes@.len() >= 68,
        r matches Ok(config) ==> config@ == fee_config_of_bytes(bytes@),
{
    let fields: (u16, u16, [u8; 32], [u8; 32]) = bincode::deserialize(bytes)?;
    Ok(
        TransferFeeConfig {
            buy_fee_basis_points: fields.0,
            sell_fee_basis_points: fields.1,
            fee_collector: Identity { bytes: fields.2 },
            rewards_program: Identity { bytes: fields.3 },
        },
    )
}

/// Calls `bincode::serialize` on the six fields of a pool, the holders as a
/// list of pairs. The result is every integer in eight bytes, little-endian,
/// the list behind the number of its entries, and the identities as they
/// are; the call cannot fail.
#[verifier::external_body]
pub(crate) fn encode_pool(pool: &RewardsPool) -> (r: Result<Vec<u8>, Box<bincode::ErrorKind>>)
    ensures
        r is Ok,
        r matches Ok(bytes) ==> bytes@ == pool_bytes(pool@),
{
    let holders: Vec<([u8; 32], u64)> =
        pool.token_holders.entries.iter().map(|e| (e.holder.bytes, e.balance)).collect();
    bincode::serialize(
        &(
            pool.last_distribution_time,
            pool.total_wbtc_balance,
            holders,
            pool.reserve_wallet.bytes,
            pool.last_liquidity_add_time,
            pool.liquidity_threshold,
        ),
    )
}

/// Calls `bincode::deserialize` for the six fields of a pool, the holders
/// as a list of pairs. It reads from the front, ignores what follows the
/// last field, and fails only when the bytes end before it.
#[verifier::external_body]
pub(crate) fn decode_pool(bytes: &[u8]) -> (r: Result<RewardsPool, Box<bincode::ErrorKind>>)
    ensures
        r is Ok <==> pool_decodes(bytes@),
        r matches Ok(pool) ==> pool@ == pool_of_bytes(bytes@),
{
    let fields: (i64, u64, Vec<([u8; 32], u64)>, [u8; 32], i64, u64) = bincode::deserialize(bytes)?;
    let entries = fields.2.iter().map(|e| HolderEntry { holder: Identity { bytes: e.0 }, balance: e.1 });
    Ok(
        RewardsPool {
            last_distribution_time: fields.0,
            total_wbtc_balance: fields.1,
            token_holders: HolderLedger { entries: entries.collect() },
            reserve_wallet: Identity { bytes: fields.3 },
            last_liquidity_add_time: fields.4,
            liquidity_threshold: fields.5,
        },
    )
}

} // verus!
