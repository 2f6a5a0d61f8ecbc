use vstd::prelude::*;
use crate::error::LedgerError;

verus! {

/// Basis points in one whole: a rate of `BPS_DENOMINATOR` takes everything.
pub const BPS_DENOMINATOR: u64 = 10000;

/// The fee on `amount` at `rate_bps` basis points, rounded down.
pub open spec fn fee_amount(amount: int, rate_bps: int) -> int {
    (amount * rate_bps) / 10000
}

/// A transfer parted into what the collector gets and what the destination gets.
#[derive(Clone, Copy, Debug, PartialEq, Eq, Structural)]
pub struct FeeSplit {
    pub fee: u64,
    pub remaining: u64,
}

/// At a rate of at most one whole the fee never exceeds the amount, so fee
/// and remainder add up to the amount exactly.
pub proof fn lemma_fee_within_amount(amount: int, rate_bps: int)
    requires
        0 <= amount,
        0 <= rate_bps <= 10000,
    ensures
        0 <= fee_amount(amount, rate_bps) <= amount,
        fee_amount(amount, rate_bps) + (amount - fee_amount(amount, rate_bps)) == amount,
{
    assert(0 <= amount * rate_bps <= amount * 10000) by (nonlinear_arith)
        requires
            0 <= amount,
            0 <= rate_bps <= 10000,
    ;
}

/// Parts `amount` at `rate_bps` basis points. The product is formed in 128
/// bits; a fee above the amount is refused.
pub fn split_fee(amount: u64, rate_bps: u16) -> (r: Result<FeeSplit, LedgerError>)
    ensures
        rate_bps <= 10000 ==> r is Ok,
        match r {
            Ok(split) => {
                &&& split.fee == fee_amount(amount as int, rate_bps as int)
                &&& split.fee <= amount
                &&& split.fee + split.remaining == amount
            },
            Err(e) => e == LedgerError::Overflow && fee_amount(amount as int, rate_bps as int)
                > amount,
        },
{
    let wide_amount: u128 = amount as u128;
    let wide_rate: u128 = rate_bps as u128;
    assert(wide_amount * wide_rate <= 0xffff_ffff_ffff_ffff * 0xffff) by (nonlinear_arith)
        requires
            wide_amount <= 0xffff_ffff_ffff_ffff,
            wide_rate <= 0xffff,
    ;
    let fee: u128 = wide_amount * wide_rate / (BPS_DENOMINATOR as u128);
    proof {
        if rate_bps <= 10000 {
            lemma_fee_within_amount(amount as int, rate_bps as int);
        }
    }
    if fee > wide_amount {
        return Err(LedgerError::Overflow);
    }
    let fee: u64 = fee as u64;
    Ok(FeeSplit { fee, remaining: amount - fee })
}

} // verus!
