use vstd::prelude::*;
use crate::account::{accounts_view, invocations_view, outcome_view};
use crate::account::{AccountInfo, AccountInfoView, Instruction, InstructionView};
use crate::account::{Invocation, InvocationView};
use crate::error::LedgerError;
use crate::identity::Identity;
use crate::ledger::{tracked_balance, updated_balance, with_balance, BalancePolicy};
use crate::pool::{initial_pool, lemma_pool_bytes_len, lemma_stored_pool_fits, pool_bytes};
use crate::pool::{lemma_pool_region_reads_back, lemma_stored_pool_well_formed};
use crate::pool::{pool_region, read_pool, stored_pool, write_pool};
use crate::pool::{PoolView, RewardsPool, INTERVAL_SECONDS};
use crate::processor::holder_update_request;
use crate::spl::{token_program_accepted, token_request, transfer_request};

verus! {

/// A request to the rewards program.
#[derive(Clone, Copy, Debug, PartialEq, Eq, Structural)]
pub enum RewardsInstruction {
    InitializeRewardsPool,
    SwapFeesForWBTC,
    DistributeRewards,
    AddLiquidity,
}

/// The wire form of a rewards request: its tag.
pub open spec fn rewards_encoding(x: RewardsInstruction) -> Seq<u8> {
    seq![
        match x {
            RewardsInstruction::InitializeRewardsPool => 0u8,
            RewardsInstruction::SwapFeesForWBTC => 1u8,
            RewardsInstruction::DistributeRewards => 2u8,
            RewardsInstruction::AddLiquidity => 3u8,
        },
    ]
}

/// What a byte sequence decodes to: the first byte decides, the rest is
/// ignored.
pub open spec fn rewards_decoding(input: Seq<u8>) -> Result<RewardsInstruction, LedgerError> {
    if input.len() == 0 {
        Err(LedgerError::InvalidInstructionData)
    } else if input[0] == 0 {
        Ok(RewardsInstruction::InitializeRewardsPool)
    } else if input[0] == 1 {
        Ok(RewardsInstruction::SwapFeesForWBTC)
    } else if input[0] == 2 {
        Ok(RewardsInstruction::DistributeRewards)
    } else if input[0] == 3 {
        Ok(RewardsInstruction::AddLiquidity)
    } else {
        Err(LedgerError::InvalidInstructionData)
    }
}

impl RewardsInstruction {
    /// Decodes a rewards request.
    pub fn unpack(input: &[u8]) -> (r: Result<RewardsInstruction, LedgerError>)
        ensures
            r == rewards_decoding(input@),
    {
        if input.len() == 0 {
            return Err(LedgerError::InvalidInstructionData);
        }
        let tag: u8 = input[0];
        if tag == 0 {
            Ok(RewardsInstruction::InitializeRewardsPool)
        } else if tag == 1 {
            Ok(RewardsInstruction::SwapFeesForWBTC)
        } else if tag == 2 {
            Ok(RewardsInstruction::DistributeRewards)
        } else if tag == 3 {
            Ok(RewardsInstruction::AddLiquidity)
        } else {
            Err(LedgerError::InvalidInstructionData)
        }
    }

    /// Encodes a rewards request.
    pub fn pack(&self) -> (out: Vec<u8>)
        ensures
            out@ == rewards_encoding(*self),
    {
        let tag: u8 = match self {
            RewardsInstruction::InitializeRewardsPool => 0,
            RewardsInstruction::SwapFeesForWBTC => 1,
            RewardsInstruction::DistributeRewards => 2,
            RewardsInstruction::AddLiquidity => 3,
        };
        let out = vec![tag];
        assert(out@ =~= rewards_encoding(*self));
        out
    }
}

/// Decoding undoes encoding, and the empty prefix of a wire form does not
/// decode.
pub proof fn lemma_rewards_decoding_inverts_encoding(x: RewardsInstruction)
    ensures
        rewards_decoding(rewards_encoding(x)) == Ok::<RewardsInstruction, LedgerError>(x),
        rewards_decoding(rewards_encoding(x).subrange(0, 0)) == Err::<
            RewardsInstruction,
            LedgerError,
        >(LedgerError::InvalidInstructionData),
{
}

/// Whether the interval between two operations has elapsed since `last`.
pub open spec fn interval_elapsed(now: i64, last: i64) -> bool {
    now - last >= 1800
}

/// The share of `distribution_amount` that a balance of `balance` earns
/// when the pool holds `total`, rounded down.
pub open spec fn holder_share(distribution_amount: int, balance: int, total: int) -> int {
    (distribution_amount * balance) / total
}

/// A movement of the pool's reference asset: a transfer request under the
/// pool's authority, with the three accounts that it names.
pub open spec fn pool_transfer(
    program_id: Seq<u8>,
    source: Seq<u8>,
    destination: Seq<u8>,
    authority: Seq<u8>,
    amount: u64,
) -> InvocationView {
    InvocationView {
        instruction: token_request(program_id, 3u8, source, destination, authority, amount),
        accounts: seq![source, destination, authority],
    }
}

/// The payment to the holder at `i`: its share of half the pool, to the
/// account that stands at `i` behind the four fixed ones.
pub open spec fn holder_step(
    program_id: Seq<u8>,
    accounts: Seq<AccountInfoView>,
    holders: Seq<(Seq<u8>, u64)>,
    total: u64,
    i: int,
) -> InvocationView {
    pool_transfer(
        program_id,
        accounts[1].key,
        accounts[4 + i].key,
        accounts[0].key,
        holder_share((total / 2) as int, holders[i].1 as int, total as int) as u64,
    )
}

/// Half the pool to the reserve wallet, then the payments to the first
/// `count` holders.
pub open spec fn distribution_steps(
    program_id: Seq<u8>,
    accounts: Seq<AccountInfoView>,
    holders: Seq<(Seq<u8>, u64)>,
    total: u64,
    count: int,
) -> Seq<InvocationView> {
    seq![
        pool_transfer(program_id, accounts[1].key, accounts[3].key, accounts[0].key, total / 2),
    ] + Seq::new(count as nat, |i: int| holder_step(program_id, accounts, holders, total, i))
}

/// What `DistributeRewards` answers at time `now`. The accounts are the
/// pool's region, the account that holds the reference asset, the clock, the
/// reserve wallet, and one account for each holder in the ledger's order.
pub open spec fn distribution_outcome(
    program_id: Seq<u8>,
    accounts: Seq<AccountInfoView>,
    now: i64,
) -> Result<Seq<InvocationView>, LedgerError> {
    if accounts.len() < 4 {
        Err(LedgerError::NotEnoughAccountKeys)
    } else {
        match stored_pool(accounts[0].data) {
            Err(e) => Err(e),
            Ok(pool) => {
                let holders = pool.token_holders;
                if !interval_elapsed(now, pool.last_distribution_time) {
                    Err(LedgerError::InvalidInstructionData)
                } else if !token_program_accepted(program_id) {
                    Err(LedgerError::IncorrectProgramId)
                } else if holders.len() > 0 && accounts.len() >= 5 && pool.total_wbtc_balance
                    == 0 {
                    Err(LedgerError::Overflow)
                } else if accounts.len() < 4 + holders.len() {
                    Err(LedgerError::NotEnoughAccountKeys)
                } else {
                    Ok(
                        distribution_steps(
                            program_id,
                            accounts,
                            holders,
                            pool.total_wbtc_balance,
                            holders.len() as int,
                        ),
                    )
                }
            },
        }
    }
}

/// The pool after a distribution at `now`: nothing left, the clock advanced.
pub open spec fn distributed_pool(pool: PoolView, now: i64) -> PoolView {
    PoolView { last_distribution_time: now, total_wbtc_balance: 0, ..pool }
}

/// The accounts with `pool` written to the first.
pub open spec fn with_stored_pool(
    accounts: Seq<AccountInfoView>,
    pool: PoolView,
) -> Seq<AccountInfoView> {
    accounts.update(
        0,
        AccountInfoView { data: pool_region(pool, accounts[0].data), ..accounts[0] },
    )
}

/// The accounts after `DistributeRewards` at `now`: a distribution stores
/// the emptied pool, a refusal changes nothing.
pub open spec fn distribution_effect(
    program_id: Seq<u8>,
    accounts: Seq<AccountInfoView>,
    now: i64,
) -> Seq<AccountInfoView> {
    if distribution_outcome(program_id, accounts, now) is Ok {
        with_stored_pool(accounts, distributed_pool(stored_pool(accounts[0].data).unwrap(), now))
    } else {
        accounts
    }
}

/// Why `InitializeRewardsPool` is refused, if it is: it takes four
/// accounts, the first of them a region that this program owns and that has
/// room for an empty pool.
pub open spec fn initialize_pool_refusal(
    program_id: Seq<u8>,
    accounts: Seq<AccountInfoView>,
) -> Option<LedgerError> {
    if accounts.len() < 4 {
        Some(LedgerError::NotEnoughAccountKeys)
    } else if accounts[0].owner != program_id {
        Some(LedgerError::IncorrectProgramId)
    } else if accounts[0].data.len() < 72 {
        Some(LedgerError::InvalidInstructionData)
    } else {
        None
    }
}

/// The accounts after `InitializeRewardsPool`.
pub open spec fn initialize_pool_effect(
    program_id: Seq<u8>,
    accounts: Seq<AccountInfoView>,
) -> Seq<AccountInfoView> {
    if initialize_pool_refusal(program_id, accounts) is None {
        with_stored_pool(accounts, initial_pool(accounts[3].key))
    } else {
        accounts
    }
}

/// A request without accounts and without data, addressed to `program`.
pub open spec fn bare_request(program: Seq<u8>) -> InstructionView {
    InstructionView { program_id: program, accounts: Seq::empty(), data: Seq::empty() }
}

/// What `SwapFeesForWBTC` answers: one call, for the fee collector, the
/// account of the reference asset, the pool and the swap program.
pub open spec fn swap_outcome(accounts: Seq<AccountInfoView>) -> Result<
    Seq<InvocationView>,
    LedgerError,
> {
    if accounts.len() < 5 {
        Err(LedgerError::NotEnoughAccountKeys)
    } else if stored_pool(accounts[0].data) is Err {
        Err(LedgerError::InvalidInstructionData)
    } else {
        Ok(
            seq![
                InvocationView {
                    instruction: bare_request(accounts[1].key),
                    accounts: seq![
                        accounts[1].key,
                        accounts[3].key,
                        accounts[0].key,
                        accounts[4].key,
                    ],
                },
            ],
        )
    }
}

/// What `AddLiquidity` answers at time `now`: one call, for the reserve
/// wallet, the pool and the exchange. The accounts are the pool's region,
/// the reserve wallet, the clock and the exchange.
pub open spec fn add_liquidity_outcome(accounts: Seq<AccountInfoView>, now: i64) -> Result<
    Seq<InvocationView>,
    LedgerError,
> {
    if accounts.len() < 4 {
        Err(LedgerError::NotEnoughAccountKeys)
    } else {
        match stored_pool(accounts[0].data) {
            Err(e) => Err(e),
            Ok(pool) => if !interval_elapsed(now, pool.last_liquidity_add_time) {
                Err(LedgerError::InvalidInstructionData)
            } else {
                Ok(
                    seq![
                        InvocationView {
                            instruction: bare_request(accounts[1].key),
                            accounts: seq![accounts[1].key, accounts[0].key, accounts[3].key],
                        },
                    ],
                )
            },
        }
    }
}

/// The pool after liquidity was added at `now`: its clock for additions
/// advanced, everything else as it was.
pub open spec fn replenished_pool(pool: PoolView, now: i64) -> PoolView {
    PoolView { last_liquidity_add_time: now, ..pool }
}

/// The accounts after `AddLiquidity` at `now`: an accepted request stores
/// the pool with its clock for additions advanced, a refusal changes
/// nothing.
pub open spec fn add_liquidity_effect(accounts: Seq<AccountInfoView>, now: i64) -> Seq<
    AccountInfoView,
> {
    if add_liquidity_outcome(accounts, now) is Ok {
        with_stored_pool(accounts, replenished_pool(stored_pool(accounts[0].data).unwrap(), now))
    } else {
        accounts
    }
}

/// What a rewards request answers at time `now`.
pub open spec fn rewards_outcome(
    program_id: Seq<u8>,
    accounts: Seq<AccountInfoView>,
    input: Seq<u8>,
    now: i64,
) -> Result<Seq<InvocationView>, LedgerError> {
    match rewards_decoding(input) {
        Err(e) => Err(e),
        Ok(RewardsInstruction::InitializeRewardsPool) => match initialize_pool_refusal(
            program_id,
            accounts,
        ) {
            Some(e) => Err(e),
            None => Ok(Seq::empty()),
        },
        Ok(RewardsInstruction::SwapFeesForWBTC) => swap_outcome(accounts),
        Ok(RewardsInstruction::DistributeRewards) => distribution_outcome(
            program_id,
            accounts,
            now,
        ),
        Ok(RewardsInstruction::AddLiquidity) => add_liquidity_outcome(accounts, now),
    }
}

/// The accounts after a rewards request at time `now`.
pub open spec fn rewards_effect(
    program_id: Seq<u8>,
    accounts: Seq<AccountInfoView>,
    input: Seq<u8>,
    now: i64,
) -> Seq<AccountInfoView> {
    match rewards_decoding(input) {
        Ok(RewardsInstruction::InitializeRewardsPool) => initialize_pool_effect(
            program_id,
            accounts,
        ),
        Ok(RewardsInstruction::DistributeRewards) => distribution_effect(
            program_id,
            accounts,
            now,
        ),
        Ok(RewardsInstruction::AddLiquidity) => add_liquidity_effect(accounts, now),
        _ => accounts,
    }
}

/// Why an update of a holder's balance is refused, if it is. The one
/// account is the pool's region, which this program must own; the new
/// balance must fit, and so must the pool with it.
pub open spec fn holder_update_refusal(
    program_id: Seq<u8>,
    accounts: Seq<AccountInfoView>,
    holder: Seq<u8>,
    balance: u64,
    policy: BalancePolicy,
) -> Option<LedgerError> {
    if accounts.len() < 1 {
        Some(LedgerError::NotEnoughAccountKeys)
    } else if accounts[0].owner != program_id {
        Some(LedgerError::IncorrectProgramId)
    } else {
        match stored_pool(accounts[0].data) {
            Err(e) => Some(e),
            Ok(pool) => match updated_balance(
                tracked_balance(pool.token_holders, holder),
                balance,
                policy,
            ) {
                None => Some(LedgerError::Overflow),
                Some(next) => if pool_bytes(
                    PoolView {
                        token_holders: with_balance(pool.token_holders, holder, next),
                        ..pool
                    },
                ).len() > accounts[0].data.len() {
                    Some(LedgerError::InvalidInstructionData)
                } else {
                    None
                },
            },
        }
    }
}

/// The accounts after an update of a holder's balance.
pub open spec fn holder_update_effect(
    program_id: Seq<u8>,
    accounts: Seq<AccountInfoView>,
    holder: Seq<u8>,
    balance: u64,
    policy: BalancePolicy,
) -> Seq<AccountInfoView> {
    if holder_update_refusal(program_id, accounts, holder, balance, policy) is None {
        let pool = stored_pool(accounts[0].data).unwrap();
        let next = updated_balance(
            tracked_balance(pool.token_holders, holder),
            balance,
            policy,
        ).unwrap();
        with_stored_pool(
            accounts,
            PoolView { token_holders: with_balance(pool.token_holders, holder, next), ..pool },
        )
    } else {
        accounts
    }
}

/// A share of at most the whole pool is at most the balance it is paid for.
pub proof fn lemma_holder_share_bounded(distribution_amount: int, balance: int, total: int)
    requires
        0 <= distribution_amount <= total,
        0 <= balance,
        0 < total,
    ensures
        0 <= holder_share(distribution_amount, balance, total) <= balance,
{
    assert(0 <= distribution_amount * balance <= total * balance) by (nonlinear_arith)
        requires
            0 <= distribution_amount <= total,
            0 <= balance,
    ;
    assert((distribution_amount * balance) / total <= balance) by (nonlinear_arith)
        requires
            0 <= distribution_amount * balance <= total * balance,
            0 < total,
    ;
    assert(0 <= (distribution_amount * balance) / total) by (nonlinear_arith)
        requires
            0 <= distribution_amount * balance,
            0 < total,
    ;
}

/// Before the interval has elapsed a distribution is refused and changes
/// nothing.
pub proof fn lemma_distribution_waits_for_interval(
    program_id: Seq<u8>,
    accounts: Seq<AccountInfoView>,
    now: i64,
)
    requires
        accounts.len() >= 4,
        stored_pool(accounts[0].data) is Ok,
        now - stored_pool(accounts[0].data).unwrap().last_distribution_time < 1800,
    ensures
        distribution_outcome(program_id, accounts, now) == Err::<Seq<InvocationView>, LedgerError>(
            LedgerError::InvalidInstructionData,
        ),
        distribution_effect(program_id, accounts, now) == accounts,
{
}

/// A refused distribution changes nothing, whatever the reason.
pub proof fn lemma_refused_distribution_changes_nothing(
    program_id: Seq<u8>,
    accounts: Seq<AccountInfoView>,
    now: i64,
)
    requires
        distribution_outcome(program_id, accounts, now) is Err,
    ensures
        distribution_effect(program_id, accounts, now) == accounts,
{
}

/// A distribution leaves the pool empty and its clock at the time of the
/// distribution; the holders, the reserve wallet and the other counters stay.
pub proof fn lemma_distribution_empties_pool(
    program_id: Seq<u8>,
    accounts: Seq<AccountInfoView>,
    now: i64,
)
    requires
        distribution_outcome(program_id, accounts, now) is Ok,
    ensures
        ({
            let before = stored_pool(accounts[0].data).unwrap();
            let after = distributed_pool(before, now);
            &&& distribution_effect(program_id, accounts, now) == with_stored_pool(accounts, after)
            &&& after.total_wbtc_balance == 0
            &&& after.last_distribution_time == now
            &&& after.token_holders == before.token_holders
            &&& after.reserve_wallet == before.reserve_wallet
        }),
{
}

/// What a distribution stores is what is read afterwards: the pool as it
/// was, but empty and with its clock at the time of the distribution.
pub proof fn lemma_distributed_pool_reads_back(
    program_id: Seq<u8>,
    accounts: Seq<AccountInfoView>,
    now: i64,
)
    requires
        distribution_outcome(program_id, accounts, now) is Ok,
    ensures
        stored_pool(distribution_effect(program_id, accounts, now)[0].data) == Ok::<
            PoolView,
            LedgerError,
        >(distributed_pool(stored_pool(accounts[0].data).unwrap(), now)),
{
    let data = accounts[0].data;
    let after = distributed_pool(stored_pool(data).unwrap(), now);
    lemma_stored_pool_well_formed(data);
    lemma_stored_pool_fits(data, after);
    lemma_pool_region_reads_back(after, data);
}

/// What `AddLiquidity` stores is what is read afterwards: the pool as it
/// was, with its clock for additions at the time of the addition. Until the
/// interval has elapsed again, a further addition is refused.
pub proof fn lemma_replenished_pool_reads_back(accounts: Seq<AccountInfoView>, now: i64, later: i64)
    requires
        add_liquidity_outcome(accounts, now) is Ok,
    ensures
        stored_pool(add_liquidity_effect(accounts, now)[0].data) == Ok::<PoolView, LedgerError>(
            replenished_pool(stored_pool(accounts[0].data).unwrap(), now),
        ),
        later - now < 1800 ==> add_liquidity_outcome(add_liquidity_effect(accounts, now), later)
            == Err::<Seq<InvocationView>, LedgerError>(LedgerError::InvalidInstructionData),
{
    let data = accounts[0].data;
    let after = replenished_pool(stored_pool(data).unwrap(), now);
    lemma_stored_pool_well_formed(data);
    lemma_stored_pool_fits(data, after);
    lemma_pool_region_reads_back(after, data);
}

/// What `InitializeRewardsPool` stores is what is read afterwards: an empty
/// pool with the fourth account as its reserve wallet.
pub proof fn lemma_initial_pool_reads_back(program_id: Seq<u8>, accounts: Seq<AccountInfoView>)
    requires
        initialize_pool_refusal(program_id, accounts) is None,
        accounts[3].key.len() == 32,
    ensures
        stored_pool(initialize_pool_effect(program_id, accounts)[0].data) == Ok::<
            PoolView,
            LedgerError,
        >(initial_pool(accounts[3].key)),
{
    let pool = initial_pool(accounts[3].key);
    lemma_pool_bytes_len(pool);
    lemma_pool_region_reads_back(pool, accounts[0].data);
}

/// The balances that the ledger tracks, added up.
pub open spec fn tracked_total(holders: Seq<(Seq<u8>, u64)>) -> int
    decreases holders.len(),
{
    if holders.len() == 0 {
        0
    } else {
        tracked_total(holders.drop_last()) + holders.last().1
    }
}

/// The shares that a distribution of a pool of `total` pays to the holders,
/// added up.
pub open spec fn shares_paid(holders: Seq<(Seq<u8>, u64)>, total: u64) -> int
    decreases holders.len(),
{
    if holders.len() == 0 {
        0
    } else {
        shares_paid(holders.drop_last(), total) + holder_share(
            (total / 2) as int,
            holders.last().1 as int,
            total as int,
        )
    }
}

/// A distribution never pays out more than the pool holds, as long as the
/// tracked balances add up to no more than the pool: the reserve gets half,
/// and the holders together get at most the same half.
pub proof fn lemma_distribution_within_pool(holders: Seq<(Seq<u8>, u64)>, total: u64)
    requires
        total > 0,
        tracked_total(holders) <= total,
    ensures
        0 <= shares_paid(holders, total) <= total / 2,
        total / 2 + shares_paid(holders, total) <= total,
{
    lemma_shares_below_balances(holders, total);
    let half = (total / 2) as int;
    let paid = shares_paid(holders, total);
    let sum = tracked_total(holders);
    assert(paid <= half) by (nonlinear_arith)
        requires
            paid * total <= half * sum,
            0 <= sum <= total,
            0 <= half,
            0 < total,
    ;
}

proof fn lemma_shares_below_balances(holders: Seq<(Seq<u8>, u64)>, total: u64)
    requires
        total > 0,
    ensures
        0 <= shares_paid(holders, total),
        0 <= tracked_total(holders),
        shares_paid(holders, total) * total <= (total / 2) * tracked_total(holders),
    decreases holders.len(),
{
    if holders.len() > 0 {
        let front = holders.drop_last();
        lemma_shares_below_balances(front, total);
        let half = (total / 2) as int;
        let balance = holders.last().1 as int;
        let share = holder_share(half, balance, total as int);
        let before = shares_paid(front, total);
        let sum = tracked_total(front);
        assert(0 <= share && share * total <= half * balance) by (nonlinear_arith)
            requires
                share == (half * balance) / (total as int),
                0 <= half,
                0 <= balance,
                0 < total,
        ;
        assert((before + share) * total <= half * (sum + balance)) by (nonlinear_arith)
            requires
                before * total <= half * sum,
                share * total <= half * balance,
        ;
    }
}

/// Whether `now` lies at least the interval behind `last`.
pub fn has_interval_elapsed(now: i64, last: i64) -> (open: bool)
    ensures
        open == interval_elapsed(now, last),
{
    let elapsed: i128 = now as i128 - last as i128;
    elapsed >= INTERVAL_SECONDS as i128
}

/// The share of `distribution_amount` for `balance` out of `total`, formed
/// in 128 bits. An empty pool has no shares, and a share must fit 64 bits.
pub fn compute_holder_share(distribution_amount: u64, balance: u64, total: u64) -> (r: Result<
    u64,
    LedgerError,
>)
    ensures
        match r {
            Ok(share) => total > 0 && share == holder_share(
                distribution_amount as int,
                balance as int,
                total as int,
            ),
            Err(e) => e == LedgerError::Overflow && (total == 0 || holder_share(
                distribution_amount as int,
                balance as int,
                total as int,
            ) > u64::MAX),
        },
{
    if total == 0 {
        return Err(LedgerError::Overflow);
    }
    let wide_amount: u128 = distribution_amount as u128;
    let wide_balance: u128 = balance as u128;
    assert(wide_amount * wide_balance <= 0xffff_ffff_ffff_ffff * 0xffff_ffff_ffff_ffff)
        by (nonlinear_arith)
        requires
            wide_amount <= 0xffff_ffff_ffff_ffff,
            wide_balance <= 0xffff_ffff_ffff_ffff,
    ;
    let share: u128 = wide_amount * wide_balance / (total as u128);
    if share > u64::MAX as u128 {
        return Err(LedgerError::Overflow);
    }
    Ok(share as u64)
}

/// The update of a holder's balance as the rewards program receives it.
pub fn create_update_holder_balance_instruction(
    rewards_program: &Identity,
    holder: Identity,
    balance: u64,
) -> (r: Result<Instruction, LedgerError>)
    ensures
        r matches Ok(ix) && ix@ == holder_update_request(rewards_program@, holder@, balance),
{
    crate::processor::create_update_holder_balance_instruction(rewards_program, &holder, balance)
}

/// The call that swaps collected fees for the reference asset. What it
/// carries is left to the exchange; it is addressed to `from`.
pub fn create_swap_instruction(from: &Identity, to: &Identity, authority: &Identity) -> (r: Result<
    Instruction,
    LedgerError,
>)
    ensures
        r matches Ok(ix) && ix@ == bare_request(from@),
{
    let ix = Instruction { program_id: *from, accounts: Vec::new(), data: Vec::new() };
    assert(ix@.accounts =~= Seq::empty());
    Ok(ix)
}

/// The call that adds liquidity from the reserve. What it carries is left
/// to the exchange; it is addressed to `from`.
pub fn create_add_liquidity_instruction(from: &Identity, authority: &Identity) -> (r: Result<
    Instruction,
    LedgerError,
>)
    ensures
        r matches Ok(ix) && ix@ == bare_request(from@),
{
    let ix = Instruction { program_id: *from, accounts: Vec::new(), data: Vec::new() };
    assert(ix@.accounts =~= Seq::empty());
    Ok(ix)
}

/// Creates the pool: writes an empty pool with the fourth account as
/// reserve wallet into the first. A refusal leaves every account as it was.
pub fn process_initialize_rewards_pool(program_id: &Identity, accounts: &mut Vec<AccountInfo>) -> (r:
    Result<(), LedgerError>)
    ensures
        match initialize_pool_refusal(program_id@, accounts_view(old(accounts)@)) {
            Some(e) => r == Err::<(), LedgerError>(e),
            None => r is Ok,
        },
        accounts_view(final(accounts)@) == initialize_pool_effect(
            program_id@,
            accounts_view(old(accounts)@),
        ),
{
    if accounts.len() < 4 {
        return Err(LedgerError::NotEnoughAccountKeys);
    }
    if !accounts[0].owner.equals(program_id) {
        return Err(LedgerError::IncorrectProgramId);
    }
    let rewards_pool = RewardsPool::new(accounts[3].key);
    proof {
        rewards_pool.lemma_well_formed();
        lemma_pool_bytes_len(rewards_pool@);
    }
    match write_pool(&mut accounts[0].data, &rewards_pool) {
        Ok(_) => {
            assert(accounts_view(accounts@) =~= initialize_pool_effect(
                program_id@,
                accounts_view(old(accounts)@),
            ));
            Ok(())
        },
        Err(e) => {
            assert(accounts_view(accounts@) =~= accounts_view(old(accounts)@));
            Err(e)
        },
    }
}

/// Asks the exchange to swap the collected fees for the reference asset.
/// The pool's counters stay as they are.
pub fn process_swap_fees_for_wbtc(program_id: &Identity, accounts: &[AccountInfo]) -> (r: Result<
    Vec<Invocation>,
    LedgerError,
>)
    ensures
        outcome_view(r) == swap_outcome(accounts_view(accounts@)),
{
    if accounts.len() < 5 {
        return Err(LedgerError::NotEnoughAccountKeys);
    }
    let rewards_pool_key = accounts[0].key;
    let fee_collector_key = accounts[1].key;
    let wbtc_account_key = accounts[3].key;
    let swap_program_key = accounts[4].key;
    match read_pool(accounts[0].data.as_slice()) {
        Ok(_) => {},
        Err(e) => {
            return Err(e);
        },
    }
    let swap_instruction = match create_swap_instruction(
        &fee_collector_key,
        &wbtc_account_key,
        &rewards_pool_key,
    ) {
        Ok(ix) => ix,
        Err(e) => {
            return Err(e);
        },
    };
    let step = Invocation::new(
        swap_instruction,
        vec![fee_collector_key, wbtc_account_key, rewards_pool_key, swap_program_key],
    );
    let steps = vec![step];
    proof {
        let views = accounts_view(accounts@);
        assert(step@.accounts =~= seq![views[1].key, views[3].key, views[0].key, views[4].key]);
        assert(invocations_view(steps@) =~= swap_outcome(views).unwrap());
    }
    Ok(steps)
}

/// Pays out the pool at `current_time`: half to the reserve wallet, and of
/// that same half to each holder the share that its balance has in the
/// pool. Then the pool is stored empty, with the clock advanced. A refusal
/// leaves every account as it was.
pub fn process_distribute_rewards(
    program_id: &Identity,
    accounts: &mut Vec<AccountInfo>,
    current_time: i64,
) -> (r: Result<Vec<Invocation>, LedgerError>)
    ensures
        outcome_view(r) == distribution_outcome(
            program_id@,
            accounts_view(old(accounts)@),
            current_time,
        ),
        accounts_view(final(accounts)@) == distribution_effect(
            program_id@,
            accounts_view(old(accounts)@),
            current_time,
        ),
        r is Err ==> accounts_view(final(accounts)@) == accounts_view(old(accounts)@),
{
    let ghost views = accounts_view(accounts@);
    if accounts.len() < 4 {
        return Err(LedgerError::NotEnoughAccountKeys);
    }
    let rewards_pool_key = accounts[0].key;
    let wbtc_account_key = accounts[1].key;
    let reserve_wallet_key = accounts[3].key;
    let mut rewards_pool = match read_pool(accounts[0].data.as_slice()) {
        Ok(pool) => pool,
        Err(e) => {
            return Err(e);
        },
    };
    let ghost stored = rewards_pool@;
    if !has_interval_elapsed(current_time, rewards_pool.last_distribution_time) {
        return Err(LedgerError::InvalidInstructionData);
    }
    let total: u64 = rewards_pool.total_wbtc_balance;
    let distribution_amount: u64 = total / 2;
    let reserve_transfer_instruction = match transfer_request(
        program_id,
        &wbtc_account_key,
        &reserve_wallet_key,
        &rewards_pool_key,
        distribution_amount,
    ) {
        Ok(ix) => ix,
        Err(_) => {
            return Err(LedgerError::IncorrectProgramId);
        },
    };
    let reserve_step = Invocation::new(
        reserve_transfer_instruction,
        vec![wbtc_account_key, reserve_wallet_key, rewards_pool_key],
    );
    let mut steps: Vec<Invocation> = vec![reserve_step];
    proof {
        assert(reserve_step@.accounts =~= seq![views[1].key, views[3].key, views[0].key]);
        assert(invocations_view(steps@) =~= distribution_steps(
            program_id@,
            views,
            stored.token_holders,
            total,
            0,
        ));
    }
    let count: usize = rewards_pool.token_holders.len();
    let mut i: usize = 0;
    while i < count
        invariant
            i <= count == stored.token_holders.len(),
            accounts@ == old(accounts)@,
            views == accounts_view(accounts@),
            accounts@.len() >= 4,
            rewards_pool@ == stored,
            total == stored.total_wbtc_balance,
            distribution_amount == total / 2,
            rewards_pool_key@ == views[0].key,
            wbtc_account_key@ == views[1].key,
            token_program_accepted(program_id@),
            stored_pool(views[0].data) == Ok::<PoolView, LedgerError>(stored),
            interval_elapsed(current_time, stored.last_distribution_time),
            i > 0 ==> total > 0 && accounts@.len() >= 4 + i,
            invocations_view(steps@) == distribution_steps(
                program_id@,
                views,
                stored.token_holders,
                total,
                i as int,
            ),
        decreases count - i,
    {
        if accounts.len() - 4 <= i {
            return Err(LedgerError::NotEnoughAccountKeys);
        }
        let holder_wbtc_key = accounts[4 + i].key;
        let balance: u64 = rewards_pool.token_holders.entries[i].balance;
        proof {
            if total > 0 {
                lemma_holder_share_bounded(
                    distribution_amount as int,
                    balance as int,
                    total as int,
                );
            }
        }
        let share = match compute_holder_share(distribution_amount, balance, total) {
            Ok(share) => share,
            Err(e) => {
                return Err(e);
            },
        };
        let transfer_instruction = match transfer_request(
            program_id,
            &wbtc_account_key,
            &holder_wbtc_key,
            &rewards_pool_key,
            share,
        ) {
            Ok(ix) => ix,
            Err(_) => {
                return Err(LedgerError::IncorrectProgramId);
            },
        };
        let step = Invocation::new(
            transfer_instruction,
            vec![wbtc_account_key, holder_wbtc_key, rewards_pool_key],
        );
        let ghost before = invocations_view(steps@);
        steps.push(step);
        proof {
            assert(step@.accounts =~= seq![views[1].key, views[4 + i].key, views[0].key]);
            assert(stored.token_holders[i as int].1 == balance);
            assert(step@ == holder_step(program_id@, views, stored.token_holders, total, i as int));
            assert(invocations_view(steps@) =~= before.push(step@));
            assert(before.push(step@) =~= distribution_steps(
                program_id@,
                views,
                stored.token_holders,
                total,
                i + 1,
            ));
        }
        i += 1;
    }
    rewards_pool.last_distribution_time = current_time;
    rewards_pool.total_wbtc_balance = 0;
    proof {
        rewards_pool.lemma_well_formed();
        assert(rewards_pool@ == distributed_pool(stored, current_time));
        lemma_stored_pool_fits(views[0].data, rewards_pool@);
    }
    match write_pool(&mut accounts[0].data, &rewards_pool) {
        Ok(_) => {},
        Err(e) => {
            return Err(e);
        },
    }
    assert(accounts_view(accounts@) =~= with_stored_pool(views, rewards_pool@));
    Ok(steps)
}

/// Asks the exchange to add liquidity from the reserve, if enough time has
/// passed since the last addition, and stores the pool with its clock for
/// additions at `current_time`. A refusal leaves every account as it was.
pub fn process_add_liquidity(
    program_id: &Identity,
    accounts: &mut Vec<AccountInfo>,
    current_time: i64,
) -> (r: Result<Vec<Invocation>, LedgerError>)
    ensures
        outcome_view(r) == add_liquidity_outcome(accounts_view(old(accounts)@), current_time),
        accounts_view(final(accounts)@) == add_liquidity_effect(
            accounts_view(old(accounts)@),
            current_time,
        ),
        r is Err ==> accounts_view(final(accounts)@) == accounts_view(old(accounts)@),
{
    let ghost views = accounts_view(accounts@);
    if accounts.len() < 4 {
        return Err(LedgerError::NotEnoughAccountKeys);
    }
    let rewards_pool_key = accounts[0].key;
    let reserve_wallet_key = accounts[1].key;
    let dex_program_key = accounts[3].key;
    let mut rewards_pool = match read_pool(accounts[0].data.as_slice()) {
        Ok(pool) => pool,
        Err(e) => {
            return Err(e);
        },
    };
    let ghost stored = rewards_pool@;
    if !has_interval_elapsed(current_time, rewards_pool.last_liquidity_add_time) {
        return Err(LedgerError::InvalidInstructionData);
    }
    let add_liquidity_instruction = match create_add_liquidity_instruction(
        &reserve_wallet_key,
        &rewards_pool_key,
    ) {
        Ok(ix) => ix,
        Err(e) => {
            return Err(e);
        },
    };
    let step = Invocation::new(
        add_liquidity_instruction,
        vec![reserve_wallet_key, rewards_pool_key, dex_program_key],
    );
    let steps = vec![step];
    rewards_pool.last_liquidity_add_time = current_time;
    proof {
        assert(step@.accounts =~= seq![views[1].key, views[0].key, views[3].key]);
        assert(invocations_view(steps@) =~= add_liquidity_outcome(views, current_time).unwrap());
        rewards_pool.lemma_well_formed();
        assert(rewards_pool@ == replenished_pool(stored, current_time));
        lemma_stored_pool_fits(views[0].data, rewards_pool@);
    }
    match write_pool(&mut accounts[0].data, &rewards_pool) {
        Ok(_) => {},
        Err(e) => {
            return Err(e);
        },
    }
    assert(accounts_view(accounts@) =~= with_stored_pool(views, rewards_pool@));
    Ok(steps)
}

/// Records a holder's balance in the pool's ledger, as a new balance or as
/// an addition to the old one. A refusal leaves every account as it was.
pub fn process_update_holder_balance(
    program_id: &Identity,
    accounts: &mut Vec<AccountInfo>,
    holder: Identity,
    balance: u64,
    policy: BalancePolicy,
) -> (r: Result<(), LedgerError>)
    ensures
        match holder_update_refusal(
            program_id@,
            accounts_view(old(accounts)@),
            holder@,
            balance,
            policy,
        ) {
            Some(e) => r == Err::<(), LedgerError>(e),
            None => r is Ok,
        },
        accounts_view(final(accounts)@) == holder_update_effect(
            program_id@,
            accounts_view(old(accounts)@),
            holder@,
            balance,
            policy,
        ),
{
    if accounts.len() < 1 {
        return Err(LedgerError::NotEnoughAccountKeys);
    }
    if !accounts[0].owner.equals(program_id) {
        return Err(LedgerError::IncorrectProgramId);
    }
    let mut rewards_pool = match read_pool(accounts[0].data.as_slice()) {
        Ok(pool) => pool,
        Err(e) => {
            return Err(e);
        },
    };
    match rewards_pool.token_holders.update_holder_balance(holder, balance, policy) {
        Ok(_) => {},
        Err(e) => {
            return Err(e);
        },
    }
    match write_pool(&mut accounts[0].data, &rewards_pool) {
        Ok(_) => {
            assert(accounts_view(accounts@) =~= with_stored_pool(
                accounts_view(old(accounts)@),
                rewards_pool@,
            ));
            Ok(())
        },
        Err(e) => {
            assert(accounts_view(accounts@) =~= accounts_view(old(accounts)@));
            Err(e)
        },
    }
}

/// Decodes a rewards request and carries it out at `current_time`. The
/// answer lists what the host is to invoke, in order; a refusal leaves every
/// account as it was.
pub fn process_instruction(
    program_id: &Identity,
    accounts: &mut Vec<AccountInfo>,
    instruction_data: &[u8],
    current_time: i64,
) -> (r: Result<Vec<Invocation>, LedgerError>)
    ensures
        outcome_view(r) == rewards_outcome(
            program_id@,
            accounts_view(old(accounts)@),
            instruction_data@,
            current_time,
        ),
        accounts_view(final(accounts)@) == rewards_effect(
            program_id@,
            accounts_view(old(accounts)@),
            instruction_data@,
            current_time,
        ),
        r is Err ==> accounts_view(final(accounts)@) == accounts_view(old(accounts)@),
{
    let instruction = match RewardsInstruction::unpack(instruction_data) {
        Ok(instruction) => instruction,
        Err(e) => {
            return Err(e);
        },
    };
    match instruction {
        RewardsInstruction::InitializeRewardsPool => {
            match process_initialize_rewards_pool(program_id, accounts) {
                Ok(_) => {
                    let steps: Vec<Invocation> = Vec::new();
                    assert(invocations_view(steps@) =~= Seq::empty());
                    Ok(steps)
                },
                Err(e) => Err(e),
            }
        },
        RewardsInstruction::SwapFeesForWBTC => process_swap_fees_for_wbtc(
            program_id,
            accounts.as_slice(),
        ),
        RewardsInstruction::DistributeRewards => process_distribute_rewards(
            program_id,
            accounts,
            current_time,
        ),
        RewardsInstruction::AddLiquidity => process_add_liquidity(
            program_id,
            accounts,
            current_time,
        ),
    }
}

} // verus!
