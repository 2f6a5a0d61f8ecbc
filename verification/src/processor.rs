use vstd::prelude::*;
use vstd::bytes::spec_u64_to_le_bytes;
use crate::account::{accounts_view, invocations_view, outcome_view};
use crate::account::{AccountInfo, AccountInfoView};
use crate::account::{Instruction, InstructionView, Invocation, InvocationView};
use crate::error::LedgerError;
use crate::fee::{fee_amount, lemma_fee_within_amount, split_fee};
use crate::identity::{option_view, Identity};
use crate::instruction::{lemma_token_decoding_inverts_encoding, token_decoding, token_encoding};
use crate::instruction::{TokenInstruction, TokenInstructionView};
use crate::mint::{initial_fee_config, initial_mint, mint_region, read_fee_config};
use crate::mint::{stored_fee_config, write_mint_region};
use crate::mint::{Mint, TransferFeeConfig, DEFAULT_FEE_BASIS_POINTS};
use crate::spl::{mint_to_request, token_program_accepted, token_request, transfer_request};

verus! {

/// Why `InitializeMint` is refused, if it is: it takes four accounts, the
/// first of them a region that this program owns.
pub open spec fn initialize_mint_refusal(
    program_id: Seq<u8>,
    accounts: Seq<AccountInfoView>,
) -> Option<LedgerError> {
    if accounts.len() < 4 {
        Some(LedgerError::NotEnoughAccountKeys)
    } else if accounts[0].owner != program_id {
        Some(LedgerError::IncorrectProgramId)
    } else {
        None
    }
}

/// The accounts after `InitializeMint`: the first holds the new mint record
/// with, right behind it, a fee schedule of 500 basis points either way that
/// names the third account as collector and the fourth as rewards program.
pub open spec fn initialized_accounts(
    accounts: Seq<AccountInfoView>,
    decimals: u8,
    mint_authority: Option<Seq<u8>>,
) -> Seq<AccountInfoView> {
    accounts.update(
        0,
        AccountInfoView {
            data: mint_region(
                initial_mint(decimals, mint_authority),
                initial_fee_config(accounts[2].key, accounts[3].key),
                accounts[0].data,
            ),
            ..accounts[0]
        },
    )
}

/// The notification that `holder` now has `balance`, addressed to `program`.
pub open spec fn holder_update_request(
    program: Seq<u8>,
    holder: Seq<u8>,
    balance: u64,
) -> InstructionView {
    InstructionView {
        program_id: program,
        accounts: Seq::empty(),
        data: token_encoding(TokenInstructionView::UpdateHolderBalance { holder, balance }),
    }
}

/// What `MintTo` answers. The accounts are the mint, the destination, the
/// authority and the token program.
pub open spec fn mint_to_outcome(
    program_id: Seq<u8>,
    accounts: Seq<AccountInfoView>,
    amount: u64,
) -> Result<Seq<InvocationView>, LedgerError> {
    if accounts.len() < 4 {
        Err(LedgerError::NotEnoughAccountKeys)
    } else if accounts[0].owner != program_id {
        Err(LedgerError::IncorrectProgramId)
    } else if !token_program_accepted(accounts[3].key) {
        Err(LedgerError::IncorrectProgramId)
    } else {
        Ok(
            seq![
                InvocationView {
                    instruction: token_request(
                        accounts[3].key,
                        7u8,
                        accounts[0].key,
                        accounts[1].key,
                        accounts[2].key,
                        amount,
                    ),
                    accounts: seq![
                        accounts[0].key,
                        accounts[1].key,
                        accounts[2].key,
                        accounts[3].key,
                    ],
                },
            ],
        )
    }
}

/// The three steps of a transfer that pays `fee` and hands on `remaining`:
/// the fee leg to the collector's account, the principal leg to the
/// destination, and the notification of what the destination got, addressed
/// to the rewards program on record.
pub open spec fn transfer_steps(
    accounts: Seq<AccountInfoView>,
    rewards_program: Seq<u8>,
    fee: u64,
    remaining: u64,
) -> Seq<InvocationView> {
    seq![
        InvocationView {
            instruction: token_request(
                accounts[3].key,
                3u8,
                accounts[0].key,
                accounts[5].key,
                accounts[2].key,
                fee,
            ),
            accounts: seq![accounts[0].key, accounts[5].key, accounts[2].key, accounts[3].key],
        },
        InvocationView {
            instruction: token_request(
                accounts[3].key,
                3u8,
                accounts[0].key,
                accounts[1].key,
                accounts[2].key,
                remaining,
            ),
            accounts: seq![accounts[0].key, accounts[1].key, accounts[2].key, accounts[3].key],
        },
        InvocationView {
            instruction: holder_update_request(rewards_program, accounts[1].key, remaining),
            accounts: seq![accounts[4].key, accounts[1].key, rewards_program],
        },
    ]
}

/// What `Transfer` answers. The accounts are the source, the destination,
/// the authority, the token program, the mint's region and the collector's
/// account. The rate is the buy rate or the sell rate of the stored fee
/// schedule; the fee is that share of the amount, rounded down.
pub open spec fn transfer_outcome(
    accounts: Seq<AccountInfoView>,
    amount: u64,
    is_buy: bool,
) -> Result<Seq<InvocationView>, LedgerError> {
    if accounts.len() < 5 {
        Err(LedgerError::NotEnoughAccountKeys)
    } else {
        match stored_fee_config(accounts[4].data) {
            Err(e) => Err(e),
            Ok(config) => {
                let rate = if is_buy {
                    config.buy_fee_basis_points
                } else {
                    config.sell_fee_basis_points
                };
                let fee = fee_amount(amount as int, rate as int);
                if fee > amount {
                    Err(LedgerError::Overflow)
                } else if accounts.len() < 6 {
                    Err(LedgerError::NotEnoughAccountKeys)
                } else if !token_program_accepted(accounts[3].key) {
                    Err(LedgerError::IncorrectProgramId)
                } else {
                    Ok(
                        transfer_steps(
                            accounts,
                            config.rewards_program,
                            fee as u64,
                            (amount - fee) as u64,
                        ),
                    )
                }
            },
        }
    }
}

/// What `UpdateHolderBalance` answers. The accounts are the mint's region
/// and the rewards program, which must be the one on record; the update is
/// handed on to it.
pub open spec fn update_holder_balance_outcome(
    accounts: Seq<AccountInfoView>,
    holder: Seq<u8>,
    balance: u64,
) -> Result<Seq<InvocationView>, LedgerError> {
    if accounts.len() < 2 {
        Err(LedgerError::NotEnoughAccountKeys)
    } else {
        match stored_fee_config(accounts[0].data) {
            Err(e) => Err(e),
            Ok(config) => if accounts[1].key != config.rewards_program {
                Err(LedgerError::IncorrectProgramId)
            } else {
                Ok(
                    seq![
                        InvocationView {
                            instruction: holder_update_request(accounts[1].key, holder, balance),
                            accounts: seq![accounts[0].key, accounts[1].key],
                        },
                    ],
                )
            },
        }
    }
}

/// What a token request answers.
pub open spec fn instruction_outcome(
    program_id: Seq<u8>,
    accounts: Seq<AccountInfoView>,
    input: Seq<u8>,
) -> Result<Seq<InvocationView>, LedgerError> {
    match token_decoding(input) {
        Err(e) => Err(e),
        Ok(TokenInstructionView::InitializeMint { .. }) => match initialize_mint_refusal(
            program_id,
            accounts,
        ) {
            Some(e) => Err(e),
            None => Ok(Seq::empty()),
        },
        Ok(TokenInstructionView::MintTo { amount }) => mint_to_outcome(
            program_id,
            accounts,
            amount,
        ),
        Ok(TokenInstructionView::Transfer { amount, is_buy }) => transfer_outcome(
            accounts,
            amount,
            is_buy,
        ),
        Ok(
            TokenInstructionView::UpdateHolderBalance { holder, balance },
        ) => update_holder_balance_outcome(accounts, holder, balance),
    }
}

/// The accounts after a token request: only an accepted `InitializeMint`
/// changes them.
pub open spec fn instruction_effect(
    program_id: Seq<u8>,
    accounts: Seq<AccountInfoView>,
    input: Seq<u8>,
) -> Seq<AccountInfoView> {
    match token_decoding(input) {
        Ok(TokenInstructionView::InitializeMint { decimals, mint_authority }) => {
            if initialize_mint_refusal(program_id, accounts) is None {
                initialized_accounts(accounts, decimals, mint_authority)
            } else {
                accounts
            }
        },
        _ => accounts,
    }
}

/// The region of an accepted `InitializeMint` has room for the mint record
/// and the fee schedule.
pub open spec fn mint_region_presized(
    program_id: Seq<u8>,
    accounts: Seq<AccountInfoView>,
) -> bool {
    initialize_mint_refusal(program_id, accounts) is None ==> accounts[0].data.len() >= 150
}

/// `InitializeMint` on a region that this program does not own is refused
/// and changes nothing.
pub proof fn lemma_foreign_region_is_refused(
    program_id: Seq<u8>,
    accounts: Seq<AccountInfoView>,
    input: Seq<u8>,
)
    requires
        token_decoding(input) matches Ok(TokenInstructionView::InitializeMint { .. }),
        accounts.len() >= 4,
        accounts[0].owner != program_id,
    ensures
        instruction_outcome(program_id, accounts, input) == Err::<
            Seq<InvocationView>,
            LedgerError,
        >(LedgerError::IncorrectProgramId),
        instruction_effect(program_id, accounts, input) == accounts,
{
}

/// A refused token request changes nothing.
pub proof fn lemma_refused_request_changes_nothing(
    program_id: Seq<u8>,
    accounts: Seq<AccountInfoView>,
    input: Seq<u8>,
)
    requires
        instruction_outcome(program_id, accounts, input) is Err,
    ensures
        instruction_effect(program_id, accounts, input) == accounts,
{
}

/// What a transfer hands out adds up: the amounts of the fee leg and of the
/// principal leg are the fee and the amount less the fee.
pub proof fn lemma_transfer_legs_add_up(accounts: Seq<AccountInfoView>, amount: u64, is_buy: bool)
    requires
        transfer_outcome(accounts, amount, is_buy) is Ok,
    ensures
        ({
            let config = stored_fee_config(accounts[4].data).unwrap();
            let rate = if is_buy {
                config.buy_fee_basis_points
            } else {
                config.sell_fee_basis_points
            };
            let fee = fee_amount(amount as int, rate as int);
            let steps = transfer_outcome(accounts, amount, is_buy).unwrap();
            &&& 0 <= fee <= amount
            &&& steps.len() == 3
            &&& steps[0].instruction.data == seq![3u8] + spec_u64_to_le_bytes(fee as u64)
            &&& steps[1].instruction.data == seq![3u8] + spec_u64_to_le_bytes((amount - fee) as u64)
            &&& (fee as u64) + ((amount - fee) as u64) == amount
        }),
{
    let config = stored_fee_config(accounts[4].data).unwrap();
    let rate = if is_buy {
        config.buy_fee_basis_points
    } else {
        config.sell_fee_basis_points
    };
    assert(0 <= (amount as int) * (rate as int)) by (nonlinear_arith)
        requires
            0 <= amount,
            0 <= rate,
    ;
}

/// At a rate of at most one whole a transfer is never refused for its
/// arithmetic.
pub proof fn lemma_transfer_within_rate_fits(
    accounts: Seq<AccountInfoView>,
    amount: u64,
    is_buy: bool,
)
    requires
        accounts.len() >= 5,
        stored_fee_config(accounts[4].data) is Ok,
        (if is_buy {
            stored_fee_config(accounts[4].data).unwrap().buy_fee_basis_points
        } else {
            stored_fee_config(accounts[4].data).unwrap().sell_fee_basis_points
        }) <= 10000,
    ensures
        transfer_outcome(accounts, amount, is_buy) != Err::<Seq<InvocationView>, LedgerError>(
            LedgerError::Overflow,
        ),
{
    let config = stored_fee_config(accounts[4].data).unwrap();
    let rate = if is_buy {
        config.buy_fee_basis_points
    } else {
        config.sell_fee_basis_points
    };
    lemma_fee_within_amount(amount as int, rate as int);
}

/// The notification of a transfer goes to the rewards program on record,
/// and what it carries decodes to the update of the destination's balance
/// by what the destination got.
pub proof fn lemma_transfer_notifies_rewards_program(
    accounts: Seq<AccountInfoView>,
    amount: u64,
    is_buy: bool,
)
    requires
        transfer_outcome(accounts, amount, is_buy) is Ok,
        accounts[1].key.len() == 32,
    ensures
        ({
            let config = stored_fee_config(accounts[4].data).unwrap();
            let rate = if is_buy {
                config.buy_fee_basis_points
            } else {
                config.sell_fee_basis_points
            };
            let remaining = (amount - fee_amount(amount as int, rate as int)) as u64;
            let notification = transfer_outcome(accounts, amount, is_buy).unwrap()[2];
            &&& notification.instruction.program_id == config.rewards_program
            &&& token_decoding(notification.instruction.data) == Ok::<
                TokenInstructionView,
                LedgerError,
            >(
                TokenInstructionView::UpdateHolderBalance {
                    holder: accounts[1].key,
                    balance: remaining,
                },
            )
        }),
{
    let config = stored_fee_config(accounts[4].data).unwrap();
    let rate = if is_buy {
        config.buy_fee_basis_points
    } else {
        config.sell_fee_basis_points
    };
    let remaining = (amount - fee_amount(amount as int, rate as int)) as u64;
    lemma_token_decoding_inverts_encoding(
        TokenInstructionView::UpdateHolderBalance { holder: accounts[1].key, balance: remaining },
    );
}

/// Creates the token. The accounts are the mint's region, the rent account
/// (which is not read), the fee collector and the rewards program. A refusal
/// leaves every account as it was.
pub fn process_initialize_mint(
    program_id: &Identity,
    accounts: &mut Vec<AccountInfo>,
    decimals: u8,
    mint_authority: Option<Identity>,
) -> (r: Result<(), LedgerError>)
    requires
        mint_region_presized(program_id@, accounts_view(old(accounts)@)),
    ensures
        match initialize_mint_refusal(program_id@, accounts_view(old(accounts)@)) {
            Some(e) => r == Err::<(), LedgerError>(e) && accounts_view(final(accounts)@)
                == accounts_view(old(accounts)@),
            None => r is Ok && accounts_view(final(accounts)@) == initialized_accounts(
                accounts_view(old(accounts)@),
                decimals,
                option_view(mint_authority),
            ),
        },
{
    if accounts.len() < 4 {
        return Err(LedgerError::NotEnoughAccountKeys);
    }
    if !accounts[0].owner.equals(program_id) {
        return Err(LedgerError::IncorrectProgramId);
    }
    let mint = Mint {
        mint_authority,
        supply: 0,
        decimals,
        is_initialized: true,
        freeze_authority: None,
    };
    let fee_config = TransferFeeConfig {
        buy_fee_basis_points: DEFAULT_FEE_BASIS_POINTS,
        sell_fee_basis_points: DEFAULT_FEE_BASIS_POINTS,
        fee_collector: accounts[2].key,
        rewards_program: accounts[3].key,
    };
    match write_mint_region(&mut accounts[0].data, &mint, &fee_config) {
        Ok(_) => {},
        Err(e) => {
            return Err(e);
        },
    }
    assert(accounts_view(accounts@) =~= initialized_accounts(
        accounts_view(old(accounts)@),
        decimals,
        option_view(mint_authority),
    ));
    Ok(())
}

/// Mints `amount` to the destination: one request to the token program.
pub fn process_mint_to(program_id: &Identity, accounts: &[AccountInfo], amount: u64) -> (r: Result<
    Vec<Invocation>,
    LedgerError,
>)
    ensures
        outcome_view(r) == mint_to_outcome(program_id@, accounts_view(accounts@), amount),
{
    if accounts.len() < 4 {
        return Err(LedgerError::NotEnoughAccountKeys);
    }
    let mint_key = accounts[0].key;
    let destination_key = accounts[1].key;
    let authority_key = accounts[2].key;
    let token_program_key = accounts[3].key;
    if !accounts[0].owner.equals(program_id) {
        return Err(LedgerError::IncorrectProgramId);
    }
    let mint_instruction = match mint_to_request(
        &token_program_key,
        &mint_key,
        &destination_key,
        &authority_key,
        amount,
    ) {
        Ok(ix) => ix,
        Err(_) => {
            return Err(LedgerError::IncorrectProgramId);
        },
    };
    let keys = vec![mint_key, destination_key, authority_key, token_program_key];
    let step = Invocation::new(mint_instruction, keys);
    let steps = vec![step];
    proof {
        let views = accounts_view(accounts@);
        assert(step@.accounts =~= seq![views[0].key, views[1].key, views[2].key, views[3].key]);
        assert(outcome_view(Ok::<Vec<Invocation>, LedgerError>(steps)).unwrap() =~= mint_to_outcome(
            program_id@,
            views,
            amount,
        ).unwrap());
    }
    Ok(steps)
}

/// The notification that `holder` now has `balance`, addressed to
/// `program_id`.
pub fn create_update_holder_balance_instruction(
    program_id: &Identity,
    holder: &Identity,
    balance: u64,
) -> (r: Result<Instruction, LedgerError>)
    ensures
        r matches Ok(ix) && ix@ == holder_update_request(program_id@, holder@, balance),
{
    let data = (TokenInstruction::UpdateHolderBalance { holder: *holder, balance }).pack();
    let ix = Instruction { program_id: *program_id, accounts: Vec::new(), data };
    assert(ix@.accounts =~= Seq::empty());
    Ok(ix)
}

/// Moves `amount` from the source: the fee to the collector's account, the
/// rest to the destination, and a notification of what the destination got
/// to the rewards program on record.
pub fn process_transfer(
    program_id: &Identity,
    accounts: &[AccountInfo],
    amount: u64,
    is_buy: bool,
) -> (r: Result<Vec<Invocation>, LedgerError>)
    ensures
        outcome_view(r) == transfer_outcome(accounts_view(accounts@), amount, is_buy),
{
    if accounts.len() < 5 {
        return Err(LedgerError::NotEnoughAccountKeys);
    }
    let source_key = accounts[0].key;
    let destination_key = accounts[1].key;
    let authority_key = accounts[2].key;
    let token_program_key = accounts[3].key;
    let mint_key = accounts[4].key;
    let fee_config = match read_fee_config(accounts[4].data.as_slice()) {
        Ok(config) => config,
        Err(e) => {
            return Err(e);
        },
    };
    let fee_basis_points = if is_buy {
        fee_config.buy_fee_basis_points
    } else {
        fee_config.sell_fee_basis_points
    };
    let split = match split_fee(amount, fee_basis_points) {
        Ok(split) => split,
        Err(e) => {
            return Err(e);
        },
    };
    if accounts.len() < 6 {
        return Err(LedgerError::NotEnoughAccountKeys);
    }
    let fee_collector_key = accounts[5].key;
    let fee_transfer_instruction = match transfer_request(
        &token_program_key,
        &source_key,
        &fee_collector_key,
        &authority_key,
        split.fee,
    ) {
        Ok(ix) => ix,
        Err(_) => {
            return Err(LedgerError::IncorrectProgramId);
        },
    };
    let transfer_instruction = match transfer_request(
        &token_program_key,
        &source_key,
        &destination_key,
        &authority_key,
        split.remaining,
    ) {
        Ok(ix) => ix,
        Err(_) => {
            return Err(LedgerError::IncorrectProgramId);
        },
    };
    let update_balance_instruction = match create_update_holder_balance_instruction(
        &fee_config.rewards_program,
        &destination_key,
        split.remaining,
    ) {
        Ok(ix) => ix,
        Err(e) => {
            return Err(e);
        },
    };
    let fee_step = Invocation::new(
        fee_transfer_instruction,
        vec![source_key, fee_collector_key, authority_key, token_program_key],
    );
    let principal_step = Invocation::new(
        transfer_instruction,
        vec![source_key, destination_key, authority_key, token_program_key],
    );
    let update_step = Invocation::new(
        update_balance_instruction,
        vec![mint_key, destination_key, fee_config.rewards_program],
    );
    let steps = vec![fee_step, principal_step, update_step];
    proof {
        let views = accounts_view(accounts@);
        assert(fee_step@.accounts =~= seq![
            views[0].key,
            views[5].key,
            views[2].key,
            views[3].key,
        ]);
        assert(principal_step@.accounts =~= seq![
            views[0].key,
            views[1].key,
            views[2].key,
            views[3].key,
        ]);
        assert(update_step@.accounts =~= seq![
            views[4].key,
            views[1].key,
            fee_config@.rewards_program,
        ]);
        assert(outcome_view(Ok::<Vec<Invocation>, LedgerError>(steps)).unwrap()
            =~= transfer_steps(
            views,
            fee_config@.rewards_program,
            split.fee,
            split.remaining,
        ));
    }
    Ok(steps)
}

/// Hands a holder's new balance on to the rewards program, after checking
/// that it is the one on record.
pub fn process_update_holder_balance(
    program_id: &Identity,
    accounts: &[AccountInfo],
    holder: Identity,
    balance: u64,
) -> (r: Result<Vec<Invocation>, LedgerError>)
    ensures
        outcome_view(r) == update_holder_balance_outcome(
            accounts_view(accounts@),
            holder@,
            balance,
        ),
{
    if accounts.len() < 2 {
        return Err(LedgerError::NotEnoughAccountKeys);
    }
    let mint_key = accounts[0].key;
    let rewards_program_key = accounts[1].key;
    let fee_config = match read_fee_config(accounts[0].data.as_slice()) {
        Ok(config) => config,
        Err(e) => {
            return Err(e);
        },
    };
    if !rewards_program_key.equals(&fee_config.rewards_program) {
        return Err(LedgerError::IncorrectProgramId);
    }
    let update_instruction = match crate::rewards::create_update_holder_balance_instruction(
        &rewards_program_key,
        holder,
        balance,
    ) {
        Ok(ix) => ix,
        Err(e) => {
            return Err(e);
        },
    };
    let step = Invocation::new(update_instruction, vec![mint_key, rewards_program_key]);
    let steps = vec![step];
    proof {
        let views = accounts_view(accounts@);
        assert(step@.accounts =~= seq![views[0].key, views[1].key]);
        assert(outcome_view(Ok::<Vec<Invocation>, LedgerError>(steps)).unwrap()
            =~= update_holder_balance_outcome(views, holder@, balance).unwrap());
    }
    Ok(steps)
}

/// Decodes a token request and carries it out. The answer lists what the
/// host is to invoke, in order; a refusal leaves every account as it was.
pub fn process_instruction(
    program_id: &Identity,
    accounts: &mut Vec<AccountInfo>,
    instruction_data: &[u8],
) -> (r: Result<Vec<Invocation>, LedgerError>)
    requires
        token_decoding(instruction_data@) matches Ok(
            TokenInstructionView::InitializeMint { .. },
        ) ==> mint_region_presized(program_id@, accounts_view(old(accounts)@)),
    ensures
        outcome_view(r) == instruction_outcome(
            program_id@,
            accounts_view(old(accounts)@),
            instruction_data@,
        ),
        accounts_view(final(accounts)@) == instruction_effect(
            program_id@,
            accounts_view(old(accounts)@),
            instruction_data@,
        ),
        r is Err ==> accounts_view(final(accounts)@) == accounts_view(old(accounts)@),
{
    let instruction = match TokenInstruction::unpack(instruction_data) {
        Ok(instruction) => instruction,
        Err(e) => {
            return Err(e);
        },
    };
    match instruction {
        TokenInstruction::InitializeMint { decimals, mint_authority } => {
            match process_initialize_mint(program_id, accounts, decimals, mint_authority) {
                Ok(_) => {
                    let steps: Vec<Invocation> = Vec::new();
                    assert(invocations_view(steps@) =~= Seq::empty());
                    Ok(steps)
                },
                Err(e) => Err(e),
            }
        },
        TokenInstruction::MintTo { amount } => process_mint_to(
            program_id,
            accounts.as_slice(),
            amount,
        ),
        TokenInstruction::Transfer { amount, is_buy } => process_transfer(
            program_id,
            accounts.as_slice(),
            amount,
            is_buy,
        ),
        TokenInstruction::UpdateHolderBalance { holder, balance } => process_update_holder_balance(
            program_id,
            accounts.as_slice(),
            holder,
            balance,
        ),
    }
}

} // verus!
