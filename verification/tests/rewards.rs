use std::collections::HashMap;

use fee_token::account::{AccountInfo, AccountMeta, Invocation};
use fee_token::error::LedgerError;
use fee_token::identity::Identity;
use fee_token::ledger::{BalancePolicy, HolderEntry, HolderLedger};
use fee_token::pool::{read_pool, write_pool, RewardsPool};
use fee_token::rewards::{
    compute_holder_share, create_add_liquidity_instruction, create_swap_instruction,
    create_update_holder_balance_instruction, has_interval_elapsed, process_add_liquidity,
    process_distribute_rewards, process_initialize_rewards_pool, process_instruction,
    process_swap_fees_for_wbtc, process_update_holder_balance,
};

fn key(n: u8) -> Identity {
    Identity { bytes: [n; 32] }
}

fn token_program() -> Identity {
    Identity { bytes: spl_token_2022::id().to_bytes() }
}

fn account(k: Identity, owner: Identity, data: Vec<u8>) -> AccountInfo {
    AccountInfo { key: k, owner, data }
}

fn plain(k: Identity) -> AccountInfo {
    account(k, key(0), Vec::new())
}

fn pool_with(total: u64, last: i64, holders: &[(u8, u64)]) -> RewardsPool {
    RewardsPool {
        last_distribution_time: last,
        total_wbtc_balance: total,
        token_holders: HolderLedger {
            entries: holders
                .iter()
                .map(|h| HolderEntry { holder: key(h.0), balance: h.1 })
                .collect(),
        },
        reserve_wallet: key(4),
        last_liquidity_add_time: last,
        liquidity_threshold: 100_000_000,
    }
}

fn region_of(pool: &RewardsPool, spare: usize) -> Vec<u8> {
    let mut data = vec![0u8; 72 + 40 * pool.token_holders.entries.len() + spare];
    write_pool(&mut data, pool).unwrap();
    data
}

/// The pool's region, the reference asset's account, the clock, the reserve
/// wallet, and `extra` accounts for holders with keys from 50 on.
fn distribution_accounts(program: Identity, pool: &RewardsPool, extra: u8) -> Vec<AccountInfo> {
    let mut accounts = vec![
        account(key(1), program, region_of(pool, 0)),
        plain(key(2)),
        plain(key(3)),
        plain(key(4)),
    ];
    for n in 0..extra {
        accounts.push(plain(key(50 + n)));
    }
    accounts
}

fn amount_of(step: &Invocation) -> u64 {
    let data = &step.instruction.data;
    assert_eq!(data.len(), 9);
    assert_eq!(data[0], 3);
    let mut bytes = [0u8; 8];
    bytes.copy_from_slice(&data[1..9]);
    u64::from_le_bytes(bytes)
}

#[test]
fn rewards_test_sanity() {
}

#[test]
fn initialize_pool_writes_an_empty_pool() {
    let program = key(99);
    let mut accounts = vec![
        account(key(1), program, vec![0xeeu8; 80]),
        plain(key(2)),
        plain(key(3)),
        plain(key(4)),
    ];
    assert_eq!(process_initialize_rewards_pool(&program, &mut accounts), Ok(()));
    let mut expected = vec![0u8; 24];
    expected.extend_from_slice(&[4u8; 32]);
    expected.extend_from_slice(&[0u8; 8]);
    expected.extend_from_slice(&[0x00, 0xe1, 0xf5, 0x05, 0, 0, 0, 0]);
    assert_eq!(expected.len(), 72);
    expected.extend_from_slice(&[0xeeu8; 8]);
    assert_eq!(accounts[0].data, expected);
    assert_eq!(
        read_pool(&accounts[0].data),
        Ok(RewardsPool {
            last_distribution_time: 0,
            total_wbtc_balance: 0,
            token_holders: HolderLedger { entries: Vec::new() },
            reserve_wallet: key(4),
            last_liquidity_add_time: 0,
            liquidity_threshold: 100_000_000,
        })
    );
}

#[test]
fn initialize_pool_refusals() {
    let program = key(99);
    let mut accounts = vec![
        account(key(1), key(98), vec![0u8; 80]),
        plain(key(2)),
        plain(key(3)),
        plain(key(4)),
    ];
    let before = accounts.clone();
    assert_eq!(
        process_initialize_rewards_pool(&program, &mut accounts),
        Err(LedgerError::IncorrectProgramId)
    );
    assert_eq!(accounts, before);

    let mut accounts = vec![
        account(key(1), program, vec![0u8; 71]),
        plain(key(2)),
        plain(key(3)),
        plain(key(4)),
    ];
    let before = accounts.clone();
    assert_eq!(
        process_initialize_rewards_pool(&program, &mut accounts),
        Err(LedgerError::InvalidInstructionData)
    );
    assert_eq!(accounts, before);

    let mut accounts = vec![account(key(1), program, vec![0u8; 80]), plain(key(2)), plain(key(3))];
    assert_eq!(
        process_initialize_rewards_pool(&program, &mut accounts),
        Err(LedgerError::NotEnoughAccountKeys)
    );
}

#[test]
fn stored_pool_has_the_layout_of_a_map() {
    let pool = pool_with(1000, -5, &[(10, 300), (11, 700)]);
    let data = region_of(&pool, 0);
    assert_eq!(data.len(), 152);
    assert_eq!(data[0..8], (-5i64).to_le_bytes());
    assert_eq!(data[8..16], 1000u64.to_le_bytes());
    assert_eq!(data[16..24], 2u64.to_le_bytes());
    assert_eq!(data[24..56], [10u8; 32]);
    assert_eq!(data[56..64], 300u64.to_le_bytes());
    assert_eq!(data[64..96], [11u8; 32]);
    assert_eq!(data[96..104], 700u64.to_le_bytes());
    assert_eq!(data[104..136], [4u8; 32]);
    assert_eq!(data[136..144], (-5i64).to_le_bytes());
    assert_eq!(data[144..152], 100_000_000u64.to_le_bytes());
    let fields: (i64, u64, HashMap<[u8; 32], u64>, [u8; 32], i64, u64) =
        bincode::deserialize(&data).unwrap();
    assert_eq!(fields.0, -5);
    assert_eq!(fields.1, 1000);
    assert_eq!(fields.2.len(), 2);
    assert_eq!(fields.2[&[10u8; 32]], 300);
    assert_eq!(fields.2[&[11u8; 32]], 700);
    assert_eq!(fields.3, [4u8; 32]);
    assert_eq!(fields.4, -5);
    assert_eq!(fields.5, 100_000_000);
}

#[test]
fn stored_pool_reads_back() {
    let pool = pool_with(u64::MAX, i64::MIN, &[(10, 300), (11, 700), (12, 0)]);
    let data = region_of(&pool, 13);
    assert_eq!(read_pool(&data), Ok(pool));
}

#[test]
fn pool_that_does_not_fit_is_refused() {
    let pool = pool_with(1, 2, &[(10, 300)]);
    let mut data = vec![7u8; 111];
    assert_eq!(write_pool(&mut data, &pool), Err(LedgerError::InvalidInstructionData));
    assert_eq!(data, vec![7u8; 111]);
    let mut data = vec![7u8; 112];
    assert_eq!(write_pool(&mut data, &pool), Ok(()));
}

#[test]
fn short_pool_regions_do_not_read() {
    let pool = pool_with(1, 2, &[(10, 300)]);
    let data = region_of(&pool, 0);
    for keep in 0..data.len() {
        assert_eq!(read_pool(&data[..keep]), Err(LedgerError::InvalidInstructionData));
    }
    let mut data = vec![0u8; 72];
    data[16] = 1;
    assert_eq!(read_pool(&data), Err(LedgerError::InvalidInstructionData));
    let mut data = vec![0u8; 72];
    data[16..24].copy_from_slice(&u64::MAX.to_le_bytes());
    assert_eq!(read_pool(&data), Err(LedgerError::InvalidInstructionData));
}

#[test]
fn reading_a_pool_keeps_each_holder_once() {
    let pool = pool_with(9, 0, &[(10, 1), (11, 2), (10, 3), (12, 4), (11, 5)]);
    let data = region_of(&pool, 0);
    let read = read_pool(&data).unwrap();
    assert_eq!(
        read.token_holders.entries,
        vec![
            HolderEntry { holder: key(10), balance: 3 },
            HolderEntry { holder: key(11), balance: 5 },
            HolderEntry { holder: key(12), balance: 4 },
        ]
    );
}

#[test]
fn distribution_before_the_interval_fails_and_changes_nothing() {
    let program = token_program();
    let pool = pool_with(1000, 1000, &[(10, 300), (11, 700)]);
    let mut accounts = distribution_accounts(program, &pool, 2);
    let before = accounts.clone();
    assert_eq!(
        process_distribute_rewards(&program, &mut accounts, 2799),
        Err(LedgerError::InvalidInstructionData)
    );
    assert_eq!(accounts, before);
    assert_eq!(read_pool(&accounts[0].data), Ok(pool));
    assert_eq!(
        process_distribute_rewards(&program, &mut accounts, 1000),
        Err(LedgerError::InvalidInstructionData)
    );
    assert_eq!(
        process_distribute_rewards(&program, &mut accounts, i64::MIN),
        Err(LedgerError::InvalidInstructionData)
    );
    assert_eq!(accounts, before);
    assert!(process_distribute_rewards(&program, &mut accounts, 2800).is_ok());
}

#[test]
fn distribution_pays_reserve_and_holders() {
    let program = token_program();
    let pool = pool_with(1000, 0, &[(10, 300), (11, 700)]);
    let mut accounts = distribution_accounts(program, &pool, 2);
    let steps = process_distribute_rewards(&program, &mut accounts, 1800).unwrap();
    assert_eq!(steps.len(), 3);
    assert_eq!(amount_of(&steps[0]), 500);
    assert_eq!(amount_of(&steps[1]), 150);
    assert_eq!(amount_of(&steps[2]), 350);
    let paid: u64 = steps.iter().map(amount_of).sum();
    assert_eq!(paid, 1000);

    for step in steps.iter() {
        assert_eq!(step.instruction.program_id, program);
    }
    assert_eq!(
        steps[0].instruction.accounts,
        vec![
            AccountMeta { pubkey: key(2), is_signer: false, is_writable: true },
            AccountMeta { pubkey: key(4), is_signer: false, is_writable: true },
            AccountMeta { pubkey: key(1), is_signer: true, is_writable: false },
        ]
    );
    assert_eq!(steps[0].accounts, vec![key(2), key(4), key(1)]);
    assert_eq!(steps[1].accounts, vec![key(2), key(50), key(1)]);
    assert_eq!(steps[2].accounts, vec![key(2), key(51), key(1)]);
    assert_eq!(steps[2].instruction.accounts[1].pubkey, key(51));

    let after = read_pool(&accounts[0].data).unwrap();
    assert_eq!(after.total_wbtc_balance, 0);
    assert_eq!(after.last_distribution_time, 1800);
    assert_eq!(after.token_holders, pool.token_holders);
    assert_eq!(after.reserve_wallet, pool.reserve_wallet);
    assert_eq!(after.last_liquidity_add_time, 0);
    assert_eq!(after.liquidity_threshold, 100_000_000);
    assert_eq!(accounts[1..], distribution_accounts(program, &pool, 2)[1..]);
}

#[test]
fn distribution_rounds_shares_down() {
    let program = token_program();
    let pool = pool_with(7, 0, &[(10, 1), (11, 2), (12, 7)]);
    let mut accounts = distribution_accounts(program, &pool, 3);
    let steps = process_distribute_rewards(&program, &mut accounts, 5000).unwrap();
    let amounts: Vec<u64> = steps.iter().map(amount_of).collect();
    assert_eq!(amounts, vec![3, 0, 0, 3]);
}

#[test]
fn distribution_without_holders_pays_the_reserve_only() {
    let program = token_program();
    let pool = pool_with(0, 0, &[]);
    let mut accounts = distribution_accounts(program, &pool, 0);
    let steps = process_distribute_rewards(&program, &mut accounts, 1800).unwrap();
    assert_eq!(steps.len(), 1);
    assert_eq!(amount_of(&steps[0]), 0);
    assert_eq!(read_pool(&accounts[0].data).unwrap().last_distribution_time, 1800);
}

#[test]
fn distribution_refusals() {
    let program = token_program();
    let pool = pool_with(1000, 0, &[(10, 300), (11, 700)]);

    let mut accounts = distribution_accounts(program, &pool, 1);
    let before = accounts.clone();
    assert_eq!(
        process_distribute_rewards(&program, &mut accounts, 1800),
        Err(LedgerError::NotEnoughAccountKeys)
    );
    assert_eq!(accounts, before);

    let mut accounts = distribution_accounts(program, &pool, 2);
    accounts.truncate(3);
    assert_eq!(
        process_distribute_rewards(&program, &mut accounts, 1800),
        Err(LedgerError::NotEnoughAccountKeys)
    );

    let mut accounts = distribution_accounts(program, &pool, 2);
    accounts[0].data.truncate(100);
    let before = accounts.clone();
    assert_eq!(
        process_distribute_rewards(&program, &mut accounts, 1800),
        Err(LedgerError::InvalidInstructionData)
    );
    assert_eq!(accounts, before);

    let other = key(99);
    let mut accounts = distribution_accounts(other, &pool, 2);
    let before = accounts.clone();
    assert_eq!(
        process_distribute_rewards(&other, &mut accounts, 1800),
        Err(LedgerError::IncorrectProgramId)
    );
    assert_eq!(accounts, before);

    let empty = pool_with(0, 0, &[(10, 300)]);
    let mut accounts = distribution_accounts(program, &empty, 1);
    let before = accounts.clone();
    assert_eq!(
        process_distribute_rewards(&program, &mut accounts, 1800),
        Err(LedgerError::Overflow)
    );
    assert_eq!(accounts, before);
    let mut accounts = distribution_accounts(program, &empty, 0);
    assert_eq!(
        process_distribute_rewards(&program, &mut accounts, 1800),
        Err(LedgerError::NotEnoughAccountKeys)
    );
}

#[test]
fn holder_shares() {
    assert_eq!(compute_holder_share(500, 300, 1000), Ok(150));
    assert_eq!(compute_holder_share(500, 700, 1000), Ok(350));
    assert_eq!(compute_holder_share(3, 2, 7), Ok(0));
    assert_eq!(compute_holder_share(u64::MAX / 2, u64::MAX, u64::MAX), Ok(u64::MAX / 2));
    assert_eq!(compute_holder_share(1, 1, 0), Err(LedgerError::Overflow));
    assert_eq!(compute_holder_share(u64::MAX, u64::MAX, 1), Err(LedgerError::Overflow));
}

#[test]
fn interval_elapses_after_half_an_hour() {
    assert!(!has_interval_elapsed(1799, 0));
    assert!(has_interval_elapsed(1800, 0));
    assert!(has_interval_elapsed(i64::MAX, i64::MIN));
    assert!(!has_interval_elapsed(i64::MIN, i64::MAX));
    assert!(!has_interval_elapsed(0, 1));
}

#[test]
fn swap_asks_the_exchange() {
    let program = key(99);
    let pool = pool_with(5, 0, &[]);
    let accounts = vec![
        account(key(1), program, region_of(&pool, 0)),
        plain(key(2)),
        plain(key(3)),
        plain(key(4)),
        plain(key(5)),
    ];
    let steps = process_swap_fees_for_wbtc(&program, &accounts).unwrap();
    assert_eq!(steps.len(), 1);
    assert_eq!(steps[0].instruction.program_id, key(2));
    assert!(steps[0].instruction.accounts.is_empty());
    assert!(steps[0].instruction.data.is_empty());
    assert_eq!(steps[0].accounts, vec![key(2), key(4), key(1), key(5)]);
    assert_eq!(read_pool(&accounts[0].data), Ok(pool));

    assert_eq!(
        process_swap_fees_for_wbtc(&program, &accounts[..4]),
        Err(LedgerError::NotEnoughAccountKeys)
    );
    let mut broken = accounts.clone();
    broken[0].data.truncate(71);
    assert_eq!(
        process_swap_fees_for_wbtc(&program, &broken),
        Err(LedgerError::InvalidInstructionData)
    );
}

#[test]
fn add_liquidity_waits_for_its_interval() {
    let program = key(99);
    let pool = pool_with(5, 100, &[(10, 300)]);
    let mut accounts = vec![
        account(key(1), program, region_of(&pool, 3)),
        plain(key(2)),
        plain(key(3)),
        plain(key(4)),
    ];
    let before = accounts.clone();
    assert_eq!(
        process_add_liquidity(&program, &mut accounts, 1899),
        Err(LedgerError::InvalidInstructionData)
    );
    assert_eq!(accounts, before);
    let steps = process_add_liquidity(&program, &mut accounts, 1900).unwrap();
    assert_eq!(steps.len(), 1);
    assert_eq!(steps[0].instruction.program_id, key(2));
    assert!(steps[0].instruction.accounts.is_empty());
    assert!(steps[0].instruction.data.is_empty());
    assert_eq!(steps[0].accounts, vec![key(2), key(1), key(4)]);
}

#[test]
fn add_liquidity_advances_its_clock() {
    let program = key(99);
    let pool = pool_with(5, 100, &[(10, 300), (11, 700)]);
    let mut accounts = vec![
        account(key(1), program, region_of(&pool, 3)),
        plain(key(2)),
        plain(key(3)),
        plain(key(4)),
    ];
    let before = accounts.clone();
    assert!(process_add_liquidity(&program, &mut accounts, 5000).is_ok());
    let after = read_pool(&accounts[0].data).unwrap();
    assert_eq!(after.last_liquidity_add_time, 5000);
    assert_eq!(after.last_distribution_time, 100);
    assert_eq!(after.total_wbtc_balance, 5);
    assert_eq!(after.token_holders, pool.token_holders);
    assert_eq!(after.reserve_wallet, pool.reserve_wallet);
    assert_eq!(after.liquidity_threshold, 100_000_000);
    assert_eq!(accounts[0].data.len(), before[0].data.len());
    assert_eq!(accounts[0].data[152..], before[0].data[152..]);
    assert_eq!(accounts[1..], before[1..]);

    let stored = accounts.clone();
    assert_eq!(
        process_add_liquidity(&program, &mut accounts, 6799),
        Err(LedgerError::InvalidInstructionData)
    );
    assert_eq!(accounts, stored);
    assert!(process_add_liquidity(&program, &mut accounts, 6800).is_ok());
    assert_eq!(read_pool(&accounts[0].data).unwrap().last_liquidity_add_time, 6800);
}

#[test]
fn add_liquidity_refusals() {
    let program = key(99);
    let pool = pool_with(5, 100, &[]);
    let mut accounts = vec![
        account(key(1), program, region_of(&pool, 0)),
        plain(key(2)),
        plain(key(3)),
    ];
    let before = accounts.clone();
    assert_eq!(
        process_add_liquidity(&program, &mut accounts, 1900),
        Err(LedgerError::NotEnoughAccountKeys)
    );
    assert_eq!(accounts, before);
    let mut broken = vec![
        account(key(1), program, vec![1u8; 30]),
        plain(key(2)),
        plain(key(3)),
        plain(key(4)),
    ];
    let before = broken.clone();
    assert_eq!(
        process_add_liquidity(&program, &mut broken, 1900),
        Err(LedgerError::InvalidInstructionData)
    );
    assert_eq!(broken, before);
}

#[test]
fn exchange_requests_are_bare() {
    let swap = create_swap_instruction(&key(1), &key(2), &key(3)).unwrap();
    assert_eq!(swap.program_id, key(1));
    assert!(swap.accounts.is_empty() && swap.data.is_empty());
    let add = create_add_liquidity_instruction(&key(4), &key(5)).unwrap();
    assert_eq!(add.program_id, key(4));
    assert!(add.accounts.is_empty() && add.data.is_empty());
    let update = create_update_holder_balance_instruction(&key(6), key(7), 8).unwrap();
    assert_eq!(update.program_id, key(6));
    assert_eq!(update.data.len(), 41);
    assert_eq!(update.data[0], 3);
    assert_eq!(update.data[1..33], [7u8; 32]);
    assert_eq!(update.data[33..], 8u64.to_le_bytes());
}

#[test]
fn ledger_replaces_or_accumulates() {
    let mut ledger = HolderLedger::new();
    assert_eq!(ledger.len(), 0);
    assert_eq!(ledger.balance_of(&key(1)), None);
    assert_eq!(ledger.update_holder_balance(key(1), 10, BalancePolicy::Replace), Ok(()));
    assert_eq!(ledger.update_holder_balance(key(2), 20, BalancePolicy::Accumulate), Ok(()));
    assert_eq!(ledger.update_holder_balance(key(1), 5, BalancePolicy::Replace), Ok(()));
    assert_eq!(ledger.update_holder_balance(key(2), 5, BalancePolicy::Accumulate), Ok(()));
    assert_eq!(ledger.update_holder_balance(key(3), 0, BalancePolicy::Replace), Ok(()));
    assert_eq!(ledger.len(), 3);
    assert_eq!(ledger.balance_of(&key(1)), Some(5));
    assert_eq!(ledger.balance_of(&key(2)), Some(25));
    assert_eq!(ledger.balance_of(&key(3)), Some(0));
    assert_eq!(ledger.find(&key(2)), Some(1));
    assert_eq!(ledger.find(&key(4)), None);
    assert_eq!(
        ledger.entries,
        vec![
            HolderEntry { holder: key(1), balance: 5 },
            HolderEntry { holder: key(2), balance: 25 },
            HolderEntry { holder: key(3), balance: 0 },
        ]
    );
}

#[test]
fn ledger_refuses_a_sum_that_does_not_fit() {
    let mut ledger = HolderLedger::new();
    ledger.update_holder_balance(key(1), u64::MAX - 1, BalancePolicy::Replace).unwrap();
    assert_eq!(ledger.update_holder_balance(key(1), 1, BalancePolicy::Accumulate), Ok(()));
    let before = ledger.clone();
    assert_eq!(
        ledger.update_holder_balance(key(1), 1, BalancePolicy::Accumulate),
        Err(LedgerError::Overflow)
    );
    assert_eq!(ledger, before);
    assert_eq!(ledger.update_holder_balance(key(1), 1, BalancePolicy::Replace), Ok(()));
    assert_eq!(ledger.balance_of(&key(1)), Some(1));
}

#[test]
fn ledger_is_normalized_in_order_of_first_sight() {
    let raw = HolderLedger {
        entries: vec![
            HolderEntry { holder: key(2), balance: 1 },
            HolderEntry { holder: key(1), balance: 2 },
            HolderEntry { holder: key(2), balance: 3 },
        ],
    };
    assert_eq!(
        raw.normalized().entries,
        vec![
            HolderEntry { holder: key(2), balance: 3 },
            HolderEntry { holder: key(1), balance: 2 },
        ]
    );
}

#[test]
fn holder_update_is_stored_in_the_pool() {
    let program = key(99);
    let pool = pool_with(5, 0, &[(10, 300)]);
    let mut accounts = vec![account(key(1), program, region_of(&pool, 40))];
    assert_eq!(
        process_update_holder_balance(&program, &mut accounts, key(11), 700, BalancePolicy::Replace),
        Ok(())
    );
    assert_eq!(
        process_update_holder_balance(
            &program,
            &mut accounts,
            key(10),
            5,
            BalancePolicy::Accumulate
        ),
        Ok(())
    );
    assert_eq!(read_pool(&accounts[0].data), Ok(pool_with(5, 0, &[(10, 305), (11, 700)])));

    let before = accounts.clone();
    assert_eq!(
        process_update_holder_balance(&program, &mut accounts, key(12), 1, BalancePolicy::Replace),
        Err(LedgerError::InvalidInstructionData)
    );
    assert_eq!(
        process_update_holder_balance(
            &program,
            &mut accounts,
            key(10),
            u64::MAX,
            BalancePolicy::Accumulate
        ),
        Err(LedgerError::Overflow)
    );
    assert_eq!(
        process_update_holder_balance(&key(98), &mut accounts, key(10), 1, BalancePolicy::Replace),
        Err(LedgerError::IncorrectProgramId)
    );
    assert_eq!(accounts, before);
    let mut none: Vec<AccountInfo> = Vec::new();
    assert_eq!(
        process_update_holder_balance(&program, &mut none, key(10), 1, BalancePolicy::Replace),
        Err(LedgerError::NotEnoughAccountKeys)
    );
}

#[test]
fn rewards_requests_are_dispatched_by_tag() {
    let program = token_program();

    let mut accounts = vec![
        account(key(1), program, vec![0u8; 72]),
        plain(key(2)),
        plain(key(3)),
        plain(key(4)),
    ];
    let steps = process_instruction(&program, &mut accounts, &[0], 0).unwrap();
    assert!(steps.is_empty());
    assert_eq!(read_pool(&accounts[0].data), Ok(RewardsPool::new(key(4))));

    let pool = pool_with(1000, 0, &[(10, 300), (11, 700)]);
    let mut accounts = distribution_accounts(program, &pool, 2);
    let mut same = accounts.clone();
    let steps = process_instruction(&program, &mut accounts, &[2], 1800).unwrap();
    assert_eq!(steps, process_distribute_rewards(&program, &mut same, 1800).unwrap());
    assert_eq!(accounts, same);

    let mut accounts = distribution_accounts(program, &pool, 2);
    let before = accounts.clone();
    let steps = process_instruction(&program, &mut accounts, &[1], 1800).unwrap();
    assert_eq!(steps, process_swap_fees_for_wbtc(&program, &before).unwrap());
    let mut same = before.clone();
    let steps = process_instruction(&program, &mut accounts, &[3], 1800).unwrap();
    assert_eq!(steps, process_add_liquidity(&program, &mut same, 1800).unwrap());
    assert_eq!(accounts, same);
    assert_eq!(read_pool(&accounts[0].data).unwrap().last_liquidity_add_time, 1800);
    let before = accounts.clone();
    assert_eq!(
        process_instruction(&program, &mut accounts, &[3], 3599),
        Err(LedgerError::InvalidInstructionData)
    );
    assert_eq!(
        process_instruction(&program, &mut accounts, &[4], 1800),
        Err(LedgerError::InvalidInstructionData)
    );
    assert_eq!(
        process_instruction(&program, &mut accounts, &[], 1800),
        Err(LedgerError::InvalidInstructionData)
    );
    assert_eq!(accounts, before);
}
