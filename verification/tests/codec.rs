use fee_token::error::LedgerError;
use fee_token::identity::Identity;
use fee_token::instruction::TokenInstruction;
use fee_token::rewards::RewardsInstruction;

fn key(n: u8) -> Identity {
    Identity { bytes: [n; 32] }
}

#[test]
fn lib_test_sanity() {
}

#[test]
fn unpack_initialize_mint_with_authority() {
    let mut input = vec![0u8, 9u8];
    input.extend_from_slice(&[7u8; 32]);
    assert_eq!(
        TokenInstruction::unpack(&input),
        Ok(TokenInstruction::InitializeMint { decimals: 9, mint_authority: Some(key(7)) })
    );
}

#[test]
fn unpack_initialize_mint_zero_authority_is_absent() {
    let mut input = vec![0u8, 6u8];
    input.extend_from_slice(&[0u8; 32]);
    assert_eq!(
        TokenInstruction::unpack(&input),
        Ok(TokenInstruction::InitializeMint { decimals: 6, mint_authority: None })
    );
}

#[test]
fn unpack_initialize_mint_one_nonzero_byte_is_present() {
    let mut bytes = [0u8; 32];
    bytes[31] = 1;
    let mut input = vec![0u8, 2u8];
    input.extend_from_slice(&bytes);
    assert_eq!(
        TokenInstruction::unpack(&input),
        Ok(TokenInstruction::InitializeMint { decimals: 2, mint_authority: Some(Identity { bytes }) })
    );
}

#[test]
fn unpack_mint_to() {
    let input = [1u8, 0x40, 0x42, 0x0f, 0, 0, 0, 0, 0];
    assert_eq!(TokenInstruction::unpack(&input), Ok(TokenInstruction::MintTo { amount: 1_000_000 }));
}

#[test]
fn unpack_transfer_with_flag() {
    let input = [2u8, 0xa0, 0x86, 0x01, 0, 0, 0, 0, 0, 1];
    assert_eq!(
        TokenInstruction::unpack(&input),
        Ok(TokenInstruction::Transfer { amount: 100_000, is_buy: true })
    );
    let input = [2u8, 0xa0, 0x86, 0x01, 0, 0, 0, 0, 0, 0];
    assert_eq!(
        TokenInstruction::unpack(&input),
        Ok(TokenInstruction::Transfer { amount: 100_000, is_buy: false })
    );
    let input = [2u8, 0xa0, 0x86, 0x01, 0, 0, 0, 0, 0, 0x80];
    assert_eq!(
        TokenInstruction::unpack(&input),
        Ok(TokenInstruction::Transfer { amount: 100_000, is_buy: true })
    );
}

#[test]
fn unpack_transfer_without_flag_is_a_sell() {
    let input = [2u8, 7, 0, 0, 0, 0, 0, 0, 0];
    assert_eq!(
        TokenInstruction::unpack(&input),
        Ok(TokenInstruction::Transfer { amount: 7, is_buy: false })
    );
}

#[test]
fn unpack_update_holder_balance() {
    let mut input = vec![3u8];
    input.extend_from_slice(&[5u8; 32]);
    input.extend_from_slice(&95_000u64.to_le_bytes());
    assert_eq!(
        TokenInstruction::unpack(&input),
        Ok(TokenInstruction::UpdateHolderBalance { holder: key(5), balance: 95_000 })
    );
}

#[test]
fn unpack_ignores_trailing_bytes() {
    let input = [1u8, 1, 0, 0, 0, 0, 0, 0, 0, 0xff, 0xff];
    assert_eq!(TokenInstruction::unpack(&input), Ok(TokenInstruction::MintTo { amount: 1 }));
}

#[test]
fn unpack_rejects_empty_input() {
    assert_eq!(TokenInstruction::unpack(&[]), Err(LedgerError::InvalidInstructionData));
}

#[test]
fn unpack_rejects_unknown_tags() {
    assert_eq!(TokenInstruction::unpack(&[4u8; 64]), Err(LedgerError::InvalidInstructionData));
    assert_eq!(TokenInstruction::unpack(&[255u8; 64]), Err(LedgerError::InvalidInstructionData));
}

#[test]
fn unpack_rejects_short_fields() {
    assert_eq!(TokenInstruction::unpack(&[0u8]), Err(LedgerError::InvalidInstructionData));
    assert_eq!(TokenInstruction::unpack(&[0u8; 33]), Err(LedgerError::InvalidInstructionData));
    assert_eq!(TokenInstruction::unpack(&[1u8; 8]), Err(LedgerError::InvalidInstructionData));
    assert_eq!(TokenInstruction::unpack(&[2u8; 8]), Err(LedgerError::InvalidInstructionData));
    assert_eq!(TokenInstruction::unpack(&[3u8; 32]), Err(LedgerError::InvalidInstructionData));
    assert_eq!(TokenInstruction::unpack(&[3u8; 40]), Err(LedgerError::InvalidInstructionData));
}

#[test]
fn pack_gives_the_wire_form() {
    let mut expected = vec![0u8, 9u8];
    expected.extend_from_slice(&[7u8; 32]);
    assert_eq!(
        (TokenInstruction::InitializeMint { decimals: 9, mint_authority: Some(key(7)) }).pack(),
        expected
    );
    let mut expected = vec![0u8, 9u8];
    expected.extend_from_slice(&[0u8; 32]);
    assert_eq!(
        (TokenInstruction::InitializeMint { decimals: 9, mint_authority: None }).pack(),
        expected
    );
    assert_eq!(
        (TokenInstruction::MintTo { amount: 0x0102030405060708 }).pack(),
        vec![1u8, 8, 7, 6, 5, 4, 3, 2, 1]
    );
    assert_eq!(
        (TokenInstruction::Transfer { amount: 100_000, is_buy: true }).pack(),
        vec![2u8, 0xa0, 0x86, 0x01, 0, 0, 0, 0, 0, 1]
    );
    assert_eq!(
        (TokenInstruction::Transfer { amount: 100_000, is_buy: false }).pack(),
        vec![2u8, 0xa0, 0x86, 0x01, 0, 0, 0, 0, 0, 0]
    );
    let mut expected = vec![3u8];
    expected.extend_from_slice(&[5u8; 32]);
    expected.extend_from_slice(&[0x18, 0x73, 0x01, 0, 0, 0, 0, 0]);
    assert_eq!(
        (TokenInstruction::UpdateHolderBalance { holder: key(5), balance: 95_000 }).pack(),
        expected
    );
}

#[test]
fn decoding_inverts_encoding_for_every_variant() {
    let all = [
        TokenInstruction::InitializeMint { decimals: 9, mint_authority: Some(key(1)) },
        TokenInstruction::InitializeMint { decimals: 0, mint_authority: None },
        TokenInstruction::MintTo { amount: u64::MAX },
        TokenInstruction::MintTo { amount: 0 },
        TokenInstruction::Transfer { amount: 12_345_678_901, is_buy: true },
        TokenInstruction::Transfer { amount: 1, is_buy: false },
        TokenInstruction::UpdateHolderBalance { holder: key(200), balance: 77 },
    ];
    for x in all.iter() {
        assert_eq!(TokenInstruction::unpack(&x.pack()), Ok(*x));
    }
}

#[test]
fn truncated_encodings_do_not_decode() {
    let all = [
        TokenInstruction::InitializeMint { decimals: 9, mint_authority: Some(key(1)) },
        TokenInstruction::MintTo { amount: 5 },
        TokenInstruction::Transfer { amount: 5, is_buy: true },
        TokenInstruction::UpdateHolderBalance { holder: key(2), balance: 77 },
    ];
    for x in all.iter() {
        let bytes = x.pack();
        for keep in 0..bytes.len() {
            let cut = TokenInstruction::unpack(&bytes[..keep]);
            if matches!(x, TokenInstruction::Transfer { .. }) && keep == 9 {
                assert_eq!(cut, Ok(TokenInstruction::Transfer { amount: 5, is_buy: false }));
            } else {
                assert_eq!(cut, Err(LedgerError::InvalidInstructionData));
            }
        }
    }
}

#[test]
fn rewards_requests_decode_by_tag() {
    assert_eq!(RewardsInstruction::unpack(&[0]), Ok(RewardsInstruction::InitializeRewardsPool));
    assert_eq!(RewardsInstruction::unpack(&[1]), Ok(RewardsInstruction::SwapFeesForWBTC));
    assert_eq!(RewardsInstruction::unpack(&[2, 9, 9]), Ok(RewardsInstruction::DistributeRewards));
    assert_eq!(RewardsInstruction::unpack(&[3]), Ok(RewardsInstruction::AddLiquidity));
    assert_eq!(RewardsInstruction::unpack(&[4]), Err(LedgerError::InvalidInstructionData));
    assert_eq!(RewardsInstruction::unpack(&[]), Err(LedgerError::InvalidInstructionData));
}

#[test]
fn rewards_requests_round_trip() {
    let all = [
        RewardsInstruction::InitializeRewardsPool,
        RewardsInstruction::SwapFeesForWBTC,
        RewardsInstruction::DistributeRewards,
        RewardsInstruction::AddLiquidity,
    ];
    for (tag, x) in all.iter().enumerate() {
        assert_eq!(x.pack(), vec![tag as u8]);
        assert_eq!(RewardsInstruction::unpack(&x.pack()), Ok(*x));
    }
}

#[test]
fn identity_helpers() {
    let a = key(3);
    assert!(a.equals(&Identity::new_from_array([3u8; 32])));
    assert!(!a.equals(&key(4)));
    assert_eq!(a.to_bytes(), [3u8; 32]);
    assert!(key(0).is_zero());
    assert!(!a.is_zero());
    let mut src = vec![9u8; 40];
    src[4] = 1;
    let cut = Identity::from_bytes_at(&src, 4);
    assert_eq!(cut.bytes[0], 1);
    assert_eq!(cut.bytes[1..], [9u8; 31]);
}
