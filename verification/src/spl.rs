use vstd::prelude::*;
use vstd::bytes::spec_u64_to_le_bytes;
use solana_program::program_error::ProgramError;
use solana_program::program_pack::Pack;
use solana_program::pubkey::Pubkey;
use crate::account::{AccountMeta, AccountMetaView, Instruction, InstructionView};
use crate::identity::Identity;
use crate::mint::{mint_bytes, mint_of_bytes, mint_unpacks, Mint};

verus! {

/// The error type of the token program's library. Nothing is known of a
/// value of it; the code that receives one decides what it reports.
#[verifier::external_type_specification]
#[verifier::external_body]
pub struct ExProgramError(ProgramError);

/// The identity of the token program with extensions,
/// `TokenzQdBNbLqP5VEhdkAS6EPFLC1PHnBqCXEpPxuEb`.
pub open spec fn token_2022_program_bytes() -> Seq<u8> {
    seq![
        6u8, 221u8, 246u8, 225u8, 238u8, 117u8, 143u8, 222u8, 24u8, 66u8, 93u8, 188u8, 228u8,
        108u8, 205u8, 218u8, 182u8, 26u8, 252u8, 77u8, 131u8, 185u8, 13u8, 39u8, 254u8, 189u8,
        249u8, 40u8, 216u8, 161u8, 139u8, 252u8,
    ]
}

/// The identity of the earlier token program,
/// `TokenkegQfeZyiNwAJbNbGKPFXCWuBvf9Ss623VQ5DA`.
pub open spec fn token_program_bytes() -> Seq<u8> {
    seq![
        6u8, 221u8, 246u8, 225u8, 215u8, 101u8, 161u8, 147u8, 217u8, 203u8, 225u8, 70u8, 206u8,
        235u8, 121u8, 172u8, 28u8, 180u8, 133u8, 237u8, 95u8, 91u8, 55u8, 145u8, 58u8, 140u8,
        245u8, 133u8, 126u8, 255u8, 0u8, 169u8,
    ]
}

/// `program` is the identity of one of the two token programs.
pub open spec fn token_program_accepted(program: Seq<u8>) -> bool {
    program == token_2022_program_bytes() || program == token_program_bytes()
}

/// The request that moves or mints `amount`: `tag` and the amount as data,
/// `first` and `second` writable, `authority` as the one signer.
pub open spec fn token_request(
    token_program: Seq<u8>,
    tag: u8,
    first: Seq<u8>,
    second: Seq<u8>,
    authority: Seq<u8>,
    amount: u64,
) -> InstructionView {
    InstructionView {
        program_id: token_program,
        accounts: seq![
            AccountMetaView { pubkey: first, is_signer: false, is_writable: true },
            AccountMetaView { pubkey: second, is_signer: false, is_writable: true },
            AccountMetaView { pubkey: authority, is_signer: true, is_writable: false },
        ],
        data: seq![tag] + spec_u64_to_le_bytes(amount),
    }
}

/// Calls `spl_token_2022::check_spl_token_program_account`, which accepts
/// the identities of the two token programs and no other.
#[verifier::external_body]
pub(crate) fn check_token_program(program: &Identity) -> (r: Result<(), ProgramError>)
    ensures
        r is Ok <==> token_program_accepted(program@),
{
    spl_token_2022::check_spl_token_program_account(&Pubkey::new_from_array(program.bytes))
}

/// Calls `spl_token_2022::instruction::transfer` with no extra signers. It
/// fails exactly when the token program is not accepted; otherwise the
/// request carries tag 3 and the amount, little-endian, for source and
/// destination (writable) and the authority (signer).
#[verifier::external_body]
#[allow(deprecated)]
pub(crate) fn transfer_request(
    token_program: &Identity,
    source: &Identity,
    destination: &Identity,
    authority: &Identity,
    amount: u64,
) -> (r: Result<Instruction, ProgramError>)
    ensures
        r is Ok <==> token_program_accepted(token_program@),
        r matches Ok(ix) ==> ix@ == token_request(
            token_program@,
            3u8,
            source@,
            destination@,
            authority@,
            amount,
        ),
{
    let ix = spl_token_2022::instruction::transfer(
        &Pubkey::new_from_array(token_program.bytes),
        &Pubkey::new_from_array(source.bytes),
        &Pubkey::new_from_array(destination.bytes),
        &Pubkey::new_from_array(authority.bytes),
        &[],
        amount,
    )?;
    let metas = ix.accounts.iter().map(|m| AccountMeta { pubkey: Identity { bytes: m.pubkey.to_bytes() }, is_signer: m.is_signer, is_writable: m.is_writable });
    Ok(Instruction { program_id: Identity { bytes: ix.program_id.to_bytes() }, accounts: metas.collect(), data: ix.data })
}

/// Calls `spl_token_2022::instruction::mint_to` with no extra signers. It
/// fails exactly when the token program is not accepted; otherwise the
/// request carries tag 7 and the amount, little-endian, for the mint and the
/// receiving account (writable) and the authority (signer).
#[verifier::external_body]
pub(crate) fn mint_to_request(
    token_program: &Identity,
    mint: &Identity,
    account: &Identity,
    authority: &Identity,
    amount: u64,
) -> (r: Result<Instruction, ProgramError>)
    ensures
        r is Ok <==> token_program_accepted(token_program@),
        r matches Ok(ix) ==> ix@ == token_request(
            token_program@,
            7u8,
            mint@,
            account@,
            authority@,
            amount,
        ),
{
    let ix = spl_token_2022::instruction::mint_to(
        &Pubkey::new_from_array(token_program.bytes),
        &Pubkey::new_from_array(mint.bytes),
        &Pubkey::new_from_array(account.bytes),
        &Pubkey::new_from_array(authority.bytes),
        &[],
        amount,
    )?;
    let metas = ix.accounts.iter().map(|m| AccountMeta { pubkey: Identity { bytes: m.pubkey.to_bytes() }, is_signer: m.is_signer, is_writable: m.is_writable });
    Ok(Instruction { program_id: Identity { bytes: ix.program_id.to_bytes() }, accounts: metas.collect(), data: ix.data })
}

/// Calls `Pack::pack` for `spl_token_2022::state::Mint`. It writes only into
/// a destination of exactly 82 bytes: the two optional keys with their
/// four-byte tags, the supply, the decimals and the flag. Where a key is
/// absent its 32 bytes keep what the destination held.
#[verifier::external_body]
pub(crate) fn mint_pack(mint: &Mint, dst: &mut Vec<u8>) -> (r: Result<(), ProgramError>)
    ensures
        r is Ok <==> old(dst)@.len() == 82,
        r is Ok ==> final(dst)@ == mint_bytes(mint@, old(dst)@),
        r is Err ==> final(dst)@ == old(dst)@,
{
    let outside = spl_token_2022::state::Mint {
        mint_authority: mint.mint_authority.map(|k| Pubkey::new_from_array(k.bytes)).into(),
        supply: mint.supply,
        decimals: mint.decimals,
        is_initialized: mint.is_initialized,
        freeze_authority: mint.freeze_authority.map(|k| Pubkey::new_from_array(k.bytes)).into(),
    };
    spl_token_2022::state::Mint::pack(outside, dst.as_mut_slice())
}

/// Calls `Pack::unpack` for `spl_token_2022::state::Mint`. It accepts
/// exactly 82 bytes whose two key tags are valid and whose flag says
/// initialized, and hands back the fields that they hold.
#[verifier::external_body]
pub(crate) fn mint_unpack(src: &[u8]) -> (r: Result<Mint, ProgramError>)
    ensures
        r is Ok <==> mint_unpacks(src@),
        r matches Ok(mint) ==> mint@ == mint_of_bytes(src@),
{
    let outside = spl_token_2022::state::Mint::unpack(src)?;
    let mint_authority: Option<Pubkey> = outside.mint_authority.into();
    let freeze_authority: Option<Pubkey> = outside.freeze_authority.into();
    Ok(Mint {
        mint_authority: mint_authority.map(|k| Identity { bytes: k.to_bytes() }),
        supply: outside.supply,
        decimals: outside.decimals,
        is_initialized: outside.is_initialized,
        freeze_authority: freeze_authority.map(|k| Identity { bytes: k.to_bytes() }),
    })
}

/// The identity of the token program with extensions.
pub fn token_2022_program() -> (id: Identity)
    ensures
        id@ == token_2022_program_bytes(),
{
    let id = Identity {
        bytes: [
            6, 221, 246, 225, 238, 117, 143, 222, 24, 66, 93, 188, 228, 108, 205, 218, 182, 26,
            252, 77, 131, 185, 13, 39, 254, 189, 249, 40, 216, 161, 139, 252,
        ],
    };
    assert(id@ =~= token_2022_program_bytes());
    id
}

/// The identity of the earlier token program.
pub fn token_program() -> (id: Identity)
    ensures
        id@ == token_program_bytes(),
{
    let id = Identity {
        bytes: [
            6, 221, 246, 225, 215, 101, 161, 147, 217, 203, 225, 70, 206, 235, 121, 172, 28, 180,
            133, 237, 95, 91, 55, 145, 58, 140, 245, 133, 126, 255, 0, 169,
        ],
    };
    assert(id@ =~= token_program_bytes());
    id
}

/// Whether `program` is the identity of a token program, so that requests to
/// it can be built.
pub fn is_token_program(program: &Identity) -> (accepted: bool)
    ensures
        accepted == token_program_accepted(program@),
{
    match check_token_program(program) {
        Ok(_) => true,
        Err(_) => false,
    }
}

} // verus!
