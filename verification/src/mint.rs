use vstd::prelude::*;
use vstd::bytes::{spec_u16_from_le_bytes, spec_u16_to_le_bytes};
use vstd::bytes::{spec_u64_from_le_bytes, spec_u64_to_le_bytes};
use vstd::bytes::{lemma_auto_spec_u16_to_from_le_bytes, lemma_auto_spec_u64_to_from_le_bytes};
use vstd::slice::slice_subrange;
use crate::account::write_prefix;
use crate::error::LedgerError;
use crate::identity::{option_view, Identity};
use crate::spl::{mint_pack, mint_unpack};
use crate::wire::{decode_fee_config, encode_fee_config};

verus! {

/// Width of a stored mint record.
pub const MINT_LEN: usize = 82;

/// Width of a stored fee schedule.
pub const FEE_CONFIG_LEN: usize = 68;

/// Width of a mint record with the fee schedule behind it.
pub const MINT_REGION_LEN: usize = 150;

/// The rate, in basis points, that a new mint charges in either direction.
pub const DEFAULT_FEE_BASIS_POINTS: u16 = 500;

/// The parameters of the token.
#[derive(Clone, Copy, Debug, PartialEq, Eq)]
pub struct Mint {
    pub mint_authority: Option<Identity>,
    pub supply: u64,
    pub decimals: u8,
    pub is_initialized: bool,
    pub freeze_authority: Option<Identity>,
}

pub ghost struct MintView {
    pub mint_authority: Option<Seq<u8>>,
    pub supply: u64,
    pub decimals: u8,
    pub is_initialized: bool,
    pub freeze_authority: Option<Seq<u8>>,
}

impl View for Mint {
    type V = MintView;

    open spec fn view(&self) -> MintView {
        MintView {
            mint_authority: option_view(self.mint_authority),
            supply: self.supply,
            decimals: self.decimals,
            is_initialized: self.is_initialized,
            freeze_authority: option_view(self.freeze_authority),
        }
    }
}

impl MintView {
    /// Every key in the record is 32 bytes wide.
    pub open spec fn well_formed(self) -> bool {
        &&& self.mint_authority matches Some(key) ==> key.len() == 32
        &&& self.freeze_authority matches Some(key) ==> key.len() == 32
    }
}

/// The fee schedule that is stored behind a mint record.
#[derive(Clone, Copy, Debug, PartialEq, Eq)]
pub struct TransferFeeConfig {
    pub buy_fee_basis_points: u16,
    pub sell_fee_basis_points: u16,
    pub fee_collector: Identity,
    pub rewards_program: Identity,
}

pub ghost struct TransferFeeConfigView {
    pub buy_fee_basis_points: u16,
    pub sell_fee_basis_points: u16,
    pub fee_collector: Seq<u8>,
    pub rewards_program: Seq<u8>,
}

impl View for TransferFeeConfig {
    type V = TransferFeeConfigView;

    open spec fn view(&self) -> TransferFeeConfigView {
        TransferFeeConfigView {
            buy_fee_basis_points: self.buy_fee_basis_points,
            sell_fee_basis_points: self.sell_fee_basis_points,
            fee_collector: self.fee_collector@,
            rewards_program: self.rewards_program@,
        }
    }
}

impl TransferFeeConfigView {
    /// Both identities are 32 bytes wide.
    pub open spec fn well_formed(self) -> bool {
        self.fee_collector.len() == 32 && self.rewards_program.len() == 32
    }
}

/// The 36 bytes of an optional key written over `prior`: a four-byte tag,
/// then the key. Without a key only the tag is written.
pub open spec fn optional_key_bytes(key: Option<Seq<u8>>, prior: Seq<u8>) -> Seq<u8> {
    match key {
        Some(k) => seq![1u8, 0u8, 0u8, 0u8] + k,
        None => seq![0u8, 0u8, 0u8, 0u8] + prior.subrange(4, 36),
    }
}

/// The tag of a stored optional key is one of the two that are written.
pub open spec fn optional_key_tag_valid(field: Seq<u8>) -> bool {
    (field[0] == 0 || field[0] == 1) && field[1] == 0 && field[2] == 0 && field[3] == 0
}

/// The optional key that 36 stored bytes hold.
pub open spec fn optional_key_of(field: Seq<u8>) -> Option<Seq<u8>> {
    if field[0] == 1 {
        Some(field.subrange(4, 36))
    } else {
        None
    }
}

/// The 82 bytes of a mint record written over `prior`.
pub open spec fn mint_bytes(mint: MintView, prior: Seq<u8>) -> Seq<u8> {
    optional_key_bytes(mint.mint_authority, prior.subrange(0, 36)) + spec_u64_to_le_bytes(
        mint.supply,
    ) + seq![mint.decimals, if mint.is_initialized { 1u8 } else { 0u8 }] + optional_key_bytes(
        mint.freeze_authority,
        prior.subrange(46, 82),
    )
}

/// `record` holds an initialized mint.
pub open spec fn mint_unpacks(record: Seq<u8>) -> bool {
    &&& record.len() == 82
    &&& optional_key_tag_valid(record.subrange(0, 36))
    &&& record[45] == 1
    &&& optional_key_tag_valid(record.subrange(46, 82))
}

/// The mint that an 82-byte record holds.
pub open spec fn mint_of_bytes(record: Seq<u8>) -> MintView {
    MintView {
        mint_authority: optional_key_of(record.subrange(0, 36)),
        supply: spec_u64_from_le_bytes(record.subrange(36, 44)),
        decimals: record[44],
        is_initialized: record[45] == 1,
        freeze_authority: optional_key_of(record.subrange(46, 82)),
    }
}

/// The 68 bytes of a fee schedule: the two rates, little-endian, then the
/// two identities.
pub open spec fn fee_config_bytes(config: TransferFeeConfigView) -> Seq<u8> {
    spec_u16_to_le_bytes(config.buy_fee_basis_points) + spec_u16_to_le_bytes(
        config.sell_fee_basis_points,
    ) + config.fee_collector + config.rewards_program
}

/// The fee schedule that the first 68 bytes of `bytes` hold.
pub open spec fn fee_config_of_bytes(bytes: Seq<u8>) -> TransferFeeConfigView {
    TransferFeeConfigView {
        buy_fee_basis_points: spec_u16_from_le_bytes(bytes.subrange(0, 2)),
        sell_fee_basis_points: spec_u16_from_le_bytes(bytes.subrange(2, 4)),
        fee_collector: bytes.subrange(4, 36),
        rewards_program: bytes.subrange(36, 68),
    }
}

/// The mint that a new token starts from.
pub open spec fn initial_mint(decimals: u8, mint_authority: Option<Seq<u8>>) -> MintView {
    MintView {
        mint_authority,
        supply: 0,
        decimals,
        is_initialized: true,
        freeze_authority: None,
    }
}

/// The fee schedule that a new token starts from.
pub open spec fn initial_fee_config(
    fee_collector: Seq<u8>,
    rewards_program: Seq<u8>,
) -> TransferFeeConfigView {
    TransferFeeConfigView {
        buy_fee_basis_points: 500,
        sell_fee_basis_points: 500,
        fee_collector,
        rewards_program,
    }
}

/// A region after a mint record and its fee schedule were written at its
/// start: the record, the schedule right behind it, the rest as it was.
pub open spec fn mint_region(
    mint: MintView,
    config: TransferFeeConfigView,
    prior: Seq<u8>,
) -> Seq<u8> {
    mint_bytes(mint, prior.subrange(0, 82)) + fee_config_bytes(config) + prior.subrange(
        150,
        prior.len() as int,
    )
}

/// The fee schedule that a mint's region holds: the region must hold an
/// initialized mint record and 68 bytes behind it.
pub open spec fn stored_fee_config(data: Seq<u8>) -> Result<TransferFeeConfigView, LedgerError> {
    if data.len() < 150 || !mint_unpacks(data.subrange(0, 82)) {
        Err(LedgerError::InvalidInstructionData)
    } else {
        Ok(fee_config_of_bytes(data.subrange(82, 150)))
    }
}

/// The view of the outcome of reading a fee schedule.
pub open spec fn fee_config_result_view(r: Result<TransferFeeConfig, LedgerError>) -> Result<
    TransferFeeConfigView,
    LedgerError,
> {
    match r {
        Ok(config) => Ok(config@),
        Err(e) => Err(e),
    }
}

/// Reads the fee schedule from a mint's region.
pub fn read_fee_config(data: &[u8]) -> (r: Result<TransferFeeConfig, LedgerError>)
    ensures
        fee_config_result_view(r) == stored_fee_config(data@),
{
    if data.len() < MINT_REGION_LEN {
        return Err(LedgerError::InvalidInstructionData);
    }
    match mint_unpack(slice_subrange(data, 0, MINT_LEN)) {
        Ok(_) => {},
        Err(_) => {
            return Err(LedgerError::InvalidInstructionData);
        },
    }
    match decode_fee_config(slice_subrange(data, MINT_LEN, MINT_REGION_LEN)) {
        Ok(config) => {
            assert(data@.subrange(82, 150).subrange(0, 2) =~= data@.subrange(82, 84));
            Ok(config)
        },
        Err(_) => Err(LedgerError::InvalidInstructionData),
    }
}

/// Reads the mint record from a mint's region.
pub fn read_mint(data: &[u8]) -> (r: Result<Mint, LedgerError>)
    ensures
        match r {
            Ok(mint) => data@.len() >= 82 && mint_unpacks(data@.subrange(0, 82)) && mint@
                == mint_of_bytes(data@.subrange(0, 82)),
            Err(e) => e == LedgerError::InvalidInstructionData && !(data@.len() >= 82
                && mint_unpacks(data@.subrange(0, 82))),
        },
{
    if data.len() < MINT_LEN {
        return Err(LedgerError::InvalidInstructionData);
    }
    match mint_unpack(slice_subrange(data, 0, MINT_LEN)) {
        Ok(mint) => Ok(mint),
        Err(_) => Err(LedgerError::InvalidInstructionData),
    }
}

/// Writes `mint` and, right behind it, `config` at the start of `data`.
pub fn write_mint_region(data: &mut Vec<u8>, mint: &Mint, config: &TransferFeeConfig) -> (r: Result<
    (),
    LedgerError,
>)
    requires
        old(data)@.len() >= 150,
    ensures
        r is Ok,
        final(data)@ == mint_region(mint@, config@, old(data)@),
{
    let mut record: Vec<u8> = Vec::new();
    let mut i: usize = 0;
    while i < MINT_LEN
        invariant
            i <= 82,
            data@.len() >= 150,
            record@ == data@.subrange(0, i as int),
        decreases 82 - i,
    {
        record.push(data[i]);
        i += 1;
        assert(record@ =~= data@.subrange(0, i as int));
    }
    let ghost prior = record@;
    match mint_pack(mint, &mut record) {
        Ok(_) => {},
        Err(_) => {
            return Err(LedgerError::InvalidInstructionData);
        },
    }
    let schedule = match encode_fee_config(config) {
        Ok(bytes) => bytes,
        Err(_) => {
            return Err(LedgerError::InvalidInstructionData);
        },
    };
    proof {
        lemma_auto_spec_u16_to_from_le_bytes();
        lemma_auto_spec_u64_to_from_le_bytes();
        assert(schedule@.len() == 68);
        assert(record@.len() == 82) by {
            assert(prior.subrange(0, 36).subrange(4, 36).len() == 32);
            assert(prior.subrange(46, 82).subrange(4, 36).len() == 32);
        }
    }
    let mut image: Vec<u8> = record;
    let mut schedule = schedule;
    image.append(&mut schedule);
    write_prefix(data, &image);
    proof {
        assert(prior =~= old(data)@.subrange(0, 82));
    }
    Ok(())
}

/// What was written is what is read: a region that a mint and a fee schedule
/// were written to holds that mint, if it is initialized, and that schedule.
pub proof fn lemma_mint_region_reads_back(
    mint: MintView,
    config: TransferFeeConfigView,
    prior: Seq<u8>,
)
    requires
        mint.well_formed(),
        mint.is_initialized,
        config.well_formed(),
        prior.len() >= 150,
    ensures
        mint_unpacks(mint_region(mint, config, prior).subrange(0, 82)),
        mint_of_bytes(mint_region(mint, config, prior).subrange(0, 82)) == mint,
        stored_fee_config(mint_region(mint, config, prior)) == Ok::<
            TransferFeeConfigView,
            LedgerError,
        >(config),
{
    lemma_auto_spec_u16_to_from_le_bytes();
    lemma_auto_spec_u64_to_from_le_bytes();
    let head = prior.subrange(0, 82);
    let region = mint_region(mint, config, prior);
    let record = mint_bytes(mint, head);
    let first = optional_key_bytes(mint.mint_authority, head.subrange(0, 36));
    let second = optional_key_bytes(mint.freeze_authority, head.subrange(46, 82));
    assert(first.len() == 36);
    assert(second.len() == 36);
    assert(record.len() == 82);
    assert(region.subrange(0, 82) =~= record);
    assert(record.subrange(0, 36) =~= first);
    assert(record.subrange(46, 82) =~= second);
    assert(record.subrange(36, 44) =~= spec_u64_to_le_bytes(mint.supply));
    match mint.mint_authority {
        Some(key) => {
            assert(first.subrange(4, 36) =~= key);
        },
        None => {},
    }
    match mint.freeze_authority {
        Some(key) => {
            assert(second.subrange(4, 36) =~= key);
        },
        None => {},
    }
    let schedule = fee_config_bytes(config);
    assert(schedule.len() == 68);
    assert(region.subrange(82, 150) =~= schedule);
    assert(schedule.subrange(0, 2) =~= spec_u16_to_le_bytes(config.buy_fee_basis_points));
    assert(schedule.subrange(2, 4) =~= spec_u16_to_le_bytes(config.sell_fee_basis_points));
    assert(schedule.subrange(4, 36) =~= config.fee_collector);
    assert(schedule.subrange(36, 68) =~= config.rewards_program);
}

} // verus!
