use vstd::prelude::*;
use vstd::bytes::{spec_u64_from_le_bytes, spec_u64_to_le_bytes, u64_from_le_bytes, u64_to_le_bytes};
use vstd::bytes::lemma_auto_spec_u64_to_from_le_bytes;
use vstd::slice::slice_subrange;
use crate::error::LedgerError;
use crate::identity::{all_zero, option_view, Identity};

verus! {

/// A request to the token program.
#[derive(Clone, Copy, Debug, PartialEq, Eq)]
pub enum TokenInstruction {
    InitializeMint { decimals: u8, mint_authority: Option<Identity> },
    MintTo { amount: u64 },
    Transfer { amount: u64, is_buy: bool },
    UpdateHolderBalance { holder: Identity, balance: u64 },
}

/// A token request with its identities as byte sequences.
pub ghost enum TokenInstructionView {
    InitializeMint { decimals: u8, mint_authority: Option<Seq<u8>> },
    MintTo { amount: u64 },
    Transfer { amount: u64, is_buy: bool },
    UpdateHolderBalance { holder: Seq<u8>, balance: u64 },
}

impl View for TokenInstruction {
    type V = TokenInstructionView;

    open spec fn view(&self) -> TokenInstructionView {
        match *self {
            TokenInstruction::InitializeMint { decimals, mint_authority } => {
                TokenInstructionView::InitializeMint {
                    decimals,
                    mint_authority: option_view(mint_authority),
                }
            },
            TokenInstruction::MintTo { amount } => TokenInstructionView::MintTo { amount },
            TokenInstruction::Transfer { amount, is_buy } => TokenInstructionView::Transfer {
                amount,
                is_buy,
            },
            TokenInstruction::UpdateHolderBalance { holder, balance } => {
                TokenInstructionView::UpdateHolderBalance { holder: holder@, balance }
            },
        }
    }
}

impl TokenInstructionView {
    /// Every identity in the request is 32 bytes wide.
    pub open spec fn well_formed(self) -> bool {
        match self {
            TokenInstructionView::InitializeMint { mint_authority: Some(key), .. } => key.len()
                == 32,
            TokenInstructionView::UpdateHolderBalance { holder, .. } => holder.len() == 32,
            _ => true,
        }
    }

    /// The request is one that decoding can give: on the wire an authority of
    /// 32 zero bytes stands for no authority.
    pub open spec fn canonical(self) -> bool {
        match self {
            TokenInstructionView::InitializeMint { mint_authority: Some(key), .. } => !all_zero(
                key,
            ),
            _ => true,
        }
    }
}

/// The view of the outcome of decoding.
pub open spec fn token_result_view(r: Result<TokenInstruction, LedgerError>) -> Result<
    TokenInstructionView,
    LedgerError,
> {
    match r {
        Ok(x) => Ok(x@),
        Err(e) => Err(e),
    }
}

/// 32 zero bytes.
pub open spec fn zero_key() -> Seq<u8> {
    Seq::new(32, |i: int| 0u8)
}

/// The wire form of a token request: a tag byte, then the fields at fixed
/// widths, integers little-endian.
pub open spec fn token_encoding(x: TokenInstructionView) -> Seq<u8> {
    match x {
        TokenInstructionView::InitializeMint { decimals, mint_authority } => seq![0u8, decimals]
            + (match mint_authority {
            Some(key) => key,
            None => zero_key(),
        }),
        TokenInstructionView::MintTo { amount } => seq![1u8] + spec_u64_to_le_bytes(amount),
        TokenInstructionView::Transfer { amount, is_buy } => seq![2u8] + spec_u64_to_le_bytes(
            amount,
        ) + seq![if is_buy { 1u8 } else { 0u8 }],
        TokenInstructionView::UpdateHolderBalance { holder, balance } => seq![3u8] + holder
            + spec_u64_to_le_bytes(balance),
    }
}

/// What a byte sequence decodes to. Bytes behind the last field are ignored;
/// a transfer without its flag byte is a sell.
pub open spec fn token_decoding(input: Seq<u8>) -> Result<TokenInstructionView, LedgerError> {
    if input.len() == 0 {
        Err(LedgerError::InvalidInstructionData)
    } else if input[0] == 0 {
        if input.len() < 34 {
            Err(LedgerError::InvalidInstructionData)
        } else {
            let key = input.subrange(2, 34);
            Ok(
                TokenInstructionView::InitializeMint {
                    decimals: input[1],
                    mint_authority: if all_zero(key) { None } else { Some(key) },
                },
            )
        }
    } else if input[0] == 1 {
        if input.len() < 9 {
            Err(LedgerError::InvalidInstructionData)
        } else {
            Ok(TokenInstructionView::MintTo { amount: spec_u64_from_le_bytes(input.subrange(1, 9)) })
        }
    } else if input[0] == 2 {
        if input.len() < 9 {
            Err(LedgerError::InvalidInstructionData)
        } else {
            Ok(
                TokenInstructionView::Transfer {
                    amount: spec_u64_from_le_bytes(input.subrange(1, 9)),
                    is_buy: input.len() > 9 && input[9] != 0,
                },
            )
        }
    } else if input[0] == 3 {
        if input.len() < 41 {
            Err(LedgerError::InvalidInstructionData)
        } else {
            Ok(
                TokenInstructionView::UpdateHolderBalance {
                    holder: input.subrange(1, 33),
                    balance: spec_u64_from_le_bytes(input.subrange(33, 41)),
                },
            )
        }
    } else {
        Err(LedgerError::InvalidInstructionData)
    }
}

/// The little-endian `u64` at `input[start..start + 8]`.
pub fn read_u64_le(input: &[u8], start: usize) -> (value: u64)
    requires
        start + 8 <= input@.len(),
    ensures
        value == spec_u64_from_le_bytes(input@.subrange(start as int, start + 8)),
{
    let len: usize = input.len();
    assert(start + 8 <= len);
    u64_from_le_bytes(slice_subrange(input, start, start + 8))
}

/// Appends the bytes of `id` to `out`.
pub fn push_identity(out: &mut Vec<u8>, id: &Identity)
    ensures
        final(out)@ == old(out)@ + id@,
{
    let mut i: usize = 0;
    while i < 32
        invariant
            i <= 32,
            out@ == old(out)@ + id@.subrange(0, i as int),
        decreases 32 - i,
    {
        out.push(id.bytes[i]);
        i += 1;
        assert(out@ =~= old(out)@ + id@.subrange(0, i as int));
    }
    assert(id@.subrange(0, 32) =~= id@);
}

/// Appends `value` to `out`, little-endian.
pub fn push_u64_le(out: &mut Vec<u8>, value: u64)
    ensures
        final(out)@ == old(out)@ + spec_u64_to_le_bytes(value),
{
    let bytes = u64_to_le_bytes(value);
    let mut i: usize = 0;
    while i < 8
        invariant
            i <= 8,
            bytes@.len() == 8,
            out@ == old(out)@ + bytes@.subrange(0, i as int),
        decreases 8 - i,
    {
        out.push(bytes[i]);
        i += 1;
        assert(out@ =~= old(out)@ + bytes@.subrange(0, i as int));
    }
    assert(bytes@.subrange(0, 8) =~= bytes@);
}

impl TokenInstruction {
    /// Decodes a token request.
    pub fn unpack(input: &[u8]) -> (r: Result<TokenInstruction, LedgerError>)
        ensures
            token_result_view(r) == token_decoding(input@),
    {
        let len: usize = input.len();
        if len == 0 {
            return Err(LedgerError::InvalidInstructionData);
        }
        let tag: u8 = input[0];
        if tag == 0 {
            if len < 34 {
                return Err(LedgerError::InvalidInstructionData);
            }
            let key = Identity::from_bytes_at(input, 2);
            let mint_authority = if key.is_zero() {
                None
            } else {
                Some(key)
            };
            Ok(TokenInstruction::InitializeMint { decimals: input[1], mint_authority })
        } else if tag == 1 {
            if len < 9 {
                return Err(LedgerError::InvalidInstructionData);
            }
            Ok(TokenInstruction::MintTo { amount: read_u64_le(input, 1) })
        } else if tag == 2 {
            if len < 9 {
                return Err(LedgerError::InvalidInstructionData);
            }
            let amount = read_u64_le(input, 1);
            let is_buy = len > 9 && input[9] != 0;
            Ok(TokenInstruction::Transfer { amount, is_buy })
        } else if tag == 3 {
            if len < 41 {
                return Err(LedgerError::InvalidInstructionData);
            }
            let holder = Identity::from_bytes_at(input, 1);
            let balance = read_u64_le(input, 33);
            Ok(TokenInstruction::UpdateHolderBalance { holder, balance })
        } else {
            Err(LedgerError::InvalidInstructionData)
        }
    }

    /// Encodes a token request.
    pub fn pack(&self) -> (out: Vec<u8>)
        ensures
            out@ == token_encoding(self@),
    {
        let mut out: Vec<u8> = Vec::new();
        match self {
            TokenInstruction::InitializeMint { decimals, mint_authority } => {
                out.push(0);
                out.push(*decimals);
                match mint_authority {
                    Some(key) => {
                        push_identity(&mut out, key);
                        assert(out@ =~= token_encoding(self@));
                    },
                    None => {
                        let zero = Identity { bytes: [0u8; 32] };
                        push_identity(&mut out, &zero);
                        assert(zero@ =~= zero_key());
                        assert(out@ =~= token_encoding(self@));
                    },
                }
            },
            TokenInstruction::MintTo { amount } => {
                out.push(1);
                push_u64_le(&mut out, *amount);
                assert(out@ =~= token_encoding(self@));
            },
            TokenInstruction::Transfer { amount, is_buy } => {
                out.push(2);
                push_u64_le(&mut out, *amount);
                out.push(if *is_buy { 1 } else { 0 });
                assert(out@ =~= token_encoding(self@));
            },
            TokenInstruction::UpdateHolderBalance { holder, balance } => {
                out.push(3);
                push_identity(&mut out, holder);
                push_u64_le(&mut out, *balance);
                assert(out@ =~= token_encoding(self@));
            },
        }
        out
    }
}

/// Decoding undoes encoding: every well-formed request that decoding can
/// give comes back from its own wire form.
pub proof fn lemma_token_decoding_inverts_encoding(x: TokenInstructionView)
    requires
        x.well_formed(),
        x.canonical(),
    ensures
        token_decoding(token_encoding(x)) == Ok::<TokenInstructionView, LedgerError>(x),
{
    lemma_auto_spec_u64_to_from_le_bytes();
    let bytes = token_encoding(x);
    match x {
        TokenInstructionView::InitializeMint { decimals, mint_authority } => {
            match mint_authority {
                Some(key) => {
                    assert(bytes.subrange(2, 34) =~= key);
                },
                None => {
                    assert(bytes.subrange(2, 34) =~= zero_key());
                },
            }
        },
        TokenInstructionView::MintTo { amount } => {
            assert(bytes.subrange(1, 9) =~= spec_u64_to_le_bytes(amount));
        },
        TokenInstructionView::Transfer { amount, is_buy } => {
            assert(bytes.subrange(1, 9) =~= spec_u64_to_le_bytes(amount));
        },
        TokenInstructionView::UpdateHolderBalance { holder, balance } => {
            assert(bytes.subrange(1, 33) =~= holder);
            assert(bytes.subrange(33, 41) =~= spec_u64_to_le_bytes(balance));
        },
    }
}

/// A wire form cut short does not decode. The one exception is a transfer
/// that lost only its flag byte, which still reads as a sell.
pub proof fn lemma_truncated_token_encoding_fails(x: TokenInstructionView, keep: int)
    requires
        x.well_formed(),
        0 <= keep < token_encoding(x).len(),
        !(x is Transfer && keep == 9),
    ensures
        token_decoding(token_encoding(x).subrange(0, keep)) == Err::<
            TokenInstructionView,
            LedgerError,
        >(LedgerError::InvalidInstructionData),
{
    lemma_auto_spec_u64_to_from_le_bytes();
}

} // verus!
