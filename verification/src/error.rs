use vstd::prelude::*;

verus! {

/// Why an operation was refused.
#[derive(Clone, Copy, Debug, PartialEq, Eq, Structural)]
pub enum LedgerError {
    /// Input bytes or a stored record could not be decoded, or the
    /// interval between two operations has not yet elapsed.
    InvalidInstructionData,
    /// A storage region has the wrong owner, or a declared program identity
    /// does not match the one on record.
    IncorrectProgramId,
    /// A fee or a share does not fit the arithmetic.
    Overflow,
    /// Fewer accounts were supplied than the operation consumes.
    NotEnoughAccountKeys,
}

} // verus!
