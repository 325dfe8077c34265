//! Error kinds raised by the venue core.

use vstd::prelude::*;

verus! {

/// Every way an instruction can abort; each aborts the whole invocation.
#[derive(Clone, Copy, Debug, PartialEq, Eq, Structural)]
pub enum EngineError {
    /// The operation bytes do not decode to any instruction.
    InvalidInstruction,
    /// A record's storage does not meet the minimum-balance rule.
    NotRentExempt,
    /// A record's storage is not owned by this program.
    InvalidOwner,
    /// Record bytes fail to decode, or the buffer is too small to re-encode.
    InvalidAccountData,
    /// Arithmetic overflow or underflow in a position update.
    MathError,
    /// An order was placed against a disabled market.
    MarketInactive,
    /// Reserved for admin-gated operations.
    Unauthorized,
}

impl EngineError {
    /// Stable numeric code of the error, for hosts that carry errors as integers.
    pub fn code(&self) -> (c: u32)
        ensures
            c == self.spec_code(),
    {
        match self {
            EngineError::InvalidInstruction => 0,
            EngineError::NotRentExempt => 1,
            EngineError::InvalidOwner => 2,
            EngineError::InvalidAccountData => 3,
            EngineError::MathError => 4,
            EngineError::MarketInactive => 5,
            EngineError::Unauthorized => 6,
        }
    }

    /// Numeric code of each error kind.
    pub open spec fn spec_code(self) -> u32 {
        match self {
            EngineError::InvalidInstruction => 0u32,
            EngineError::NotRentExempt => 1u32,
            EngineError::InvalidOwner => 2u32,
            EngineError::InvalidAccountData => 3u32,
            EngineError::MathError => 4u32,
            EngineError::MarketInactive => 5u32,
            EngineError::Unauthorized => 6u32,
        }
    }
}

} // verus!
