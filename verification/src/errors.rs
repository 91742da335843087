use vstd::prelude::*;

use crate::types::Rate;

verus! {

/// Every failure the virtual machine reports.
///
/// Decode failures reject a single command; validation and capacity
/// failures reject a candidate expression before anything is constructed;
/// failures during execution mark the owning expression free without
/// aborting the audio block.
#[allow(inconsistent_fields)]
#[derive(Clone, Copy, Debug, PartialEq, Eq, Structural)]
pub enum ArtError {
    UndefinedUnit { type_id: u32 },
    IndexError,
    ExpressionNotFound { expression_id: u32 },
    UnitNotFound { expression_id: u32, unit_id: u32 },
    ParameterNotFound { expression_id: u32, unit_id: u32, parameter_id: u32 },
    ChannelMismatch { expected: u32, actual: u32 },
    RateMismatch { expected: Rate, actual: Rate },
    InvalidByteCode,
    StackOverflow,
    StackUnderflow,
    BufferOverflow,
    InvalidStack,
}

impl ArtError {
    /// A short human-readable name for the error.
    pub fn description(&self) -> &'static str {
        match self {
            ArtError::UndefinedUnit { .. } => "Undefined unit",
            ArtError::IndexError => "Index error",
            ArtError::ExpressionNotFound { .. } => "Expression not found",
            ArtError::UnitNotFound { .. } => "Unit not found",
            ArtError::ParameterNotFound { .. } => "Parameter not found",
            ArtError::ChannelMismatch { .. } => "Channel mismatch",
            ArtError::RateMismatch { .. } => "Rate mismatch",
            ArtError::InvalidByteCode => "Invalid byte code",
            ArtError::StackOverflow => "Stack overflow",
            ArtError::StackUnderflow => "Stack underflow",
            ArtError::BufferOverflow => "Buffer overflow",
            ArtError::InvalidStack => "Invalid stack",
        }
    }
}

} // verus!
