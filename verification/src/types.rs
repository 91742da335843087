use vstd::prelude::*;

use crate::errors::ArtError;

verus! {

/// One sample word. The engine treats sample values as opaque fixed-width
/// integers: it moves, mixes and ramps them, while the numeric meaning of a
/// word belongs to the unit plug-ins that produce and consume it.
pub type Sample = i32;

/// Result type used throughout the virtual machine.
pub type ArtResult<T> = Result<T, ArtError>;

pub type ExpressionId = u32;

pub type UnitId = u32;

pub type ParameterId = u32;

pub type UnitTypeId = u32;

/// Signal granularity: one value per sample, or one value per block.
#[derive(Clone, Copy, Debug, PartialEq, Eq, Structural)]
pub enum Rate {
    Audio,
    Control,
}

/// One record of the abstract stack the expression validator simulates:
/// the channel count and rate of a value a program leaves on the stack.
#[derive(Clone, Copy, Debug, PartialEq, Eq, Structural)]
pub struct StackRecord {
    pub channels: u32,
    pub rate: Rate,
}

/// One bytecode message handed to the engine by the host.
pub struct ByteCode {
    pub data: Vec<u8>,
}

} // verus!
