use vstd::prelude::*;

use crate::types::{Rate, Sample};

verus! {

/// The commands a host sends to the virtual machine.
#[derive(Clone, Copy, Debug, PartialEq, Eq, Structural)]
pub enum ControlOpcode {
    SetParameter { expression_id: u32, unit_id: u32, parameter_id: u32, value: Sample },
    AddExpression { expression_id: u32, num_opcodes: u32 },
    RemoveExpression { expression_id: u32 },
    AddEdge { from: u32, to: u32 },
}

/// The instructions that make up one expression's program.
#[derive(Clone, Copy, Debug, PartialEq, Eq, Structural)]
pub enum DspOpcode {
    Unit { unit_id: u32, type_id: u32, input_channels: u32, output_channels: u32 },
    Add { channels: u32, rate: Rate },
    Multiply { channels: u32, rate: Rate },
}

} // verus!
