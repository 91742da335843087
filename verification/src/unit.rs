use vstd::prelude::*;

use crate::parameter::ParameterDefinition;
use crate::types::Rate;

verus! {

/// Where a unit sits in the signal flow.
#[derive(Clone, Copy, Debug, PartialEq, Eq, Structural)]
pub enum UnitKind {
    Source,
    Processor,
    Sink,
}

/// How many channels a unit consumes and produces.
#[derive(Clone, Copy, Debug, PartialEq, Eq, Structural)]
pub struct ChannelLayout {
    pub input: u32,
    pub output: u32,
}

/// What a unit type does when it runs.
///
/// The engine implements the routing and rate plumbing itself; the numeric
/// signal kernels (oscillators, envelopes) are external plug-ins reached
/// through [`UnitBackend`].
#[derive(Clone, Copy, Debug, PartialEq, Eq, Structural)]
pub enum UnitBehavior {
    /// Copy a bus, chosen by the first parameter, into the output block.
    BusIn,
    /// Mix the input block into a bus chosen by the first parameter.
    BusOut,
    /// Emit the first parameter's staged block as the output.
    ParameterSource,
    /// Store the input block into the parameter addressed by the three
    /// staged parameters.
    ParameterWriter,
    /// Repeat one control-rate frame across a whole audio-rate block.
    KrToAr,
    /// Defer to the registered plug-in backend.
    External,
}

/// The greatest number of parameters a unit type may declare.
pub const MAX_UNIT_PARAMETERS: usize = 4;

/// The greatest private-state run a unit type may declare.
pub const MAX_UNIT_DATA: usize = 0x1000;

/// The static description of one registered unit type.
#[derive(Clone, Copy)]
pub struct UnitDefinition {
    pub name: &'static str,
    pub kind: UnitKind,
    pub input_rate: Option<Rate>,
    pub output_rate: Option<Rate>,
    pub default_layout: ChannelLayout,
    pub params: [ParameterDefinition; 4],
    pub num_params: usize,
    pub behavior: UnitBehavior,
    pub data_size: usize,
}

impl UnitDefinition {
    /// Only the first `num_params` parameter slots are meaningful, and
    /// the private-state run is of bounded size.
    pub open spec fn wf(&self) -> bool {
        self.num_params <= MAX_UNIT_PARAMETERS && self.data_size <= MAX_UNIT_DATA
    }
}

/// One live unit instance inside an expression.
#[derive(Clone, Copy, Debug)]
pub struct Unit {
    pub eid: u32,
    pub uid: u32,
    pub type_id: u32,
    pub layout: ChannelLayout,
    pub data_index: Option<usize>,
}

/// The plug-in boundary for the unit types whose signal math lives outside
/// the engine (oscillators, envelopes, and whatever a host registers).
///
/// The engine hands the kernel its private state run, the staged parameter
/// blocks and the input samples, and writes the returned block into the
/// unit's output region itself — a kernel can touch nothing else. Nothing
/// is assumed about the returned samples; a block of the wrong length is
/// treated as a unit failure and frees the owning expression.
pub trait UnitBackend {
    /// Produce one output block of `out_len` samples.
    fn tick(
        &mut self,
        type_id: u32,
        state: &mut Vec<i32>,
        inputs: &Vec<i32>,
        params: &Vec<Vec<i32>>,
        block_size: usize,
        out_len: usize,
    ) -> Vec<i32>;
}

/// The backend used when no plug-ins are registered: every external unit
/// produces silence.
pub struct NullBackend;

impl UnitBackend for NullBackend {
    fn tick(
        &mut self,
        _type_id: u32,
        _state: &mut Vec<i32>,
        _inputs: &Vec<i32>,
        _params: &Vec<Vec<i32>>,
        _block_size: usize,
        out_len: usize,
    ) -> Vec<i32> {
        let mut out: Vec<i32> = Vec::new();
        let mut i: usize = 0;
        while i < out_len
            invariant
                i <= out_len,
                out@.len() == i,
            decreases out_len - i,
        {
            out.push(0);
            i = i + 1;
        }
        out
    }
}

} // verus!
