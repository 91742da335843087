use vstd::prelude::*;

verus! {

/// Which audio device the host asks for.
#[derive(Clone, Copy, Debug, PartialEq, Eq, Structural)]
pub enum DeviceId {
    Id(u32),
    Default,
}

impl DeviceId {
    /// A concrete device when an id is given, the default one otherwise.
    pub fn from_option(id: Option<u32>) -> (r: DeviceId)
        ensures
            r == (match id {
                Some(i) => DeviceId::Id(i),
                None => DeviceId::Default,
            }),
    {
        match id {
            Some(i) => DeviceId::Id(i),
            None => DeviceId::Default,
        }
    }
}

/// Everything configurable about a virtual machine, fixed at
/// construction: stream shape and the capacity of every store.
#[derive(Clone, Copy, Debug)]
pub struct Options {
    pub input_device: DeviceId,
    pub output_device: DeviceId,
    pub input_channels: u32,
    pub output_channels: u32,
    pub block_size: u32,
    pub sample_rate: u32,
    pub max_stack_depth: u32,
    pub max_bus_depth: u32,
    pub stack_size: usize,
    pub bus_stack_size: usize,
    pub max_opcodes: u32,
    pub max_expressions: u32,
    pub max_units: u32,
    pub max_parameters: u32,
    pub max_edges: u32,
}

impl Options {
    /// The block size is positive and small enough that per-block sample
    /// counts cannot overflow machine arithmetic.
    pub open spec fn wf(&self) -> bool {
        0 < self.block_size <= 0x10000
    }
}

impl Default for Options {
    /// A stereo stream of 64-sample blocks at 44.1 kHz with modest store
    /// capacities.
    fn default() -> (r: Options)
        ensures
            r.wf(),
            r == (Options {
                input_device: DeviceId::Default,
                output_device: DeviceId::Default,
                input_channels: 2,
                output_channels: 2,
                block_size: 64,
                sample_rate: 44100,
                max_stack_depth: 32,
                max_bus_depth: 32,
                stack_size: 2048,
                bus_stack_size: 2048,
                max_opcodes: 1024,
                max_expressions: 32,
                max_units: 128,
                max_parameters: 256,
                max_edges: 32,
            }),
    {
        Options {
            input_device: DeviceId::Default,
            output_device: DeviceId::Default,
            input_channels: 2,
            output_channels: 2,
            block_size: 64,
            sample_rate: 44100,
            max_stack_depth: 32,
            max_bus_depth: 32,
            stack_size: 2048,
            bus_stack_size: 2048,
            max_opcodes: 1024,
            max_expressions: 32,
            max_units: 128,
            max_parameters: 256,
            max_edges: 32,
        }
    }
}

} // verus!
