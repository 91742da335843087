use vstd::prelude::*;

use crate::options::Options;

verus! {

/// The per-stream figures every unit sees each block.
#[derive(Clone, Copy, Debug, PartialEq, Eq, Structural)]
pub struct Constants {
    pub input_channels: u32,
    pub output_channels: u32,
    pub block_size: usize,
    pub sample_rate: u32,
}

impl Constants {
    /// The block size is positive and bounded, so sample counts fit.
    pub open spec fn wf(&self) -> bool {
        0 < self.block_size <= 0x10000
    }

    /// The figures a configuration implies.
    pub fn from_options(options: &Options) -> (r: Constants)
        requires
            options.wf(),
        ensures
            r.wf(),
            r.input_channels == options.input_channels,
            r.output_channels == options.output_channels,
            r.block_size == options.block_size,
            r.sample_rate == options.sample_rate,
    {
        Constants {
            input_channels: options.input_channels,
            output_channels: options.output_channels,
            block_size: options.block_size as usize,
            sample_rate: options.sample_rate,
        }
    }
}

} // verus!
