use vstd::prelude::*;

use crate::channel_stack::ChannelStack;
use crate::errors::ArtError;
use crate::types::{ArtResult, Rate, Sample};

verus! {

/// How a parameter's per-sample block is derived from its current and
/// previous values.
#[derive(Clone, Copy, Debug, PartialEq, Eq, Structural)]
pub enum ParameterMode {
    Normal,
    Trigger,
    Interpolate,
}

/// The static description of one declared parameter.
#[derive(Clone, Copy)]
pub struct ParameterDefinition {
    pub name: &'static str,
    pub default: Sample,
    pub rate: Rate,
    pub mode: ParameterMode,
}

/// One live parameter: its current value, the value it ended the previous
/// block with, and an optional bus redirect installed by a writer unit.
#[derive(Clone, Copy, Debug)]
pub struct Parameter {
    pub value: Sample,
    pub last_value: Sample,
    pub bus: Option<usize>,
    pub rate: Rate,
    pub mode: ParameterMode,
}

/// The value `i` samples into a linear ramp from `v0` to `v1` over `n`
/// samples.
pub open spec fn spec_interp(v0: int, v1: int, n: int, i: int) -> int
    recommends
        0 < n,
        0 <= i < n,
{
    if v1 >= v0 {
        v0 + (i * (v1 - v0)) / n
    } else {
        v0 - (i * (v0 - v1)) / n
    }
}

/// The block a parameter synthesizes when it is not redirected to a bus.
pub open spec fn spec_param_block(p: Parameter, block_size: int) -> Seq<Sample> {
    if p.rate is Control {
        seq![p.value]
    } else {
        match p.mode {
            ParameterMode::Normal => Seq::new(block_size as nat, |i: int| p.value),
            ParameterMode::Trigger => Seq::new(
                block_size as nat,
                |i: int|
                    if i == 0 {
                        p.value
                    } else {
                        0
                    },
            ),
            ParameterMode::Interpolate => Seq::new(
                block_size as nat,
                |i: int| spec_interp(p.last_value as int, p.value as int, block_size, i) as Sample,
            ),
        }
    }
}

/// The parameter's state after its block has been read, when it is not
/// redirected to a bus: a trigger fires once and resets, interpolation and
/// plain audio reads remember the block's final value.
pub open spec fn spec_param_after(p: Parameter) -> Parameter {
    if p.rate is Control {
        if p.mode is Trigger {
            Parameter { value: 0, ..p }
        } else {
            p
        }
    } else {
        match p.mode {
            ParameterMode::Normal => Parameter { last_value: p.value, ..p },
            ParameterMode::Trigger => Parameter { value: 0, last_value: 0, ..p },
            ParameterMode::Interpolate => Parameter { last_value: p.value, ..p },
        }
    }
}

/// The parameter a declaration creates: defaults loaded, no redirect.
pub open spec fn spec_new_parameter(d: ParameterDefinition) -> Parameter {
    Parameter { value: d.default, last_value: d.default, bus: None, rate: d.rate, mode: d.mode }
}

impl Parameter {
    /// A parameter fresh from its declaration, holding the default value
    /// and no bus redirect.
    pub fn new(definition: &ParameterDefinition) -> (r: Parameter)
        ensures
            r == spec_new_parameter(*definition),
    {
        Parameter {
            value: definition.default,
            last_value: definition.default,
            bus: None,
            rate: definition.rate,
            mode: definition.mode,
        }
    }

    /// How many samples this parameter stages per block.
    pub open spec fn spec_samples(&self, block_size: int) -> int {
        if self.rate is Audio {
            block_size
        } else {
            1
        }
    }

    /// Stage this parameter's block on top of `stack` and return the
    /// staged region's start offset.
    ///
    /// An audio-rate parameter redirected to a bus copies the bus region
    /// and remembers its final sample; otherwise the block is synthesized
    /// from `value` and `last_value` according to the mode: every sample
    /// the current value (`Normal`); the current value once, then zeros,
    /// with the value reset — a one-shot impulse (`Trigger`); or a linear
    /// ramp from the previous block's end to the current value
    /// (`Interpolate`).
    pub fn read(
        &mut self,
        stack: &mut ChannelStack,
        busses: &ChannelStack,
        block_size: usize,
    ) -> (r: ArtResult<usize>)
        requires
            old(stack).wf(),
            0 < block_size <= 0x10000,
        ensures
            final(stack).wf(),
            final(stack).view().len() == old(stack).view().len(),
            match r {
                Ok(index) => {
                    let samples = old(self).spec_samples(block_size as int);
                    &&& index == old(stack).pos()
                    &&& old(stack).pos() + samples <= old(stack).view().len()
                    &&& final(stack).pos() == old(stack).pos() + samples
                    &&& forall|j: int|
                        0 <= j < old(stack).view().len() && !(index <= j < index + samples)
                            ==> final(stack).view()[j] == old(stack).view()[j]
                    &&& if old(self).rate is Audio && old(self).bus is Some {
                        let bi = old(self).bus->0;
                        &&& bi + block_size <= busses.view().len()
                        &&& forall|j: int|
                            0 <= j < samples ==> #[trigger] final(stack).view()[index + j]
                                == busses.view()[bi + j]
                        &&& *final(self) == (Parameter {
                            last_value: busses.view()[bi + block_size - 1],
                            ..*old(self)
                        })
                    } else {
                        &&& forall|j: int|
                            0 <= j < samples ==> #[trigger] final(stack).view()[index + j]
                                == spec_param_block(*old(self), block_size as int)[j]
                        &&& *final(self) == spec_param_after(*old(self))
                    }
                },
                Err(e) => {
                    &&& *final(self) == *old(self)
                    &&& final(stack).view() == old(stack).view()
                    &&& final(stack).pos() == old(stack).pos()
                    &&& (e == ArtError::StackOverflow || e == ArtError::InvalidStack)
                    &&& e == ArtError::StackOverflow ==> old(stack).pos() + old(self).spec_samples(
                        block_size as int,
                    ) > old(stack).view().len()
                    &&& e == ArtError::InvalidStack ==> old(self).rate is Audio && old(
                        self,
                    ).bus is Some && old(self).bus->0 + block_size > busses.view().len()
                },
            },
    {
        if self.rate == Rate::Audio {
            if let Some(bi) = self.bus {
                let values = busses.read(bi, block_size)?;
                let index = stack.push(block_size)?;
                let wr = stack.write(index, &values);
                proof {
                    assert(wr is Ok);
                }
                self.last_value = values[block_size - 1];
                proof {
                    assert forall|j: int|
                        0 <= j < block_size implies #[trigger] stack.view()[index + j]
                        == busses.view()[bi + j] by {
                        assert(stack.view()[index + j] == values@[j]);
                        assert(values@[j] == busses.view().subrange(bi as int, bi + block_size)[j]);
                    }
                    assert(values@[block_size - 1] == busses.view().subrange(
                        bi as int,
                        bi + block_size,
                    )[block_size - 1]);
                }
                return Ok(index);
            }
        }
        let samples: usize = if self.rate == Rate::Audio {
            block_size
        } else {
            1
        };
        let mut values: Vec<Sample> = Vec::new();
        let mut new_value = self.value;
        let mut new_last = self.last_value;
        match self.mode {
            ParameterMode::Normal => {
                let mut i: usize = 0;
                while i < samples
                    invariant
                        i <= samples,
                        values@.len() == i,
                        forall|j: int| 0 <= j < i ==> values@[j] == self.value,
                    decreases samples - i,
                {
                    values.push(self.value);
                    i = i + 1;
                }
                if self.rate == Rate::Audio {
                    new_last = self.value;
                }
            },
            ParameterMode::Trigger => {
                values.push(self.value);
                let mut i: usize = 1;
                while i < samples
                    invariant
                        1 <= i,
                        samples > 0 ==> i <= samples,
                        values@.len() == i,
                        values@[0] == self.value,
                        forall|j: int| 1 <= j < i ==> values@[j] == 0,
                    decreases samples - i,
                {
                    values.push(0);
                    i = i + 1;
                }
                new_value = 0;
                if self.rate == Rate::Audio {
                    new_last = 0;
                }
            },
            ParameterMode::Interpolate => {
                if self.rate == Rate::Control {
                    values.push(self.value);
                } else {
                    let v0 = self.last_value;
                    let v1 = self.value;
                    let mut i: usize = 0;
                    while i < samples
                        invariant
                            i <= samples,
                            samples == block_size,
                            0 < block_size <= 0x10000,
                            values@.len() == i,
                            v0 == self.last_value,
                            v1 == self.value,
                            forall|j: int|
                                0 <= j < i ==> values@[j] == spec_interp(
                                    v0 as int,
                                    v1 as int,
                                    block_size as int,
                                    j,
                                ),
                        decreases samples - i,
                    {
                        let v = interp_sample(v0, v1, block_size, i);
                        values.push(v);
                        i = i + 1;
                    }
                    new_last = self.value;
                }
            },
        }
        proof {
            assert(values@.len() == samples);
        }
        let index = stack.push(samples)?;
        let wr = stack.write(index, &values);
        proof {
            assert(wr is Ok);
        }
        self.value = new_value;
        self.last_value = new_last;
        proof {
            assert(*self == spec_param_after(*old(self)));
            assert(samples == old(self).spec_samples(block_size as int));
            assert forall|j: int|
                0 <= j < samples implies #[trigger] stack.view()[index + j] == spec_param_block(
                *old(self),
                block_size as int,
            )[j] by {
                assert(stack.view()[index + j] == values@[j]);
            }
        }
        Ok(index)
    }
}

/// One sample of the linear ramp from `v0` to `v1` over `n` samples.
fn interp_sample(v0: Sample, v1: Sample, n: usize, i: usize) -> (r: Sample)
    requires
        0 < n <= 0x10000,
        i < n,
    ensures
        r == spec_interp(v0 as int, v1 as int, n as int, i as int),
{
    if v1 >= v0 {
        let d = (v1 as i64 - v0 as i64) as u64;
        proof {
            lemma_ramp_product_small(d as int, i as int);
        }
        let q = (i as u64 * d) / (n as u64);
        proof {
            lemma_ramp_step_bounded(d as int, n as int, i as int);
        }
        (v0 as i64 + q as i64) as Sample
    } else {
        let d = (v0 as i64 - v1 as i64) as u64;
        proof {
            lemma_ramp_product_small(d as int, i as int);
        }
        let q = (i as u64 * d) / (n as u64);
        proof {
            lemma_ramp_step_bounded(d as int, n as int, i as int);
        }
        (v0 as i64 - q as i64) as Sample
    }
}

/// The ramp numerator fits comfortably in a 64-bit word.
proof fn lemma_ramp_product_small(d: int, i: int)
    requires
        0 <= d < 0x1_0000_0000,
        0 <= i <= 0x10000,
    ensures
        i * d < 0x1_0000_0000_0000_0000,
{
    assert(i * d <= 0x10000 * d) by (nonlinear_arith)
        requires
            0 <= i <= 0x10000 && d >= 0,
    ;
}

/// A ramp never overshoots: each step of `i * d / n` stays within `d`.
proof fn lemma_ramp_step_bounded(d: int, n: int, i: int)
    requires
        0 <= d,
        0 < n,
        0 <= i < n,
    ensures
        0 <= (i * d) / n <= d,
{
    vstd::arithmetic::div_mod::lemma_div_pos_is_pos(i * d, n);
    assert(i * d >= 0) by (nonlinear_arith)
        requires
            i >= 0 && d >= 0,
    ;
    assert(i * d <= n * d) by (nonlinear_arith)
        requires
            i < n && d >= 0,
    ;
    vstd::arithmetic::div_mod::lemma_div_is_ordered(i * d, n * d, n);
    vstd::arithmetic::div_mod::lemma_div_by_multiple(d, n);
}

} // verus!
