use vstd::prelude::*;

use crate::channel_stack::ChannelStack;
use crate::errors::ArtError;
use crate::types::{ArtResult, Rate, Sample};

verus! {

/// How many samples one stack record of `channels` channels at `rate`
/// occupies per block.
pub open spec fn spec_operand_samples(channels: u32, rate: Rate, block_size: int) -> int {
    if rate is Audio {
        channels * block_size
    } else {
        channels as int
    }
}

/// The operand size in a 64-bit word, which cannot overflow.
fn operand_samples64(channels: u32, rate: Rate, block_size: usize) -> (r: u64)
    requires
        block_size <= 0x10000,
    ensures
        r == spec_operand_samples(channels, rate, block_size as int),
        r <= 0x1_0000_0000_0000,
{
    if rate == Rate::Audio {
        proof {
            assert(channels * block_size <= 0xFFFF_FFFFu32 * 0x10000int) by (nonlinear_arith)
                requires
                    channels <= 0xFFFF_FFFFu32 && block_size <= 0x10000,
            ;
        }
        channels as u64 * block_size as u64
    } else {
        channels as u64
    }
}

/// Pop the two operand blocks off the stack, combine them sample by
/// sample with wrapping addition, and push the mix.
///
/// Fails with `StackUnderflow`, touching nothing, exactly when fewer than
/// two operand blocks are reserved.
pub fn add(stack: &mut ChannelStack, channels: u32, rate: Rate, block_size: usize) -> (r: ArtResult<
    (),
>)
    requires
        old(stack).wf(),
        block_size <= 0x10000,
    ensures
        final(stack).wf(),
        final(stack).view().len() == old(stack).view().len(),
        ({
            let samples = spec_operand_samples(channels, rate, block_size as int);
            match r {
                Ok(()) => {
                    &&& 2 * samples <= old(stack).pos()
                    &&& final(stack).pos() == old(stack).pos() - samples
                    &&& forall|j: int|
                        0 <= j < samples ==> #[trigger] final(stack).view()[old(stack).pos() - 2
                            * samples + j] == old(stack).view()[old(stack).pos() - 2 * samples
                            + j].wrapping_add(old(stack).view()[old(stack).pos() - samples + j])
                    &&& forall|j: int|
                        0 <= j < old(stack).view().len() && !(old(stack).pos() - 2 * samples <= j
                            < old(stack).pos() - samples) ==> final(stack).view()[j] == old(
                            stack,
                        ).view()[j]
                },
                Err(e) => {
                    &&& e == ArtError::StackUnderflow
                    &&& 2 * samples > old(stack).pos()
                    &&& final(stack).view() == old(stack).view()
                    &&& final(stack).pos() == old(stack).pos()
                },
            }
        }),
{
    binary_op(stack, channels, rate, block_size, true)
}

/// Pop the two operand blocks off the stack, combine them sample by
/// sample with wrapping multiplication, and push the product.
///
/// Fails with `StackUnderflow`, touching nothing, exactly when fewer than
/// two operand blocks are reserved.
pub fn multiply(
    stack: &mut ChannelStack,
    channels: u32,
    rate: Rate,
    block_size: usize,
) -> (r: ArtResult<()>)
    requires
        old(stack).wf(),
        block_size <= 0x10000,
    ensures
        final(stack).wf(),
        final(stack).view().len() == old(stack).view().len(),
        ({
            let samples = spec_operand_samples(channels, rate, block_size as int);
            match r {
                Ok(()) => {
                    &&& 2 * samples <= old(stack).pos()
                    &&& final(stack).pos() == old(stack).pos() - samples
                    &&& forall|j: int|
                        0 <= j < samples ==> #[trigger] final(stack).view()[old(stack).pos() - 2
                            * samples + j] == old(stack).view()[old(stack).pos() - 2 * samples
                            + j].wrapping_mul(old(stack).view()[old(stack).pos() - samples + j])
                    &&& forall|j: int|
                        0 <= j < old(stack).view().len() && !(old(stack).pos() - 2 * samples <= j
                            < old(stack).pos() - samples) ==> final(stack).view()[j] == old(
                            stack,
                        ).view()[j]
                },
                Err(e) => {
                    &&& e == ArtError::StackUnderflow
                    &&& 2 * samples > old(stack).pos()
                    &&& final(stack).view() == old(stack).view()
                    &&& final(stack).pos() == old(stack).pos()
                },
            }
        }),
{
    binary_op(stack, channels, rate, block_size, false)
}

/// The shared body of the two stack operators.
fn binary_op(
    stack: &mut ChannelStack,
    channels: u32,
    rate: Rate,
    block_size: usize,
    is_add: bool,
) -> (r: ArtResult<()>)
    requires
        old(stack).wf(),
        block_size <= 0x10000,
    ensures
        final(stack).wf(),
        final(stack).view().len() == old(stack).view().len(),
        ({
            let samples = spec_operand_samples(channels, rate, block_size as int);
            match r {
                Ok(()) => {
                    &&& 2 * samples <= old(stack).pos()
                    &&& final(stack).pos() == old(stack).pos() - samples
                    &&& forall|j: int|
                        0 <= j < samples ==> #[trigger] final(stack).view()[old(stack).pos() - 2
                            * samples + j] == (if is_add {
                            old(stack).view()[old(stack).pos() - 2 * samples + j].wrapping_add(
                                old(stack).view()[old(stack).pos() - samples + j],
                            )
                        } else {
                            old(stack).view()[old(stack).pos() - 2 * samples + j].wrapping_mul(
                                old(stack).view()[old(stack).pos() - samples + j],
                            )
                        })
                    &&& forall|j: int|
                        0 <= j < old(stack).view().len() && !(old(stack).pos() - 2 * samples <= j
                            < old(stack).pos() - samples) ==> final(stack).view()[j] == old(
                            stack,
                        ).view()[j]
                },
                Err(e) => {
                    &&& e == ArtError::StackUnderflow
                    &&& 2 * samples > old(stack).pos()
                    &&& final(stack).view() == old(stack).view()
                    &&& final(stack).pos() == old(stack).pos()
                },
            }
        }),
{
    let s64 = operand_samples64(channels, rate, block_size);
    let position = stack.position();
    if s64 > position as u64 || s64 > position as u64 - s64 {
        return Err(ArtError::StackUnderflow);
    }
    let samples = s64 as usize;
    let rb = stack.pop(samples);
    proof {
        assert(rb is Ok);
    }
    let index_b = match rb {
        Ok(i) => i,
        Err(_) => {
            return Err(ArtError::StackUnderflow);
        },
    };
    let ra = stack.pop(samples);
    proof {
        assert(ra is Ok);
    }
    let index_a = match ra {
        Ok(i) => i,
        Err(_) => {
            return Err(ArtError::StackUnderflow);
        },
    };
    let rp = stack.push(samples);
    proof {
        assert(rp is Ok);
    }
    let va = stack.read(index_a, samples);
    let vb = stack.read(index_b, samples);
    let (va, vb) = match (va, vb) {
        (Ok(a), Ok(b)) => (a, b),
        _ => {
            proof {
                assert(false);
            }
            return Err(ArtError::StackUnderflow);
        },
    };
    let mut out: Vec<Sample> = Vec::new();
    let mut i: usize = 0;
    while i < samples
        invariant
            i <= samples,
            va@.len() == samples,
            vb@.len() == samples,
            out@.len() == i,
            forall|j: int|
                0 <= j < i ==> out@[j] == (if is_add {
                    va@[j].wrapping_add(vb@[j])
                } else {
                    va@[j].wrapping_mul(vb@[j])
                }),
        decreases samples - i,
    {
        let v = if is_add {
            va[i].wrapping_add(vb[i])
        } else {
            va[i].wrapping_mul(vb[i])
        };
        out.push(v);
        i = i + 1;
    }
    let wr = stack.write(index_a, &out);
    proof {
        assert(wr is Ok);
        assert(out@.len() == samples);
        assert(index_a == old(stack).pos() - 2 * samples);
        assert(index_b == old(stack).pos() - samples);
        assert(stack.pos() == old(stack).pos() - samples);
        assert forall|j: int|
            0 <= j < samples implies #[trigger] stack.view()[old(stack).pos() - 2 * samples + j]
            == (if is_add {
            old(stack).view()[old(stack).pos() - 2 * samples + j].wrapping_add(
                old(stack).view()[old(stack).pos() - samples + j],
            )
        } else {
            old(stack).view()[old(stack).pos() - 2 * samples + j].wrapping_mul(
                old(stack).view()[old(stack).pos() - samples + j],
            )
        }) by {
            assert(stack.view()[index_a + j] == out@[j]);
            assert(va@[j] == old(stack).view()[index_a + j]);
            assert(vb@[j] == old(stack).view()[index_b + j]);
        }
    }
    Ok(())
}

} // verus!
