use vstd::prelude::*;

use crate::errors::ArtError;
use crate::opcode::DspOpcode;
use crate::types::{ArtResult, StackRecord};
use crate::unit_factory::UnitFactory;
use crate::unit::UnitDefinition;

verus! {

/// What one instruction does to the abstract stack of
/// (channel count, rate) records, or the mismatch that rejects it.
pub open spec fn spec_validate_op(
    defs: Seq<UnitDefinition>,
    op: DspOpcode,
    stack: Seq<StackRecord>,
    max_depth: int,
) -> Result<Seq<StackRecord>, ArtError> {
    match op {
        DspOpcode::Unit { unit_id, type_id, input_channels, output_channels } => {
            if type_id >= defs.len() {
                Err(ArtError::UndefinedUnit { type_id })
            } else {
                let def = defs[type_id as int];
                let after_input: Result<Seq<StackRecord>, ArtError> = if def.input_rate is Some
                    && input_channels != 0 {
                    if stack.len() == 0 {
                        Err(ArtError::StackUnderflow)
                    } else {
                        let rec = stack.last();
                        if input_channels != rec.channels {
                            Err(
                                ArtError::ChannelMismatch {
                                    expected: input_channels,
                                    actual: rec.channels,
                                },
                            )
                        } else if def.input_rate->0 != rec.rate {
                            Err(
                                ArtError::RateMismatch {
                                    expected: def.input_rate->0,
                                    actual: rec.rate,
                                },
                            )
                        } else {
                            Ok(stack.drop_last())
                        }
                    }
                } else {
                    Ok(stack)
                };
                match after_input {
                    Err(e) => Err(e),
                    Ok(s1) => {
                        if def.output_rate is Some && output_channels != 0 {
                            if s1.len() >= max_depth {
                                Err(ArtError::StackOverflow)
                            } else {
                                Ok(
                                    s1.push(
                                        StackRecord {
                                            channels: output_channels,
                                            rate: def.output_rate->0,
                                        },
                                    ),
                                )
                            }
                        } else {
                            Ok(s1)
                        }
                    },
                }
            }
        },
        DspOpcode::Add { channels, rate } => spec_validate_operator(channels, rate, stack),
        DspOpcode::Multiply { channels, rate } => spec_validate_operator(channels, rate, stack),
    }
}

/// What a binary operator does to the abstract stack: both operands must
/// agree with it in channel count and rate.
pub open spec fn spec_validate_operator(
    channels: u32,
    rate: crate::types::Rate,
    stack: Seq<StackRecord>,
) -> Result<Seq<StackRecord>, ArtError> {
    if channels == 0 {
        Ok(stack)
    } else if stack.len() < 2 {
        Err(ArtError::StackUnderflow)
    } else {
        let a = stack.last();
        let b = stack[stack.len() - 2];
        if channels != a.channels {
            Err(ArtError::ChannelMismatch { expected: channels, actual: a.channels })
        } else if channels != b.channels {
            Err(ArtError::ChannelMismatch { expected: channels, actual: b.channels })
        } else if rate != a.rate {
            Err(ArtError::RateMismatch { expected: rate, actual: a.rate })
        } else if rate != b.rate {
            Err(ArtError::RateMismatch { expected: rate, actual: b.rate })
        } else {
            Ok(stack.drop_last().drop_last().push(StackRecord { channels, rate }))
        }
    }
}

/// The abstract stack after a whole program, or the first mismatch in it.
pub open spec fn spec_validate_program(
    defs: Seq<UnitDefinition>,
    ops: Seq<DspOpcode>,
    stack: Seq<StackRecord>,
    max_depth: int,
) -> Result<Seq<StackRecord>, ArtError>
    decreases ops.len(),
{
    if ops.len() == 0 {
        Ok(stack)
    } else {
        match spec_validate_op(defs, ops[0], stack, max_depth) {
            Ok(s) => spec_validate_program(defs, ops.skip(1), s, max_depth),
            Err(e) => Err(e),
        }
    }
}

/// How many unit instructions a program holds.
pub open spec fn spec_unit_count(ops: Seq<DspOpcode>) -> int
    decreases ops.len(),
{
    if ops.len() == 0 {
        0
    } else {
        spec_unit_count(ops.drop_last()) + if ops.last() is Unit {
            1int
        } else {
            0int
        }
    }
}

/// How many parameters the units of a program declare, together.
pub open spec fn spec_param_count(defs: Seq<UnitDefinition>, ops: Seq<DspOpcode>) -> int
    decreases ops.len(),
{
    if ops.len() == 0 {
        0
    } else {
        spec_param_count(defs, ops.drop_last()) + (match ops.last() {
            DspOpcode::Unit { type_id, .. } => {
                if type_id < defs.len() {
                    defs[type_id as int].num_params as int
                } else {
                    0
                }
            },
            _ => 0,
        })
    }
}

/// How many private-state arena slots the units of a program need: each
/// stateful unit takes its declared run plus the run's boundary marker.
pub open spec fn spec_data_count(defs: Seq<UnitDefinition>, ops: Seq<DspOpcode>) -> int
    decreases ops.len(),
{
    if ops.len() == 0 {
        0
    } else {
        spec_data_count(defs, ops.drop_last()) + (match ops.last() {
            DspOpcode::Unit { type_id, .. } => {
                if type_id < defs.len() && defs[type_id as int].data_size > 0 {
                    defs[type_id as int].data_size + 1
                } else {
                    0
                }
            },
            _ => 0,
        })
    }
}

/// Every prefix contributes no more than the whole program.
pub proof fn lemma_counts_take_le(defs: Seq<UnitDefinition>, ops: Seq<DspOpcode>, k: int)
    requires
        0 <= k <= ops.len(),
    ensures
        0 <= spec_unit_count(ops.take(k)) && spec_unit_count(ops.take(k)) <= spec_unit_count(ops),
        0 <= spec_param_count(defs, ops.take(k)) && spec_param_count(defs, ops.take(k))
            <= spec_param_count(defs, ops),
        0 <= spec_data_count(defs, ops.take(k)) && spec_data_count(defs, ops.take(k))
            <= spec_data_count(defs, ops),
    decreases ops.len(),
{
    if k == ops.len() {
        assert(ops.take(k) =~= ops);
        lemma_counts_plain_nonneg(defs, ops);
    } else {
        assert(ops.take(k) =~= ops.drop_last().take(k));
        lemma_counts_take_le(defs, ops.drop_last(), k);
    }
}

proof fn lemma_counts_plain_nonneg(defs: Seq<UnitDefinition>, ops: Seq<DspOpcode>)
    ensures
        0 <= spec_unit_count(ops),
        0 <= spec_param_count(defs, ops),
        0 <= spec_data_count(defs, ops),
    decreases ops.len(),
{
    if ops.len() > 0 {
        lemma_counts_plain_nonneg(defs, ops.drop_last());
    }
}

pub proof fn lemma_count_take_step(defs: Seq<UnitDefinition>, ops: Seq<DspOpcode>, k: int)
    requires
        0 <= k < ops.len(),
    ensures
        spec_unit_count(ops.take(k + 1)) == spec_unit_count(ops.take(k)) + if ops[k] is Unit {
            1int
        } else {
            0int
        },
        spec_param_count(defs, ops.take(k + 1)) == spec_param_count(defs, ops.take(k)) + (
        match ops[k] {
            DspOpcode::Unit { type_id, .. } => {
                if type_id < defs.len() {
                    defs[type_id as int].num_params as int
                } else {
                    0
                }
            },
            _ => 0,
        }),
        spec_data_count(defs, ops.take(k + 1)) == spec_data_count(defs, ops.take(k)) + (
        match ops[k] {
            DspOpcode::Unit { type_id, .. } => {
                if type_id < defs.len() && defs[type_id as int].data_size > 0 {
                    defs[type_id as int].data_size + 1
                } else {
                    0
                }
            },
            _ => 0,
        }),
{
    assert(ops.take(k + 1).drop_last() =~= ops.take(k));
    assert(ops.take(k + 1).last() == ops[k]);
}

/// The static admission gate: a program is simulated over an abstract
/// stack of channel-count/rate records before any of it is constructed.
pub struct ExpressionValidator;

impl ExpressionValidator {
    /// Simulate `ops` on the abstract stack, reporting the first
    /// inconsistency. `stack_record` is scratch space; it starts cleared.
    pub fn validate(
        ops: &Vec<DspOpcode>,
        factory: &UnitFactory,
        stack_record: &mut Vec<StackRecord>,
        max_stack_depth: usize,
    ) -> (r: ArtResult<()>)
        ensures
            match r {
                Ok(()) => spec_validate_program(
                    factory@,
                    ops@,
                    Seq::<StackRecord>::empty(),
                    max_stack_depth as int,
                ) is Ok,
                Err(e) => spec_validate_program(
                    factory@,
                    ops@,
                    Seq::<StackRecord>::empty(),
                    max_stack_depth as int,
                ) == Err::<Seq<StackRecord>, ArtError>(e),
            },
    {
        stack_record.clear();
        proof {
            assert(ops@.skip(0) =~= ops@);
        }
        let n = ops.len();
        let mut k: usize = 0;
        while k < n
            invariant
                n == ops@.len(),
                k <= n,
                spec_validate_program(
                    factory@,
                    ops@,
                    Seq::<StackRecord>::empty(),
                    max_stack_depth as int,
                ) == spec_validate_program(
                    factory@,
                    ops@.skip(k as int),
                    stack_record@,
                    max_stack_depth as int,
                ),
            decreases n - k,
        {
            let ghost pre_stack = stack_record@;
            let step = Self::validate_op(ops[k], factory, stack_record, max_stack_depth);
            proof {
                assert(ops@.skip(k as int)[0] == ops@[k as int]);
                assert(ops@.skip(k as int).skip(1) =~= ops@.skip(k as int + 1));
            }
            match step {
                Ok(()) => {},
                Err(e) => {
                    return Err(e);
                },
            }
            k = k + 1;
        }
        proof {
            assert(ops@.skip(n as int) =~= Seq::<DspOpcode>::empty());
        }
        Ok(())
    }

    /// Apply one instruction to the abstract stack.
    fn validate_op(
        op: DspOpcode,
        factory: &UnitFactory,
        stack_record: &mut Vec<StackRecord>,
        max_stack_depth: usize,
    ) -> (r: ArtResult<()>)
        ensures
            match r {
                Ok(()) => spec_validate_op(
                    factory@,
                    op,
                    old(stack_record)@,
                    max_stack_depth as int,
                ) == Ok::<Seq<StackRecord>, ArtError>(final(stack_record)@),
                Err(e) => spec_validate_op(
                    factory@,
                    op,
                    old(stack_record)@,
                    max_stack_depth as int,
                ) == Err::<Seq<StackRecord>, ArtError>(e),
            },
    {
        match op {
            DspOpcode::Unit { unit_id: _, type_id, input_channels, output_channels } => {
                let definition = match factory.get_definition(type_id) {
                    Some(d) => d,
                    None => {
                        return Err(ArtError::UndefinedUnit { type_id });
                    },
                };
                if let Some(input_rate) = definition.input_rate {
                    if input_channels != 0 {
                        if stack_record.len() == 0 {
                            return Err(ArtError::StackUnderflow);
                        }
                        let rec = stack_record[stack_record.len() - 1];
                        if input_channels != rec.channels {
                            return Err(
                                ArtError::ChannelMismatch {
                                    expected: input_channels,
                                    actual: rec.channels,
                                },
                            );
                        }
                        if input_rate != rec.rate {
                            return Err(
                                ArtError::RateMismatch { expected: input_rate, actual: rec.rate },
                            );
                        }
                        let popped = stack_record.pop();
                        proof {
                            assert(popped is Some);
                        }
                    }
                }
                if let Some(output_rate) = definition.output_rate {
                    if output_channels != 0 {
                        if stack_record.len() >= max_stack_depth {
                            return Err(ArtError::StackOverflow);
                        }
                        stack_record.push(
                            StackRecord { channels: output_channels, rate: output_rate },
                        );
                    }
                }
                Ok(())
            },
            DspOpcode::Add { channels, rate } => {
                Self::validate_operator(channels, rate, stack_record)
            },
            DspOpcode::Multiply { channels, rate } => {
                Self::validate_operator(channels, rate, stack_record)
            },
        }
    }

    /// Apply one binary operator to the abstract stack.
    fn validate_operator(
        channels: u32,
        rate: crate::types::Rate,
        stack_record: &mut Vec<StackRecord>,
    ) -> (r: ArtResult<()>)
        ensures
            match r {
                Ok(()) => spec_validate_operator(channels, rate, old(stack_record)@) == Ok::<
                    Seq<StackRecord>,
                    ArtError,
                >(final(stack_record)@),
                Err(e) => spec_validate_operator(channels, rate, old(stack_record)@) == Err::<
                    Seq<StackRecord>,
                    ArtError,
                >(e),
            },
    {
        if channels == 0 {
            return Ok(());
        }
        if stack_record.len() < 2 {
            return Err(ArtError::StackUnderflow);
        }
        let a = stack_record[stack_record.len() - 1];
        let b = stack_record[stack_record.len() - 2];
        if channels != a.channels {
            return Err(ArtError::ChannelMismatch { expected: channels, actual: a.channels });
        }
        if channels != b.channels {
            return Err(ArtError::ChannelMismatch { expected: channels, actual: b.channels });
        }
        if rate != a.rate {
            return Err(ArtError::RateMismatch { expected: rate, actual: a.rate });
        }
        if rate != b.rate {
            return Err(ArtError::RateMismatch { expected: rate, actual: b.rate });
        }
        let p1 = stack_record.pop();
        let p2 = stack_record.pop();
        proof {
            assert(p1 is Some);
            assert(p2 is Some);
        }
        stack_record.push(StackRecord { channels, rate });
        proof {
            assert(final(stack_record)@ =~= old(stack_record)@.drop_last().drop_last().push(
                StackRecord { channels, rate },
            ));
        }
        Ok(())
    }

    /// How many unit instructions `ops` holds.
    pub fn unit_count(ops: &Vec<DspOpcode>) -> (r: u64)
        requires
            ops@.len() <= 0xFFFF_FFFF,
        ensures
            r == spec_unit_count(ops@),
    {
        let n = ops.len();
        let mut count: u64 = 0;
        let mut k: usize = 0;
        while k < n
            invariant
                n == ops@.len(),
                n <= 0xFFFF_FFFF,
                k <= n,
                count == spec_unit_count(ops@.take(k as int)),
                count <= k,
            decreases n - k,
        {
            proof {
                lemma_count_take_step(Seq::<UnitDefinition>::empty(), ops@, k as int);
            }
            if let DspOpcode::Unit { .. } = ops[k] {
                count = count + 1;
            }
            k = k + 1;
        }
        proof {
            assert(ops@.take(n as int) =~= ops@);
        }
        count
    }

    /// How many parameters the units of `ops` declare, together.
    pub fn param_count(ops: &Vec<DspOpcode>, factory: &UnitFactory) -> (r: u64)
        requires
            ops@.len() <= 0xFFFF_FFFF,
            factory.wf(),
        ensures
            r == spec_param_count(factory@, ops@),
    {
        let n = ops.len();
        let mut count: u64 = 0;
        let mut k: usize = 0;
        while k < n
            invariant
                n == ops@.len(),
                n <= 0xFFFF_FFFF,
                k <= n,
                factory.wf(),
                count == spec_param_count(factory@, ops@.take(k as int)),
                count <= 4 * k,
            decreases n - k,
        {
            proof {
                lemma_count_take_step(factory@, ops@, k as int);
            }
            if let DspOpcode::Unit { type_id, .. } = ops[k] {
                if let Some(definition) = factory.get_definition(type_id) {
                    proof {
                        assert(definition.wf());
                    }
                    count = count + definition.num_params as u64;
                }
            }
            k = k + 1;
        }
        proof {
            assert(ops@.take(n as int) =~= ops@);
        }
        count
    }

    /// How many private-state arena slots the units of `ops` need.
    pub fn data_count(ops: &Vec<DspOpcode>, factory: &UnitFactory) -> (r: u64)
        requires
            ops@.len() <= 0xFFFF_FFFF,
            factory.wf(),
        ensures
            r == spec_data_count(factory@, ops@),
    {
        let n = ops.len();
        let mut count: u64 = 0;
        let mut k: usize = 0;
        while k < n
            invariant
                n == ops@.len(),
                n <= 0xFFFF_FFFF,
                k <= n,
                factory.wf(),
                count == spec_data_count(factory@, ops@.take(k as int)),
                count <= 0x1001 * k,
            decreases n - k,
        {
            proof {
                lemma_count_take_step(factory@, ops@, k as int);
            }
            if let DspOpcode::Unit { type_id, .. } = ops[k] {
                if let Some(definition) = factory.get_definition(type_id) {
                    proof {
                        assert(definition.wf());
                    }
                    if definition.data_size > 0 {
                        count = count + definition.data_size as u64 + 1;
                    }
                }
            }
            k = k + 1;
        }
        proof {
            assert(ops@.take(n as int) =~= ops@);
        }
        count
    }
}

/// A program whose consumer declares a different channel count or rate
/// than its producer is rejected with exactly that mismatch.
///
/// For a producer `a` (a unit taking no input and leaving one record)
/// followed by a consumer `b` whose declared input differs, validation
/// fails with the channel mismatch, or — when the channel counts agree —
/// with the rate mismatch; it never admits the program.
pub proof fn lemma_mismatch_rejected(
    defs: Seq<UnitDefinition>,
    a: DspOpcode,
    b: DspOpcode,
    max_depth: int,
)
    requires
        max_depth >= 1,
        a matches DspOpcode::Unit { type_id, input_channels, output_channels, .. }
            && type_id < defs.len() && output_channels != 0
            && defs[type_id as int].output_rate is Some && (defs[type_id as int].input_rate is None
            || input_channels == 0),
        b matches DspOpcode::Unit { type_id, input_channels, .. } && type_id < defs.len()
            && input_channels != 0 && defs[type_id as int].input_rate is Some,
        b->Unit_input_channels != a->Unit_output_channels || defs[b->Unit_type_id as int].input_rate->0
            != defs[a->Unit_type_id as int].output_rate->0,
    ensures
        spec_validate_program(defs, seq![a, b], Seq::<StackRecord>::empty(), max_depth) == (
        if b->Unit_input_channels != a->Unit_output_channels {
            Err::<Seq<StackRecord>, ArtError>(
                ArtError::ChannelMismatch {
                    expected: b->Unit_input_channels,
                    actual: a->Unit_output_channels,
                },
            )
        } else {
            Err::<Seq<StackRecord>, ArtError>(
                ArtError::RateMismatch {
                    expected: defs[b->Unit_type_id as int].input_rate->0,
                    actual: defs[a->Unit_type_id as int].output_rate->0,
                },
            )
        }),
{
    let ops = seq![a, b];
    let empty = Seq::<StackRecord>::empty();
    let after_a = spec_validate_op(defs, a, empty, max_depth);
    let produced = StackRecord {
        channels: a->Unit_output_channels,
        rate: defs[a->Unit_type_id as int].output_rate->0,
    };
    assert(after_a == Ok::<Seq<StackRecord>, ArtError>(empty.push(produced)));
    let s1 = empty.push(produced);
    assert(s1.last() == produced);
    assert(ops[0] == a);
    assert(ops.skip(1) =~= seq![b]);
    assert(seq![b][0] == b);
    assert(seq![b].skip(1) =~= Seq::<DspOpcode>::empty());
    let expected: Result<Seq<StackRecord>, ArtError> = if b->Unit_input_channels
        != a->Unit_output_channels {
        Err(
            ArtError::ChannelMismatch {
                expected: b->Unit_input_channels,
                actual: a->Unit_output_channels,
            },
        )
    } else {
        Err(
            ArtError::RateMismatch {
                expected: defs[b->Unit_type_id as int].input_rate->0,
                actual: defs[a->Unit_type_id as int].output_rate->0,
            },
        )
    };
    assert(spec_validate_op(defs, b, s1, max_depth) == expected);
    assert(spec_validate_program(defs, seq![b], s1, max_depth) == expected);
    assert(spec_validate_program(defs, ops, empty, max_depth) == spec_validate_program(
        defs,
        ops.skip(1),
        s1,
        max_depth,
    ));
    assert(spec_validate_program(defs, ops, empty, max_depth) == expected);
}

} // verus!
