use art::errors::ArtError;
use art::opcode::DspOpcode;
use art::types::{Rate, StackRecord};
use art::unit_factory::UnitFactory;
use art::validator::ExpressionValidator;

// Built-in type ids, in registration order.
const SINE_AR: u32 = 0;
const BUS_OUT_AR: u32 = 6;
const BUS_OUT_KR: u32 = 7;
const KR_TO_AR: u32 = 14;

fn unit_op(unit_id: u32, type_id: u32, input_channels: u32, output_channels: u32) -> DspOpcode {
    DspOpcode::Unit { unit_id, type_id, input_channels, output_channels }
}

fn validate(ops: Vec<DspOpcode>) -> Result<(), ArtError> {
    let factory = UnitFactory::new();
    let mut scratch: Vec<StackRecord> = Vec::new();
    ExpressionValidator::validate(&ops, &factory, &mut scratch, 32)
}

#[test]
fn validator_admits_a_consistent_program() {
    assert_eq!(validate(vec![unit_op(0, SINE_AR, 0, 1), unit_op(1, BUS_OUT_AR, 1, 0)]), Ok(()));
}

#[test]
fn validator_rejects_channel_mismatch_with_that_mismatch() {
    // The producer leaves one channel; the consumer declares two.
    assert_eq!(
        validate(vec![unit_op(0, SINE_AR, 0, 1), unit_op(1, BUS_OUT_AR, 2, 0)]),
        Err(ArtError::ChannelMismatch { expected: 2, actual: 1 })
    );
}

#[test]
fn validator_rejects_rate_mismatch_with_that_mismatch() {
    // The producer is audio rate; the consumer expects control rate.
    assert_eq!(
        validate(vec![unit_op(0, SINE_AR, 0, 1), unit_op(1, BUS_OUT_KR, 1, 0)]),
        Err(ArtError::RateMismatch { expected: Rate::Control, actual: Rate::Audio })
    );
}

#[test]
fn validator_rejects_unknown_unit_type() {
    assert_eq!(validate(vec![unit_op(0, 99, 0, 1)]), Err(ArtError::UndefinedUnit { type_id: 99 }));
}

#[test]
fn validator_rejects_consuming_an_empty_stack() {
    assert_eq!(validate(vec![unit_op(0, BUS_OUT_AR, 1, 0)]), Err(ArtError::StackUnderflow));
}

#[test]
fn validator_rejects_operator_on_short_stack() {
    assert_eq!(
        validate(vec![
            unit_op(0, SINE_AR, 0, 1),
            DspOpcode::Add { channels: 1, rate: Rate::Audio },
        ]),
        Err(ArtError::StackUnderflow)
    );
}

#[test]
fn validator_admits_operator_on_two_matching_operands() {
    assert_eq!(
        validate(vec![
            unit_op(0, SINE_AR, 0, 1),
            unit_op(1, SINE_AR, 0, 1),
            DspOpcode::Multiply { channels: 1, rate: Rate::Audio },
            unit_op(2, BUS_OUT_AR, 1, 0),
        ]),
        Ok(())
    );
}

#[test]
fn validator_rejects_operator_rate_mismatch() {
    assert_eq!(
        validate(vec![
            unit_op(0, SINE_AR, 0, 1),
            unit_op(1, SINE_AR, 0, 1),
            DspOpcode::Add { channels: 1, rate: Rate::Control },
        ]),
        Err(ArtError::RateMismatch { expected: Rate::Control, actual: Rate::Audio })
    );
}

#[test]
fn validator_follows_rate_conversion() {
    // sine_kr -> kr_to_ar -> bus_out_ar is consistent.
    assert_eq!(
        validate(vec![
            unit_op(0, 1, 0, 1),
            unit_op(1, KR_TO_AR, 1, 1),
            unit_op(2, BUS_OUT_AR, 1, 0),
        ]),
        Ok(())
    );
}
