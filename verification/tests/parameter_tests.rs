use art::channel_stack::ChannelStack;
use art::parameter::{Parameter, ParameterDefinition, ParameterMode};
use art::types::Rate;

fn audio_parameter(mode: ParameterMode, value: i32, last_value: i32) -> Parameter {
    let mut p = Parameter::new(&ParameterDefinition {
        name: "p",
        default: 0,
        rate: Rate::Audio,
        mode,
    });
    p.value = value;
    p.last_value = last_value;
    p
}

#[test]
fn interpolate_produces_a_linear_ramp_and_updates_last_value() {
    let block_size = 64usize;
    let mut stack = ChannelStack::new(256);
    let busses = ChannelStack::new(16);
    let mut p = audio_parameter(ParameterMode::Interpolate, 64, 0);
    let index = p.read(&mut stack, &busses, block_size).unwrap();
    let block = stack.read(index, block_size).unwrap();
    for i in 0..block_size {
        // value = v0 + i * (v1 - v0) / n
        assert_eq!(block[i], (i as i64 * 64 / 64) as i32);
    }
    assert_eq!(p.last_value, 64);
    assert_eq!(p.value, 64);
}

#[test]
fn interpolate_ramps_downwards_too() {
    let block_size = 8usize;
    let mut stack = ChannelStack::new(64);
    let busses = ChannelStack::new(16);
    let mut p = audio_parameter(ParameterMode::Interpolate, -16, 16);
    let index = p.read(&mut stack, &busses, block_size).unwrap();
    let block = stack.read(index, block_size).unwrap();
    for i in 0..block_size {
        assert_eq!(block[i] as i64, 16 - (i as i64 * 32) / 8);
    }
    assert_eq!(p.last_value, -16);
}

#[test]
fn trigger_fires_once_and_resets() {
    let block_size = 16usize;
    let mut stack = ChannelStack::new(64);
    let busses = ChannelStack::new(16);
    let mut p = audio_parameter(ParameterMode::Trigger, 7, 3);
    let index = p.read(&mut stack, &busses, block_size).unwrap();
    let block = stack.read(index, block_size).unwrap();
    assert_eq!(block[0], 7);
    for i in 1..block_size {
        assert_eq!(block[i], 0);
    }
    assert_eq!(p.value, 0);
    // A second read produces pure silence.
    let index2 = p.read(&mut stack, &busses, block_size).unwrap();
    let block2 = stack.read(index2, block_size).unwrap();
    for i in 0..block_size {
        assert_eq!(block2[i], 0);
    }
}

#[test]
fn normal_mode_repeats_the_current_value() {
    let block_size = 4usize;
    let mut stack = ChannelStack::new(64);
    let busses = ChannelStack::new(16);
    let mut p = audio_parameter(ParameterMode::Normal, 11, 2);
    let index = p.read(&mut stack, &busses, block_size).unwrap();
    assert_eq!(stack.read(index, block_size).unwrap(), vec![11, 11, 11, 11]);
    assert_eq!(p.last_value, 11);
}

#[test]
fn control_rate_trigger_stages_one_sample_and_resets() {
    let mut stack = ChannelStack::new(64);
    let busses = ChannelStack::new(16);
    let mut p = Parameter::new(&ParameterDefinition {
        name: "gate",
        default: 1,
        rate: Rate::Control,
        mode: ParameterMode::Trigger,
    });
    let index = p.read(&mut stack, &busses, 16).unwrap();
    assert_eq!(stack.read(index, 1).unwrap(), vec![1]);
    assert_eq!(p.value, 0);
    assert_eq!(stack.position(), 1);
}

#[test]
fn bus_redirect_copies_the_bus_region() {
    let block_size = 4usize;
    let mut stack = ChannelStack::new(64);
    let mut busses = ChannelStack::new(16);
    busses.write(2, &vec![9, 8, 7, 6]).unwrap();
    let mut p = audio_parameter(ParameterMode::Normal, 0, 0);
    p.bus = Some(2);
    let index = p.read(&mut stack, &busses, block_size).unwrap();
    assert_eq!(stack.read(index, block_size).unwrap(), vec![9, 8, 7, 6]);
    assert_eq!(p.last_value, 6);
}
