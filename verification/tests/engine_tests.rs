use art::options::Options;
use art::unit::{NullBackend, UnitBackend};
use art::vm_inner::VmInner;

// Built-in type ids, in registration order.
const SINE_AR: u32 = 0;
const BUS_IN_AR: u32 = 4;
const BUS_OUT_AR: u32 = 6;
const PARAMETER_KR: u32 = 9;
const PARAMETER_WRITER_KR: u32 = 11;
const KR_TO_AR: u32 = 14;

const CMD_SET_PARAMETER: u32 = 0;
const CMD_ADD_EXPRESSION: u32 = 1;
const CMD_ADD_EDGE: u32 = 3;
const OP_UNIT: u32 = 3;
const OP_ADD: u32 = 4;
const OP_MULTIPLY: u32 = 5;
const RATE_AUDIO_WORD: u32 = 0;

/// Sample `i` of every produced block is `phase + i`; the phase advances
/// one block per call through the unit's state run.
struct CountingBackend;

impl UnitBackend for CountingBackend {
    fn tick(
        &mut self,
        _type_id: u32,
        state: &mut Vec<i32>,
        _inputs: &Vec<i32>,
        _params: &Vec<Vec<i32>>,
        _block_size: usize,
        out_len: usize,
    ) -> Vec<i32> {
        let phase = if state.is_empty() { 0 } else { state[0] };
        let out: Vec<i32> = (0..out_len as i32).map(|i| phase + i).collect();
        if !state.is_empty() {
            state[0] = phase + out_len as i32;
        }
        out
    }
}

fn w(buf: &mut Vec<u8>, value: u32) {
    buf.extend_from_slice(&value.to_be_bytes());
}

fn unit_w(buf: &mut Vec<u8>, unit_id: u32, type_id: u32, inputs: u32, outputs: u32) {
    w(buf, OP_UNIT);
    w(buf, unit_id);
    w(buf, type_id);
    w(buf, inputs);
    w(buf, outputs);
}

fn set_param_w(buf: &mut Vec<u8>, eid: u32, uid: u32, pid: u32, value: i32) {
    w(buf, CMD_SET_PARAMETER);
    w(buf, eid);
    w(buf, uid);
    w(buf, pid);
    w(buf, value as u32);
}

fn run_one_block(vm: &mut VmInner, backend: &mut dyn FeedsBlocks, bytecode: &Vec<u8>) -> Vec<i32> {
    backend.feed(vm, bytecode)
}

/// A tiny dispatch shim so one helper can drive either backend.
trait FeedsBlocks {
    fn feed(&mut self, vm: &mut VmInner, bytecode: &Vec<u8>) -> Vec<i32>;
}

impl FeedsBlocks for CountingBackend {
    fn feed(&mut self, vm: &mut VmInner, bytecode: &Vec<u8>) -> Vec<i32> {
        let block = vm.constants.block_size;
        let input = vec![0i32; 2 * block];
        let mut output = vec![0i32; 2 * block];
        vm.tick(self, bytecode, &input, &mut output).unwrap();
        output
    }
}

impl FeedsBlocks for NullBackend {
    fn feed(&mut self, vm: &mut VmInner, bytecode: &Vec<u8>) -> Vec<i32> {
        let block = vm.constants.block_size;
        let input = vec![0i32; 2 * block];
        let mut output = vec![0i32; 2 * block];
        vm.tick(self, bytecode, &input, &mut output).unwrap();
        output
    }
}

#[test]
fn add_operator_mixes_two_sources() {
    let mut vm = VmInner::new(&Options::default());
    let block = vm.constants.block_size;
    let mut buf = Vec::new();
    w(&mut buf, CMD_ADD_EXPRESSION);
    w(&mut buf, 1);
    w(&mut buf, 4);
    unit_w(&mut buf, 0, SINE_AR, 0, 1);
    unit_w(&mut buf, 1, SINE_AR, 0, 1);
    w(&mut buf, OP_ADD);
    w(&mut buf, 1);
    w(&mut buf, RATE_AUDIO_WORD);
    unit_w(&mut buf, 2, BUS_OUT_AR, 1, 0);
    set_param_w(&mut buf, 1, 2, 0, 1);
    let output = run_one_block(&mut vm, &mut CountingBackend, &buf);
    for i in 0..block {
        assert_eq!(output[i], 2 * i as i32);
    }
}

#[test]
fn multiply_operator_multiplies_two_sources() {
    let mut vm = VmInner::new(&Options::default());
    let block = vm.constants.block_size;
    let mut buf = Vec::new();
    w(&mut buf, CMD_ADD_EXPRESSION);
    w(&mut buf, 1);
    w(&mut buf, 4);
    unit_w(&mut buf, 0, SINE_AR, 0, 1);
    unit_w(&mut buf, 1, SINE_AR, 0, 1);
    w(&mut buf, OP_MULTIPLY);
    w(&mut buf, 1);
    w(&mut buf, RATE_AUDIO_WORD);
    unit_w(&mut buf, 2, BUS_OUT_AR, 1, 0);
    set_param_w(&mut buf, 1, 2, 0, 1);
    let output = run_one_block(&mut vm, &mut CountingBackend, &buf);
    for i in 0..block {
        assert_eq!(output[i], (i * i) as i32);
    }
}

#[test]
fn control_value_is_upsampled_to_a_whole_block() {
    // parameter -> rate converter -> output bus, all engine-internal.
    let mut vm = VmInner::new(&Options::default());
    let block = vm.constants.block_size;
    let mut buf = Vec::new();
    w(&mut buf, CMD_ADD_EXPRESSION);
    w(&mut buf, 1);
    w(&mut buf, 3);
    unit_w(&mut buf, 0, PARAMETER_KR, 0, 1);
    unit_w(&mut buf, 1, KR_TO_AR, 1, 1);
    unit_w(&mut buf, 2, BUS_OUT_AR, 1, 0);
    set_param_w(&mut buf, 1, 0, 0, 77);
    set_param_w(&mut buf, 1, 2, 0, 1);
    let output = run_one_block(&mut vm, &mut NullBackend, &buf);
    for i in 0..block {
        assert_eq!(output[i], 77);
    }
    for i in block..2 * block {
        assert_eq!(output[i], 0);
    }
}

#[test]
fn bus_routing_needs_the_declared_edge() {
    let mut vm = VmInner::new(&Options::default());
    let block = vm.constants.block_size;
    let mut buf = Vec::new();
    // The reader is admitted first, so without an edge it runs first.
    w(&mut buf, CMD_ADD_EXPRESSION);
    w(&mut buf, 2);
    w(&mut buf, 2);
    unit_w(&mut buf, 0, BUS_IN_AR, 0, 1);
    unit_w(&mut buf, 1, BUS_OUT_AR, 1, 0);
    set_param_w(&mut buf, 2, 0, 0, 5); // read bus 5
    set_param_w(&mut buf, 2, 1, 0, 1); // into the hardware output
    // The writer fills bus 5.
    w(&mut buf, CMD_ADD_EXPRESSION);
    w(&mut buf, 3);
    w(&mut buf, 2);
    unit_w(&mut buf, 0, SINE_AR, 0, 1);
    unit_w(&mut buf, 1, BUS_OUT_AR, 1, 0);
    set_param_w(&mut buf, 3, 1, 0, 5);
    let mut backend = CountingBackend;
    // Without the edge the reader sees silence: the bus is written after
    // it already ran, and busses do not survive the block.
    let silent = run_one_block(&mut vm, &mut backend, &buf);
    assert!(silent.iter().all(|&s| s == 0));
    // With the declared dependency the writer runs first.
    let mut edge = Vec::new();
    w(&mut edge, CMD_ADD_EDGE);
    w(&mut edge, 3);
    w(&mut edge, 2);
    let heard = run_one_block(&mut vm, &mut backend, &edge);
    for i in 0..block {
        assert_eq!(heard[i], (block + i) as i32);
    }
}

#[test]
fn parameter_writer_retargets_another_expression() {
    let mut vm = VmInner::new(&Options::default());
    let block = vm.constants.block_size;
    let mut buf = Vec::new();
    // Expression 2 plays its value parameter.
    w(&mut buf, CMD_ADD_EXPRESSION);
    w(&mut buf, 2);
    w(&mut buf, 3);
    unit_w(&mut buf, 0, PARAMETER_KR, 0, 1);
    unit_w(&mut buf, 1, KR_TO_AR, 1, 1);
    unit_w(&mut buf, 2, BUS_OUT_AR, 1, 0);
    set_param_w(&mut buf, 2, 0, 0, 5);
    set_param_w(&mut buf, 2, 2, 0, 1);
    // Expression 1 overwrites that value with its own source each block.
    w(&mut buf, CMD_ADD_EXPRESSION);
    w(&mut buf, 1);
    w(&mut buf, 2);
    unit_w(&mut buf, 0, PARAMETER_KR, 0, 1);
    unit_w(&mut buf, 1, PARAMETER_WRITER_KR, 1, 0);
    set_param_w(&mut buf, 1, 0, 0, 9); // the value it writes
    set_param_w(&mut buf, 1, 1, 0, 2); // target expression
    set_param_w(&mut buf, 1, 1, 1, 0); // target unit
    set_param_w(&mut buf, 1, 1, 2, 0); // target parameter
    let mut edge = Vec::new();
    w(&mut edge, CMD_ADD_EDGE);
    w(&mut edge, 1);
    w(&mut edge, 2);
    let mut message = buf.clone();
    message.extend_from_slice(&edge);
    let output = run_one_block(&mut vm, &mut NullBackend, &message);
    for i in 0..block {
        assert_eq!(output[i], 9);
    }
}
