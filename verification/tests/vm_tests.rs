use art::errors::ArtError;
use art::options::Options;
use art::unit::UnitBackend;
use art::vm_inner::VmInner;

// Built-in type ids, in registration order.
const SINE_AR: u32 = 0;
const BUS_OUT_AR: u32 = 6;

// Control command tags and the instruction tags of the wire format.
const CMD_SET_PARAMETER: u32 = 0;
const CMD_ADD_EXPRESSION: u32 = 1;
const CMD_REMOVE_EXPRESSION: u32 = 2;
const CMD_ADD_EDGE: u32 = 3;
const OP_UNIT: u32 = 3;

/// A deterministic stand-in for the external signal kernels: sample `i` of
/// the block is `phase + i`, and the phase advances by one whole block
/// each call through the unit's private state run.
struct RampBackend;

impl UnitBackend for RampBackend {
    fn tick(
        &mut self,
        _type_id: u32,
        state: &mut Vec<i32>,
        _inputs: &Vec<i32>,
        _params: &Vec<Vec<i32>>,
        _block_size: usize,
        out_len: usize,
    ) -> Vec<i32> {
        let phase = if state.is_empty() { 0 } else { state[0] };
        let mut out = Vec::new();
        for i in 0..out_len {
            out.push(phase + i as i32);
        }
        if !state.is_empty() {
            state[0] = phase + out_len as i32;
        }
        out
    }
}

fn word(buf: &mut Vec<u8>, value: u32) {
    buf.extend_from_slice(&value.to_be_bytes());
}

fn unit_words(buf: &mut Vec<u8>, unit_id: u32, type_id: u32, inputs: u32, outputs: u32) {
    word(buf, OP_UNIT);
    word(buf, unit_id);
    word(buf, type_id);
    word(buf, inputs);
    word(buf, outputs);
}

/// AddExpression(id=1) with a sine feeding the output bus, then the
/// SetParameter that points the bus endpoint at the hardware output.
fn sine_program() -> Vec<u8> {
    let mut buf = Vec::new();
    word(&mut buf, CMD_ADD_EXPRESSION);
    word(&mut buf, 1); // expression id
    word(&mut buf, 2); // two instructions
    unit_words(&mut buf, 0, SINE_AR, 0, 1);
    unit_words(&mut buf, 1, BUS_OUT_AR, 1, 0);
    word(&mut buf, CMD_SET_PARAMETER);
    word(&mut buf, 1); // expression id
    word(&mut buf, 1); // the bus endpoint unit
    word(&mut buf, 0); // its bus_id parameter
    word(&mut buf, 1); // bus 1 is the hardware output
    buf
}

#[test]
fn end_to_end_one_sine_block() {
    let options = Options::default();
    let block_size = options.block_size as usize;
    let mut vm = VmInner::new(&options);
    let mut backend = RampBackend;
    let input = vec![0i32; 2 * block_size];
    let mut output = vec![0i32; 2 * block_size];
    vm.tick(&mut backend, &sine_program(), &input, &mut output).unwrap();
    assert_eq!(vm.expressions.len(), 1);
    assert_eq!(vm.units.len(), 2);
    // The kernel block was mixed into the first output channel's samples.
    for i in 0..block_size {
        assert_eq!(output[i], i as i32);
    }
    for i in block_size..2 * block_size {
        assert_eq!(output[i], 0);
    }
}

#[test]
fn unit_state_persists_between_blocks() {
    let options = Options::default();
    let block_size = options.block_size as usize;
    let mut vm = VmInner::new(&options);
    let mut backend = RampBackend;
    let input = vec![0i32; 2 * block_size];
    let mut output = vec![0i32; 2 * block_size];
    vm.tick(&mut backend, &sine_program(), &input, &mut output).unwrap();
    // The second block continues where the first ended: the sine's phase
    // word survived in the state arena.
    vm.tick(&mut backend, &Vec::new(), &input, &mut output).unwrap();
    for i in 0..block_size {
        assert_eq!(output[i], (block_size + i) as i32);
    }
}

#[test]
fn remove_expression_frees_everything_at_reclaim() {
    let options = Options::default();
    let block_size = options.block_size as usize;
    let mut vm = VmInner::new(&options);
    let mut backend = RampBackend;
    let input = vec![0i32; 2 * block_size];
    let mut output = vec![0i32; 2 * block_size];
    vm.tick(&mut backend, &sine_program(), &input, &mut output).unwrap();
    assert_eq!(vm.expressions.len(), 1);

    let mut removal = Vec::new();
    word(&mut removal, CMD_REMOVE_EXPRESSION);
    word(&mut removal, 1);
    vm.tick(&mut backend, &removal, &input, &mut output).unwrap();
    assert_eq!(vm.expressions.len(), 0);
    assert_eq!(vm.units.len(), 0);
    assert_eq!(vm.parameters.len(), 0);
    // The output falls silent once the expression is gone.
    vm.tick(&mut backend, &Vec::new(), &input, &mut output).unwrap();
    assert!(output.iter().all(|&s| s == 0));
    // Its id can be used again.
    vm.tick(&mut backend, &sine_program(), &input, &mut output).unwrap();
    assert_eq!(vm.expressions.len(), 1);
}

#[test]
fn rejected_program_constructs_nothing() {
    let options = Options::default();
    let mut vm = VmInner::new(&options);
    let mut buf = Vec::new();
    word(&mut buf, CMD_ADD_EXPRESSION);
    word(&mut buf, 1);
    word(&mut buf, 2);
    unit_words(&mut buf, 0, SINE_AR, 0, 1);
    unit_words(&mut buf, 1, BUS_OUT_AR, 2, 0); // two channels against one
    assert_eq!(vm.process(&buf), Err(ArtError::ChannelMismatch { expected: 2, actual: 1 }));
    assert_eq!(vm.expressions.len(), 0);
    assert_eq!(vm.units.len(), 0);
    assert_eq!(vm.parameters.len(), 0);
    assert_eq!(vm.expression_store.len(), 0);
}

#[test]
fn set_parameter_on_missing_target_is_reported() {
    let options = Options::default();
    let mut vm = VmInner::new(&options);
    assert_eq!(
        vm.set_parameter(1, 0, 0, 7),
        Err(ArtError::ParameterNotFound { expression_id: 1, unit_id: 0, parameter_id: 0 })
    );
    assert_eq!(
        vm.remove_expression(4),
        Err(ArtError::ExpressionNotFound { expression_id: 4 })
    );
}

#[test]
fn duplicate_expression_id_is_rejected() {
    let options = Options::default();
    let block_size = options.block_size as usize;
    let mut vm = VmInner::new(&options);
    let mut backend = RampBackend;
    let input = vec![0i32; 2 * block_size];
    let mut output = vec![0i32; 2 * block_size];
    vm.tick(&mut backend, &sine_program(), &input, &mut output).unwrap();
    assert_eq!(vm.process(&sine_program()), Err(ArtError::IndexError));
    assert_eq!(vm.expressions.len(), 1);
}

#[test]
fn add_edge_commands_flow_into_the_graph() {
    let options = Options::default();
    let mut vm = VmInner::new(&options);
    let mut buf = Vec::new();
    word(&mut buf, CMD_ADD_EDGE);
    word(&mut buf, 1);
    word(&mut buf, 2);
    vm.process(&buf).unwrap();
}

#[test]
fn malformed_bytecode_rejects_the_message() {
    let options = Options::default();
    let mut vm = VmInner::new(&options);
    let mut buf = Vec::new();
    word(&mut buf, 99);
    assert_eq!(vm.process(&buf), Err(ArtError::InvalidByteCode));
}

#[test]
fn tick_surfaces_a_bad_message_but_still_runs_the_block() {
    let options = Options::default();
    let block_size = options.block_size as usize;
    let mut vm = VmInner::new(&options);
    let mut backend = RampBackend;
    let input = vec![0i32; 2 * block_size];
    let mut output = vec![0i32; 2 * block_size];
    vm.tick(&mut backend, &sine_program(), &input, &mut output).unwrap();
    // A malformed message is reported, yet the admitted expression still
    // produced its block and was not disturbed.
    let mut garbage = Vec::new();
    word(&mut garbage, 99);
    assert_eq!(
        vm.tick(&mut backend, &garbage, &input, &mut output),
        Err(ArtError::InvalidByteCode)
    );
    for i in 0..block_size {
        assert_eq!(output[i], (block_size + i) as i32);
    }
    assert_eq!(vm.expressions.len(), 1);
}
