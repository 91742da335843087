use art::errors::ArtError;
use art::options::Options;
use art::unit::NullBackend;
use art::vm_inner::VmInner;

const SINE_AR: u32 = 0;
const PARAMETER_KR: u32 = 9;
const PARAMETER_WRITER_KR: u32 = 11;
const BUS_OUT_AR: u32 = 6;

const CMD_SET_PARAMETER: u32 = 0;
const CMD_ADD_EXPRESSION: u32 = 1;
const OP_UNIT: u32 = 3;

fn wd(buf: &mut Vec<u8>, value: u32) {
    buf.extend_from_slice(&value.to_be_bytes());
}

fn unit_wd(buf: &mut Vec<u8>, unit_id: u32, type_id: u32, inputs: u32, outputs: u32) {
    wd(buf, OP_UNIT);
    wd(buf, unit_id);
    wd(buf, type_id);
    wd(buf, inputs);
    wd(buf, outputs);
}

fn one_sine(buf: &mut Vec<u8>, id: u32) {
    wd(buf, CMD_ADD_EXPRESSION);
    wd(buf, id);
    wd(buf, 2);
    unit_wd(buf, 0, SINE_AR, 0, 1);
    unit_wd(buf, 1, BUS_OUT_AR, 1, 0);
}

#[test]
fn expression_store_fails_closed_when_full() {
    let mut options = Options::default();
    options.max_expressions = 1;
    let mut vm = VmInner::new(&options);
    let mut first = Vec::new();
    one_sine(&mut first, 1);
    vm.process(&first).unwrap();
    let mut second = Vec::new();
    one_sine(&mut second, 2);
    assert_eq!(vm.process(&second), Err(ArtError::BufferOverflow));
    assert_eq!(vm.expressions.len(), 1);
}

#[test]
fn opcode_arena_exhaustion_rejects_the_expression() {
    let mut options = Options::default();
    options.max_opcodes = 2; // a two-instruction run needs three slots
    let mut vm = VmInner::new(&options);
    let mut buf = Vec::new();
    one_sine(&mut buf, 1);
    assert_eq!(vm.process(&buf), Err(ArtError::BufferOverflow));
    assert_eq!(vm.expressions.len(), 0);
    assert_eq!(vm.expression_store.len(), 0);
}

#[test]
fn tick_reports_a_bus_stack_too_small_for_the_hardware() {
    let mut options = Options::default();
    options.bus_stack_size = 4;
    let mut vm = VmInner::new(&options);
    let block = vm.constants.block_size;
    let input = vec![0i32; 2 * block];
    let mut output = vec![0i32; 2 * block];
    assert_eq!(
        vm.tick(&mut NullBackend, &Vec::new(), &input, &mut output),
        Err(ArtError::StackOverflow)
    );
}

#[test]
fn runtime_failure_frees_the_expression_and_spares_the_block() {
    let mut vm = VmInner::new(&Options::default());
    let block = vm.constants.block_size;
    // A writer aimed at a parameter that does not exist: validation cannot
    // see it, so it fails while running and the expression is reclaimed.
    let mut buf = Vec::new();
    wd(&mut buf, CMD_ADD_EXPRESSION);
    wd(&mut buf, 1);
    wd(&mut buf, 2);
    unit_wd(&mut buf, 0, PARAMETER_KR, 0, 1);
    unit_wd(&mut buf, 1, PARAMETER_WRITER_KR, 1, 0);
    wd(&mut buf, CMD_SET_PARAMETER);
    wd(&mut buf, 1);
    wd(&mut buf, 1);
    wd(&mut buf, 0);
    wd(&mut buf, 99); // no expression 99 exists
    let input = vec![0i32; 2 * block];
    let mut output = vec![0i32; 2 * block];
    vm.tick(&mut NullBackend, &buf, &input, &mut output).unwrap();
    assert_eq!(vm.expressions.len(), 0);
    assert_eq!(vm.units.len(), 0);
    assert_eq!(vm.parameters.len(), 0);
}
