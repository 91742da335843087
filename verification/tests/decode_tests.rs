use art::errors::ArtError;
use art::opcode::{ControlOpcode, DspOpcode};
use art::opcode_reader::{read_control_opcode, read_dsp_opcode, read_expression_program};
use art::types::Rate;
use byteorder::{BigEndian, ByteOrder};

fn push_word(buf: &mut Vec<u8>, value: u32) {
    let mut word = [0u8; 4];
    BigEndian::write_u32(&mut word, value);
    buf.extend_from_slice(&word);
}

#[test]
fn decode_set_parameter_round_trip() {
    let mut buf: Vec<u8> = Vec::new();
    push_word(&mut buf, 0); // SetParameter
    push_word(&mut buf, 7);
    push_word(&mut buf, 3);
    push_word(&mut buf, 1);
    push_word(&mut buf, 440u32);
    let (op, next) = read_control_opcode(&buf, 0).unwrap();
    assert_eq!(
        op,
        ControlOpcode::SetParameter { expression_id: 7, unit_id: 3, parameter_id: 1, value: 440 }
    );
    assert_eq!(next, 20);
}

#[test]
fn decode_set_parameter_negative_value() {
    let mut buf: Vec<u8> = Vec::new();
    push_word(&mut buf, 0);
    push_word(&mut buf, 1);
    push_word(&mut buf, 0);
    push_word(&mut buf, 0);
    push_word(&mut buf, (-5i32) as u32);
    let (op, _) = read_control_opcode(&buf, 0).unwrap();
    match op {
        ControlOpcode::SetParameter { value, .. } => assert_eq!(value, -5),
        _ => panic!("wrong command"),
    }
}

#[test]
fn decode_add_expression_and_edges() {
    let mut buf: Vec<u8> = Vec::new();
    push_word(&mut buf, 1); // AddExpression
    push_word(&mut buf, 9);
    push_word(&mut buf, 2);
    push_word(&mut buf, 3); // AddEdge
    push_word(&mut buf, 4);
    push_word(&mut buf, 5);
    push_word(&mut buf, 2); // RemoveExpression
    push_word(&mut buf, 9);
    let (op, next) = read_control_opcode(&buf, 0).unwrap();
    assert_eq!(op, ControlOpcode::AddExpression { expression_id: 9, num_opcodes: 2 });
    let (op2, next2) = read_control_opcode(&buf, next).unwrap();
    assert_eq!(op2, ControlOpcode::AddEdge { from: 4, to: 5 });
    let (op3, next3) = read_control_opcode(&buf, next2).unwrap();
    assert_eq!(op3, ControlOpcode::RemoveExpression { expression_id: 9 });
    assert_eq!(next3, buf.len());
}

#[test]
fn decode_dsp_opcodes() {
    let mut buf: Vec<u8> = Vec::new();
    push_word(&mut buf, 3); // Unit
    push_word(&mut buf, 0);
    push_word(&mut buf, 14);
    push_word(&mut buf, 1);
    push_word(&mut buf, 2);
    push_word(&mut buf, 4); // Add
    push_word(&mut buf, 2);
    push_word(&mut buf, 0);
    push_word(&mut buf, 5); // Multiply
    push_word(&mut buf, 1);
    push_word(&mut buf, 1);
    let (u, next) = read_dsp_opcode(&buf, 0).unwrap();
    assert_eq!(
        u,
        DspOpcode::Unit { unit_id: 0, type_id: 14, input_channels: 1, output_channels: 2 }
    );
    let (a, next2) = read_dsp_opcode(&buf, next).unwrap();
    assert_eq!(a, DspOpcode::Add { channels: 2, rate: Rate::Audio });
    let (m, next3) = read_dsp_opcode(&buf, next2).unwrap();
    assert_eq!(m, DspOpcode::Multiply { channels: 1, rate: Rate::Control });
    assert_eq!(next3, buf.len());

    let (ops, end) = read_expression_program(&buf, 0, 3).unwrap();
    assert_eq!(ops, vec![u, a, m]);
    assert_eq!(end, buf.len());
}

#[test]
fn decode_rejects_unknown_tag_truncation_and_bad_rate() {
    let mut bad_tag: Vec<u8> = Vec::new();
    push_word(&mut bad_tag, 99);
    assert_eq!(read_control_opcode(&bad_tag, 0), Err(ArtError::InvalidByteCode));

    let mut truncated: Vec<u8> = Vec::new();
    push_word(&mut truncated, 0); // SetParameter needs 16 more bytes
    push_word(&mut truncated, 7);
    assert_eq!(read_control_opcode(&truncated, 0), Err(ArtError::InvalidByteCode));

    let mut bad_rate: Vec<u8> = Vec::new();
    push_word(&mut bad_rate, 4); // Add
    push_word(&mut bad_rate, 2);
    push_word(&mut bad_rate, 9); // no such rate
    assert_eq!(read_dsp_opcode(&bad_rate, 0), Err(ArtError::InvalidByteCode));

    assert_eq!(read_control_opcode(&Vec::new(), 0), Err(ArtError::InvalidByteCode));
}
