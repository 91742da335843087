use vstd::prelude::*;

use crate::errors::ArtError;
use crate::opcode::{ControlOpcode, DspOpcode};
use crate::types::{ArtResult, Rate};

verus! {

// Wire format: every field is a big-endian 32-bit word. A command is a tag
// word followed by its fields; an expression program is a sequence of
// tagged instruction records. An unknown tag, an unknown rate code or a
// truncated record is a decode failure.

pub const TAG_SET_PARAMETER: u32 = 0;

pub const TAG_ADD_EXPRESSION: u32 = 1;

pub const TAG_REMOVE_EXPRESSION: u32 = 2;

pub const TAG_ADD_EDGE: u32 = 3;

pub const TAG_UNIT: u32 = 3;

pub const TAG_ADD: u32 = 4;

pub const TAG_MULTIPLY: u32 = 5;

pub const RATE_AUDIO: u32 = 0;

pub const RATE_CONTROL: u32 = 1;

/// The big-endian 32-bit word formed by a four-byte sequence.
pub open spec fn spec_be_u32(s: Seq<u8>) -> u32
    recommends
        s.len() == 4,
{
    (s[0] * 0x1000000 + s[1] * 0x10000 + s[2] * 0x100 + s[3]) as u32
}

/// The big-endian word at byte offset `pos`.
pub open spec fn spec_word_at(s: Seq<u8>, pos: int) -> u32
    recommends
        0 <= pos && pos + 4 <= s.len(),
{
    spec_be_u32(s.subrange(pos, pos + 4))
}

/// Relies on byteorder's `BigEndian::read_u32`: the result is the
/// big-endian 32-bit integer formed by the first four bytes of the slice.
#[verifier::external_body]
fn read_be_u32(bytes: &Vec<u8>, pos: usize) -> (r: u32)
    requires
        pos + 4 <= bytes@.len(),
    ensures
        r == spec_word_at(bytes@, pos as int),
{
    <byteorder::BigEndian as byteorder::ByteOrder>::read_u32(&bytes[pos..pos + 4])
}

/// What decoding a rate code yields.
pub open spec fn spec_decode_rate(word: u32) -> Option<Rate> {
    if word == RATE_AUDIO {
        Some(Rate::Audio)
    } else if word == RATE_CONTROL {
        Some(Rate::Control)
    } else {
        None
    }
}

/// What decoding one command at byte offset `pos` yields: the command and
/// the offset just past it, or nothing on a bad tag or truncated record.
pub open spec fn spec_decode_control(s: Seq<u8>, pos: int) -> Option<(ControlOpcode, int)> {
    if pos < 0 || pos + 4 > s.len() {
        None
    } else {
        let tag = spec_word_at(s, pos);
        if tag == TAG_SET_PARAMETER {
            if pos + 20 > s.len() {
                None
            } else {
                Some(
                    (
                        ControlOpcode::SetParameter {
                            expression_id: spec_word_at(s, pos + 4),
                            unit_id: spec_word_at(s, pos + 8),
                            parameter_id: spec_word_at(s, pos + 12),
                            value: spec_word_at(s, pos + 16) as i32,
                        },
                        pos + 20,
                    ),
                )
            }
        } else if tag == TAG_ADD_EXPRESSION {
            if pos + 12 > s.len() {
                None
            } else {
                Some(
                    (
                        ControlOpcode::AddExpression {
                            expression_id: spec_word_at(s, pos + 4),
                            num_opcodes: spec_word_at(s, pos + 8),
                        },
                        pos + 12,
                    ),
                )
            }
        } else if tag == TAG_REMOVE_EXPRESSION {
            if pos + 8 > s.len() {
                None
            } else {
                Some(
                    (
                        ControlOpcode::RemoveExpression { expression_id: spec_word_at(s, pos + 4) },
                        pos + 8,
                    ),
                )
            }
        } else if tag == TAG_ADD_EDGE {
            if pos + 12 > s.len() {
                None
            } else {
                Some(
                    (
                        ControlOpcode::AddEdge {
                            from: spec_word_at(s, pos + 4),
                            to: spec_word_at(s, pos + 8),
                        },
                        pos + 12,
                    ),
                )
            }
        } else {
            None
        }
    }
}

/// What decoding one program instruction at byte offset `pos` yields.
pub open spec fn spec_decode_dsp(s: Seq<u8>, pos: int) -> Option<(DspOpcode, int)> {
    if pos < 0 || pos + 4 > s.len() {
        None
    } else {
        let tag = spec_word_at(s, pos);
        if tag == TAG_UNIT {
            if pos + 20 > s.len() {
                None
            } else {
                Some(
                    (
                        DspOpcode::Unit {
                            unit_id: spec_word_at(s, pos + 4),
                            type_id: spec_word_at(s, pos + 8),
                            input_channels: spec_word_at(s, pos + 12),
                            output_channels: spec_word_at(s, pos + 16),
                        },
                        pos + 20,
                    ),
                )
            }
        } else if tag == TAG_ADD || tag == TAG_MULTIPLY {
            if pos + 12 > s.len() {
                None
            } else {
                match spec_decode_rate(spec_word_at(s, pos + 8)) {
                    Some(rate) => {
                        let channels = spec_word_at(s, pos + 4);
                        if tag == TAG_ADD {
                            Some((DspOpcode::Add { channels, rate }, pos + 12))
                        } else {
                            Some((DspOpcode::Multiply { channels, rate }, pos + 12))
                        }
                    },
                    None => None,
                }
            }
        } else {
            None
        }
    }
}

/// What decoding `count` consecutive program instructions yields.
pub open spec fn spec_decode_program(s: Seq<u8>, pos: int, count: int) -> Option<
    (Seq<DspOpcode>, int),
>
    decreases count,
{
    if count <= 0 {
        Some((Seq::empty(), pos))
    } else {
        match spec_decode_dsp(s, pos) {
            Some((op, next)) => match spec_decode_program(s, next, count - 1) {
                Some((rest, end)) => Some((seq![op] + rest, end)),
                None => None,
            },
            None => None,
        }
    }
}

/// Decode one command at byte offset `pos`.
pub fn read_control_opcode(bytes: &Vec<u8>, pos: usize) -> (r: ArtResult<(ControlOpcode, usize)>)
    ensures
        match r {
            Ok((op, next)) => spec_decode_control(bytes@, pos as int) == Some((op, next as int))
                && pos < next <= bytes@.len(),
            Err(e) => {
                &&& e == ArtError::InvalidByteCode
                &&& spec_decode_control(bytes@, pos as int) is None
            },
        },
{
    if pos > bytes.len() || bytes.len() - pos < 4 {
        return Err(ArtError::InvalidByteCode);
    }
    let tag = read_be_u32(bytes, pos);
    if tag == TAG_SET_PARAMETER {
        if bytes.len() - pos < 20 {
            return Err(ArtError::InvalidByteCode);
        }
        let expression_id = read_be_u32(bytes, pos + 4);
        let unit_id = read_be_u32(bytes, pos + 8);
        let parameter_id = read_be_u32(bytes, pos + 12);
        let value = read_be_u32(bytes, pos + 16) as i32;
        Ok((ControlOpcode::SetParameter { expression_id, unit_id, parameter_id, value }, pos + 20))
    } else if tag == TAG_ADD_EXPRESSION {
        if bytes.len() - pos < 12 {
            return Err(ArtError::InvalidByteCode);
        }
        let expression_id = read_be_u32(bytes, pos + 4);
        let num_opcodes = read_be_u32(bytes, pos + 8);
        Ok((ControlOpcode::AddExpression { expression_id, num_opcodes }, pos + 12))
    } else if tag == TAG_REMOVE_EXPRESSION {
        if bytes.len() - pos < 8 {
            return Err(ArtError::InvalidByteCode);
        }
        let expression_id = read_be_u32(bytes, pos + 4);
        Ok((ControlOpcode::RemoveExpression { expression_id }, pos + 8))
    } else if tag == TAG_ADD_EDGE {
        if bytes.len() - pos < 12 {
            return Err(ArtError::InvalidByteCode);
        }
        let from = read_be_u32(bytes, pos + 4);
        let to = read_be_u32(bytes, pos + 8);
        Ok((ControlOpcode::AddEdge { from, to }, pos + 12))
    } else {
        Err(ArtError::InvalidByteCode)
    }
}

/// Decode one program instruction at byte offset `pos`.
pub fn read_dsp_opcode(bytes: &Vec<u8>, pos: usize) -> (r: ArtResult<(DspOpcode, usize)>)
    ensures
        match r {
            Ok((op, next)) => spec_decode_dsp(bytes@, pos as int) == Some((op, next as int))
                && pos < next <= bytes@.len(),
            Err(e) => {
                &&& e == ArtError::InvalidByteCode
                &&& spec_decode_dsp(bytes@, pos as int) is None
            },
        },
{
    if pos > bytes.len() || bytes.len() - pos < 4 {
        return Err(ArtError::InvalidByteCode);
    }
    let tag = read_be_u32(bytes, pos);
    if tag == TAG_UNIT {
        if bytes.len() - pos < 20 {
            return Err(ArtError::InvalidByteCode);
        }
        let unit_id = read_be_u32(bytes, pos + 4);
        let type_id = read_be_u32(bytes, pos + 8);
        let input_channels = read_be_u32(bytes, pos + 12);
        let output_channels = read_be_u32(bytes, pos + 16);
        Ok((DspOpcode::Unit { unit_id, type_id, input_channels, output_channels }, pos + 20))
    } else if tag == TAG_ADD || tag == TAG_MULTIPLY {
        if bytes.len() - pos < 12 {
            return Err(ArtError::InvalidByteCode);
        }
        let channels = read_be_u32(bytes, pos + 4);
        let rate_word = read_be_u32(bytes, pos + 8);
        let rate = if rate_word == RATE_AUDIO {
            Rate::Audio
        } else if rate_word == RATE_CONTROL {
            Rate::Control
        } else {
            return Err(ArtError::InvalidByteCode);
        };
        if tag == TAG_ADD {
            Ok((DspOpcode::Add { channels, rate }, pos + 12))
        } else {
            Ok((DspOpcode::Multiply { channels, rate }, pos + 12))
        }
    } else {
        Err(ArtError::InvalidByteCode)
    }
}

/// Decode the `count` program instructions that follow an `AddExpression`
/// command, returning them with the offset just past them.
pub fn read_expression_program(bytes: &Vec<u8>, pos: usize, count: u32) -> (r: ArtResult<
    (Vec<DspOpcode>, usize),
>)
    ensures
        match r {
            Ok((ops, next)) => spec_decode_program(bytes@, pos as int, count as int) == Some(
                (ops@, next as int),
            ) && pos <= next && (count > 0 ==> pos < next) && (next <= bytes@.len() || next
                == pos),
            Err(e) => {
                &&& e == ArtError::InvalidByteCode
                &&& spec_decode_program(bytes@, pos as int, count as int) is None
            },
        },
{
    let mut ops: Vec<DspOpcode> = Vec::new();
    let mut cur = pos;
    let mut k: u32 = 0;
    while k < count
        invariant
            k <= count,
            ops@.len() == k,
            pos <= cur,
            k > 0 ==> pos < cur,
            cur <= bytes@.len() || cur == pos,
            spec_decode_program(bytes@, pos as int, count as int) == (match spec_decode_program(
                bytes@,
                cur as int,
                count - k,
            ) {
                Some((rest, end)) => Some::<(Seq<DspOpcode>, int)>((ops@ + rest, end)),
                None => None::<(Seq<DspOpcode>, int)>,
            }),
        decreases count - k,
    {
        let (op, next) = match read_dsp_opcode(bytes, cur) {
            Ok(v) => v,
            Err(e) => {
                proof {
                    lemma_decode_program_unfold(bytes@, cur as int, count - k);
                }
                return Err(ArtError::InvalidByteCode);
            },
        };
        proof {
            lemma_decode_program_unfold(bytes@, cur as int, count - k);
        }
        ops.push(op);
        cur = next;
        k = k + 1;
        proof {
            assert(spec_decode_program(bytes@, pos as int, count as int) == (
            match spec_decode_program(bytes@, cur as int, count - k) {
                Some((rest, end)) => Some::<(Seq<DspOpcode>, int)>((ops@ + rest, end)),
                None => None::<(Seq<DspOpcode>, int)>,
            })) by {
                if spec_decode_program(bytes@, cur as int, count - k) is Some {
                    let (rest, end) = spec_decode_program(bytes@, cur as int, count - k)->0;
                    assert(ops@ + rest =~= ops@.drop_last() + (seq![op] + rest));
                }
            }
        }
    }
    proof {
        assert(spec_decode_program(bytes@, cur as int, 0) == Some(
            (Seq::<DspOpcode>::empty(), cur as int),
        ));
        assert(ops@ + Seq::<DspOpcode>::empty() =~= ops@);
    }
    Ok((ops, cur))
}

/// Decoding never moves backwards through the byte stream.
pub proof fn lemma_decode_program_advances(s: Seq<u8>, pos: int, count: int)
    requires
        spec_decode_program(s, pos, count) is Some,
    ensures
        spec_decode_program(s, pos, count) matches Some(r) ==> r.1 >= pos,
    decreases count,
{
    if count > 0 {
        match spec_decode_dsp(s, pos) {
            Some((op, next)) => {
                lemma_decode_program_advances(s, next, count - 1);
            },
            None => {},
        }
    }
}

/// One unfolding step of `spec_decode_program`.
proof fn lemma_decode_program_unfold(s: Seq<u8>, pos: int, count: int)
    requires
        count > 0,
    ensures
        spec_decode_program(s, pos, count) == (match spec_decode_dsp(s, pos) {
            Some((op, next)) => match spec_decode_program(s, next, count - 1) {
                Some((rest, end)) => Some::<(Seq<DspOpcode>, int)>((seq![op] + rest, end)),
                None => None::<(Seq<DspOpcode>, int)>,
            },
            None => None::<(Seq<DspOpcode>, int)>,
        }),
{
}

} // verus!
