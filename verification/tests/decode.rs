use nwind::decode::{decode_to_vec, DecodeError, Instruction};
use nwind::regs::{FpRegMask, Reg, RegMask};

#[test]
fn test_decode_pop_r14() {
    assert_eq!(
        decode_to_vec(&[0x84, 0x00]),
        (vec![Instruction::PopRegs(RegMask(1 << 14))], 2, None)
    );
}

#[test]
fn test_decode_pop_r4() {
    assert_eq!(
        decode_to_vec(&[0xa0]),
        (vec![Instruction::PopRegs(RegMask(1 << 4))], 1, None)
    );
}

#[test]
fn test_decode_pop_r4_r5() {
    assert_eq!(
        decode_to_vec(&[0xa1]),
        (vec![Instruction::PopRegs(RegMask((1 << 4) | (1 << 5)))], 1, None)
    );
}

#[test]
fn test_decode_pop_r4_r14() {
    assert_eq!(
        decode_to_vec(&[0xa8]),
        (vec![Instruction::PopRegs(RegMask((1 << 4) | (1 << 14)))], 1, None)
    );
}

#[test]
fn test_decode_pop_r3() {
    assert_eq!(
        decode_to_vec(&[0xb1, 0x08]),
        (vec![Instruction::PopRegs(RegMask(1 << 3))], 2, None)
    );
}

#[test]
fn test_decode_pop_d8() {
    assert_eq!(
        decode_to_vec(&[0xc9, 0x80]),
        (vec![Instruction::PopFpRegs(FpRegMask(1 << 8))], 2, None)
    );
}

#[test]
fn test_decode_pop_d1() {
    assert_eq!(
        decode_to_vec(&[0xc9, 0b0001_0000]),
        (vec![Instruction::PopFpRegs(FpRegMask(1 << 1))], 2, None)
    );
}

#[test]
fn test_decode_pop_d1_d2() {
    assert_eq!(
        decode_to_vec(&[0xc9, 0b0001_0001]),
        (vec![Instruction::PopFpRegs(FpRegMask((1 << 1) | (1 << 2)))], 2, None)
    );
}

#[test]
fn test_decode_pop_d17_d18() {
    assert_eq!(
        decode_to_vec(&[0xc8, 0b0001_0001]),
        (vec![Instruction::PopFpRegs(FpRegMask((1 << 17) | (1 << 18)))], 2, None)
    );
}

#[test]
fn test_decode_set_vsp_to_r7() {
    assert_eq!(
        decode_to_vec(&[0x97]),
        (vec![Instruction::VspSet(Reg(7))], 1, None)
    );
}

#[test]
fn test_decode_add_vsp_4() {
    assert_eq!(decode_to_vec(&[0x00]), (vec![Instruction::VspAdd(4)], 1, None));
}

#[test]
fn test_decode_add_vsp_256() {
    assert_eq!(decode_to_vec(&[0x3f]), (vec![Instruction::VspAdd(256)], 1, None));
}

#[test]
fn test_decode_add_vsp_uleb() {
    assert_eq!(
        decode_to_vec(&[0xb2, 0xe5, 0x8e, 0x26]),
        (vec![Instruction::VspAdd(0x204 + (0x98765 << 2))], 4, None)
    );
}

#[test]
fn test_decode_finish() {
    assert_eq!(decode_to_vec(&[0xb0]), (vec![Instruction::Finish], 1, None));
}

#[test]
fn decode_sub_vsp() {
    assert_eq!(decode_to_vec(&[0x40]), (vec![Instruction::VspAdd(-4)], 1, None));
    assert_eq!(decode_to_vec(&[0x7f]), (vec![Instruction::VspAdd(-256)], 1, None));
}

#[test]
fn decode_pop_r4_to_r11_and_r14() {
    assert_eq!(
        decode_to_vec(&[0xaf]),
        (vec![Instruction::PopRegs(RegMask(0b0100_1111_1111_0000))], 1, None)
    );
}

#[test]
fn decode_refuse_to_unwind_stops_decoding() {
    assert_eq!(
        decode_to_vec(&[0x80, 0x00, 0xb0]),
        (vec![Instruction::RefuseToUnwind], 2, None)
    );
}

#[test]
fn decode_finish_stops_decoding() {
    assert_eq!(decode_to_vec(&[0xb0, 0x00]), (vec![Instruction::Finish], 1, None));
}

#[test]
fn decode_unexpected_end() {
    assert_eq!(decode_to_vec(&[0x84]), (vec![], 1, Some(DecodeError::UnexpectedEnd)));
    assert_eq!(decode_to_vec(&[0xb1]), (vec![], 1, Some(DecodeError::UnexpectedEnd)));
    assert_eq!(decode_to_vec(&[0xc9]), (vec![], 1, Some(DecodeError::UnexpectedEnd)));
    assert_eq!(decode_to_vec(&[0xb2, 0x80]), (vec![], 2, Some(DecodeError::UnexpectedEnd)));
}

#[test]
fn decode_reserved_pop_int_regs() {
    assert_eq!(
        decode_to_vec(&[0xb1, 0x00]),
        (vec![], 2, Some(DecodeError::ReservedInstruction))
    );
    assert_eq!(
        decode_to_vec(&[0xb1, 0x10, 0x00]),
        (vec![Instruction::VspAdd(4)], 3, Some(DecodeError::ReservedInstruction))
    );
}

#[test]
fn decode_unknown_opcode_keeps_going() {
    assert_eq!(
        decode_to_vec(&[0xff, 0x01]),
        (vec![Instruction::VspAdd(8)], 2, Some(DecodeError::UnknownOpcode(0xff)))
    );
}

#[test]
fn decode_uleb128_errors() {
    // Ten bytes whose tenth has more than the last bit of a 64-bit number.
    let bad = [0xb2, 0x80, 0x80, 0x80, 0x80, 0x80, 0x80, 0x80, 0x80, 0x80, 0x02];
    assert_eq!(decode_to_vec(&bad), (vec![], 11, Some(DecodeError::BadUnsignedLeb128)));
    // 2^32 does not fit in 32 bits.
    let big = [0xb2, 0x80, 0x80, 0x80, 0x80, 0x10];
    assert_eq!(
        decode_to_vec(&big),
        (vec![], 6, Some(DecodeError::OutOfRangeUnsignedLeb128))
    );
}

#[test]
fn decode_uleb128_largest_value_wraps() {
    // 0xffff_ffff: 0x204 + (0xffff_ffff << 2) on 32 bits is 0x200.
    let max = [0xb2, 0xff, 0xff, 0xff, 0xff, 0x0f];
    assert_eq!(decode_to_vec(&max), (vec![Instruction::VspAdd(0x200)], 6, None));
}

#[test]
fn decode_pop_vfp_wraps_past_d31() {
    // d31 and then d0 .. d14: a shift of 32 or more wraps around on 32 bits.
    assert_eq!(
        decode_to_vec(&[0xc8, 0xff]),
        (vec![Instruction::PopFpRegs(FpRegMask(0x8000_7fff))], 2, None)
    );
}

#[test]
fn decode_reserved_register_moves() {
    assert_eq!(decode_to_vec(&[0x9d]), (vec![], 1, Some(DecodeError::ReservedInstruction)));
    assert_eq!(decode_to_vec(&[0x9f]), (vec![], 1, Some(DecodeError::ReservedInstruction)));
    assert_eq!(
        decode_to_vec(&[0x9d, 0x9e]),
        (vec![Instruction::VspSet(Reg(14))], 2, Some(DecodeError::ReservedInstruction))
    );
}

#[test]
fn decoder_reports_reserved_register_move() {
    use_decoder_on(&[0x9d]);
    use_decoder_on(&[0x9f]);
}

fn use_decoder_on(bytes: &[u8]) {
    let mut decoder = nwind::decode::Decoder::new(bytes);
    assert_eq!(decoder.next(), Some(Err(DecodeError::ReservedInstruction)));
    assert_eq!(decoder.position(), 1);
    assert_eq!(decoder.next(), None);
}
