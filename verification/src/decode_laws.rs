//! What each unwinding opcode decodes to, stated over the opcode's bits.

use crate::decode::{decode_step, uleb128_from, DecodeError, Instruction};
use crate::regs::{mask_bit, FpRegMask, Reg, RegMask};
use vstd::prelude::*;

verus! {

/// The opcode classes of the bytecode, by range.
proof fn lemma_opcode_classes(op: u8)
    ensures
        (op & 0xc0u8 == 0) <==> op < 0x40,
        (op & 0xc0u8 == 0x40) <==> 0x40 <= op < 0x80,
        (op & 0xf0u8 == 0xa0) <==> 0xa0 <= op < 0xb0,
        (op & 0xf0u8 == 0x80) <==> 0x80 <= op < 0x90,
        (op & 0xf0u8 == 0x90) <==> 0x90 <= op < 0xa0,
        (op & 0xfeu8 == 0xc8) <==> (op == 0xc8 || op == 0xc9),
{
    assert({
        &&& (op & 0xc0u8 == 0) <==> op < 0x40
        &&& (op & 0xc0u8 == 0x40) <==> 0x40 <= op < 0x80
        &&& (op & 0xf0u8 == 0xa0) <==> 0xa0 <= op < 0xb0
        &&& (op & 0xf0u8 == 0x80) <==> 0x80 <= op < 0x90
        &&& (op & 0xf0u8 == 0x90) <==> 0x90 <= op < 0xa0
        &&& (op & 0xfeu8 == 0xc8) <==> (op == 0xc8 || op == 0xc9)
    }) by (bit_vector);
}

/// `00xxxxxx` adds `4 * xxxxxx + 4` to vsp and `01xxxxxx` subtracts it;
/// each takes one byte.
pub proof fn lemma_decode_vsp_add(bytes: Seq<u8>, pos: int)
    requires
        0 <= pos < bytes.len(),
        bytes[pos] < 0x80,
    ensures
        bytes[pos] < 0x40 ==> decode_step(bytes, pos) == (
            Ok::<Instruction, DecodeError>(Instruction::VspAdd((4 * bytes[pos] + 4) as i32)),
            pos + 1,
        ),
        bytes[pos] >= 0x40 ==> decode_step(bytes, pos) == (
            Ok::<Instruction, DecodeError>(
                Instruction::VspAdd((-(4 * (bytes[pos] - 0x40) + 4)) as i32),
            ),
            pos + 1,
        ),
{
    let op = bytes[pos];
    lemma_opcode_classes(op);
    assert((op < 0x40 ==> op & 0x3fu8 == op) && (0x40 <= op < 0x80 ==> op & 0x3fu8 == op - 0x40))
        by (bit_vector);
}

/// `1000iiii iiiiiiii` pops `r4` to `r15` as the twelve mask bits say: bit
/// `k` of the second byte stands for `r(4 + k)` and bit `k` of the opcode
/// for `r(12 + k)`; no register below `r4` is ever popped. When all twelve
/// bits are clear it refuses to unwind. It takes two bytes.
pub proof fn lemma_decode_pop_masked(bytes: Seq<u8>, pos: int)
    requires
        0 <= pos < bytes.len(),
        0x80 <= bytes[pos] < 0x90,
    ensures
        pos + 1 >= bytes.len() ==> decode_step(bytes, pos) == (
            Err::<Instruction, DecodeError>(DecodeError::UnexpectedEnd),
            pos + 1,
        ),
        pos + 1 < bytes.len() && bytes[pos] == 0x80 && bytes[pos + 1] == 0 ==> decode_step(
            bytes,
            pos,
        ) == (Ok::<Instruction, DecodeError>(Instruction::RefuseToUnwind), pos + 2),
        pos + 1 < bytes.len() && !(bytes[pos] == 0x80 && bytes[pos + 1] == 0) ==> {
            &&& decode_step(bytes, pos).1 == pos + 2
            &&& decode_step(bytes, pos).0 matches Ok(Instruction::PopRegs(mask)) && forall|r: nat|
                r < 16 ==> (#[trigger] mask_bit(mask.0 as u32, r) <==> ((4 <= r <= 11 && mask_bit(
                    bytes[pos + 1] as u32,
                    (r - 4) as nat,
                )) || (12 <= r && mask_bit(bytes[pos] as u32, (r - 12) as nat))))
        },
{
    let op = bytes[pos];
    lemma_opcode_classes(op);
    assert(op & 0xf0u8 == 0x80 && (op & 0x0fu8 == 0 <==> op == 0x80)) by (bit_vector)
        requires
            0x80 <= op < 0x90,
    ;
    if pos + 1 < bytes.len() && !(op == 0x80 && bytes[pos + 1] == 0) {
        let next = bytes[pos + 1];
        let m = ((((next as u32) << 4u32) | (((op & 0x0fu8) as u32) << 12u32)) as u16) as u32;
        assert forall|r: nat| r < 16 implies (#[trigger] mask_bit(m, r) <==> ((4 <= r <= 11 && mask_bit(
            next as u32,
            (r - 4) as nat,
        )) || (12 <= r && mask_bit(op as u32, (r - 12) as nat)))) by {
            let rr = r as u32;
            let k1 = (rr - 4) as u32;
            let k2 = (rr - 12) as u32;
            assert({
                &&& rr < 4 ==> (m >> rr) & 1u32 != 1u32
                &&& 4 <= rr < 12 ==> (((m >> rr) & 1u32 == 1u32) == (((next as u32) >> k1) & 1u32
                    == 1u32))
                &&& 12 <= rr < 16 ==> (((m >> rr) & 1u32 == 1u32) == (((op as u32) >> k2) & 1u32
                    == 1u32))
            }) by (bit_vector)
                requires
                    rr < 16,
                    k1 == (rr - 4) as u32,
                    k2 == (rr - 12) as u32,
                    m == ((((next as u32) << 4u32) | (((op & 0x0fu8) as u32) << 12u32)) as u16)
                        as u32,
            ;
        }
    }
}

/// `1001nnnn` sets vsp to `r<nnnn>`, but for `10011101` and `10011111`,
/// which are reserved; it takes one byte.
pub proof fn lemma_decode_vsp_set(bytes: Seq<u8>, pos: int)
    requires
        0 <= pos < bytes.len(),
        0x90 <= bytes[pos] < 0xa0,
    ensures
        bytes[pos] == 0x9d || bytes[pos] == 0x9f ==> decode_step(bytes, pos) == (
            Err::<Instruction, DecodeError>(DecodeError::ReservedInstruction),
            pos + 1,
        ),
        bytes[pos] != 0x9d && bytes[pos] != 0x9f ==> decode_step(bytes, pos) == (
            Ok::<Instruction, DecodeError>(Instruction::VspSet(Reg((bytes[pos] - 0x90) as u8))),
            pos + 1,
        ),
{
    let op = bytes[pos];
    lemma_opcode_classes(op);
    assert(op & 0xc0u8 != 0 && op & 0xc0u8 != 0x40 && op & 0xf0u8 != 0xa0 && op & 0xf0u8 != 0x80
        && op & 0xf0u8 == 0x90 && op & 0x0fu8 == op - 0x90) by (bit_vector)
        requires
            0x90 <= op < 0xa0,
    ;
}

/// `1010Lnnn` pops `r4` to `r(4 + nnn)`, and `r14` too when `L` is set; it
/// takes one byte.
pub proof fn lemma_decode_pop_serial(bytes: Seq<u8>, pos: int)
    requires
        0 <= pos < bytes.len(),
        0xa0 <= bytes[pos] < 0xb0,
    ensures
        decode_step(bytes, pos).1 == pos + 1,
        decode_step(bytes, pos).0 matches Ok(Instruction::PopRegs(mask)) && forall|r: nat|
            r < 16 ==> (#[trigger] mask_bit(mask.0 as u32, r) <==> (4 <= r <= 4 + (bytes[pos] - 0xa0) % 8 || (r
                == 14 && bytes[pos] >= 0xa8))),
{
    let op = bytes[pos];
    lemma_opcode_classes(op);
    assert(op & 0xc0u8 != 0 && op & 0xc0u8 != 0x40 && op & 0xf0u8 == 0xa0 && op & 0x07u8 == (op
        - 0xa0) % 8 && (op & 0x08u8 != 0 <==> op >= 0xa8)) by (bit_vector)
        requires
            0xa0 <= op < 0xb0,
    ;
    assert forall|r: nat| r < 16 implies (#[trigger] mask_bit(
        crate::decode::serial_pop_mask(op) as u32,
        r,
    ) <==> (4 <= r <= 4 + (op - 0xa0) % 8 || (r == 14 && op >= 0xa8))) by {
        crate::decode::lemma_serial_pop_mask(op, r);
    }
}

/// `10110000` finishes; `10110001 0000iiii` pops `r0` to `r3` as the four
/// mask bits say, and is reserved when the mask is empty or a high bit is
/// set.
pub proof fn lemma_decode_finish_and_pop_low(bytes: Seq<u8>, pos: int)
    requires
        0 <= pos < bytes.len(),
        bytes[pos] == 0xb0 || bytes[pos] == 0xb1,
    ensures
        bytes[pos] == 0xb0 ==> decode_step(bytes, pos) == (
            Ok::<Instruction, DecodeError>(Instruction::Finish),
            pos + 1,
        ),
        bytes[pos] == 0xb1 && pos + 1 >= bytes.len() ==> decode_step(bytes, pos) == (
            Err::<Instruction, DecodeError>(DecodeError::UnexpectedEnd),
            pos + 1,
        ),
        bytes[pos] == 0xb1 && pos + 1 < bytes.len() && (bytes[pos + 1] == 0 || bytes[pos + 1]
            >= 16) ==> decode_step(bytes, pos) == (
            Err::<Instruction, DecodeError>(DecodeError::ReservedInstruction),
            pos + 2,
        ),
        bytes[pos] == 0xb1 && pos + 1 < bytes.len() && 0 < bytes[pos + 1] < 16 ==> decode_step(
            bytes,
            pos,
        ) == (
            Ok::<Instruction, DecodeError>(Instruction::PopRegs(RegMask(bytes[pos + 1] as u16))),
            pos + 2,
        ),
{
    lemma_opcode_classes(bytes[pos]);
    if pos + 1 < bytes.len() {
        let next = bytes[pos + 1];
        assert((next & 0xf0u8 != 0) <==> next >= 16) by (bit_vector);
    }
}

/// `10110010 uleb128` with a one-byte number `n` adds `0x204 + 4 * n` to
/// vsp; it takes two bytes.
pub proof fn lemma_decode_vsp_add_uleb128_short(bytes: Seq<u8>, pos: int)
    requires
        0 <= pos,
        pos + 1 < bytes.len(),
        bytes[pos] == 0xb2,
        bytes[pos + 1] < 0x80,
    ensures
        decode_step(bytes, pos) == (
            Ok::<Instruction, DecodeError>(Instruction::VspAdd((0x204 + 4 * bytes[pos + 1]) as i32)),
            pos + 2,
        ),
{
    lemma_opcode_classes(bytes[pos]);
    let b = bytes[pos + 1];
    let n = 0u64 | (((b & 0x7fu8) as u64) << 0u32);
    assert(b & 0x80u8 == 0 && n == b as u64 && n & !0xffff_ffffu64 == 0 && (0x204u32).wrapping_add((n as u32) << 2u32)
        == 0x204 + 4 * b) by (bit_vector)
        requires
            b < 0x80,
            n == 0u64 | (((b & 0x7fu8) as u64) << 0u32),
    ;
    assert(uleb128_from(bytes, pos + 1, 0, 0) == (Ok::<u64, DecodeError>(n), pos + 2));
}

/// `1100100x sssscccc` pops `cccc + 1` floating point registers, from
/// `d(16 + ssss)` when `x` is clear and from `d(ssss)` when it is set;
/// while they stay below `d32`, exactly those. It takes two bytes.
pub proof fn lemma_decode_pop_vfp(bytes: Seq<u8>, pos: int)
    requires
        0 <= pos < bytes.len(),
        bytes[pos] == 0xc8 || bytes[pos] == 0xc9,
    ensures
        pos + 1 >= bytes.len() ==> decode_step(bytes, pos) == (
            Err::<Instruction, DecodeError>(DecodeError::UnexpectedEnd),
            pos + 1,
        ),
        pos + 1 < bytes.len() ==> {
            let first: nat = (if bytes[pos] == 0xc8 {
                16nat
            } else {
                0nat
            }) + (bytes[pos + 1] / 16) as nat;
            let last: nat = first + (bytes[pos + 1] % 16) as nat;
            &&& decode_step(bytes, pos).1 == pos + 2
            &&& decode_step(bytes, pos).0 matches Ok(Instruction::PopFpRegs(mask)) && (last < 32
                ==> forall|n: nat| n < 32 ==> (#[trigger] mask_bit(mask.0, n) <==> first <= n <= last))
        },
{
    let op = bytes[pos];
    lemma_opcode_classes(op);
    assert(op & 0xfeu8 == 0xc8 && (op & 0x01u8 == 0 <==> op == 0xc8) && op & 0xc0u8 != 0 && op
        & 0xc0u8 != 0x40 && op & 0xf0u8 != 0xa0 && op & 0xf0u8 != 0x80 && op & 0xf0u8 != 0x90)
        by (bit_vector)
        requires
            op == 0xc8 || op == 0xc9,
    ;
    if pos + 1 < bytes.len() {
        let next = bytes[pos + 1];
        assert((next & 0xf0u8) >> 4u8 == next / 16 && next & 0x0fu8 == next % 16) by (bit_vector);
        let first = crate::decode::vfp_first(op, next);
        if first + (next % 16) < 32 {
            assert forall|n: nat| n < 32 implies (#[trigger] mask_bit(
                crate::decode::vfp_pop_mask(op, next),
                n,
            ) <==> first <= n <= first + (next % 16)) by {
                crate::decode::lemma_vfp_pop_mask(op, next, n);
            }
        }
    }
}

/// The opcodes that the bytecode does not define decode as unknown, taking
/// one byte.
pub proof fn lemma_decode_unknown(bytes: Seq<u8>, pos: int)
    requires
        0 <= pos < bytes.len(),
        (0xb3 <= bytes[pos] < 0xc8) || 0xca <= bytes[pos],
    ensures
        decode_step(bytes, pos) == (
            Err::<Instruction, DecodeError>(DecodeError::UnknownOpcode(bytes[pos])),
            pos + 1,
        ),
{
    let op = bytes[pos];
    lemma_opcode_classes(op);
    assert(op & 0xc0u8 != 0 && op & 0xc0u8 != 0x40 && op & 0xf0u8 != 0xa0 && op & 0xf0u8 != 0x80
        && op & 0xf0u8 != 0x90 && op & 0xfeu8 != 0xc8) by (bit_vector)
        requires
            (0xb3 <= op < 0xc8) || 0xca <= op,
    ;
}

} // verus!
