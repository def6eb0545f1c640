//! Decoding of the ARM EHABI unwinding bytecode (section 9.3 of the
//! "Exception Handling ABI for the ARM Architecture").

use crate::regs::{mask_bit, FpRegMask, Reg, RegMask};
use vstd::prelude::*;

verus! {

const EXTAB_OP_ADD_VSP: u8 = 0b0000_0000;
const EXTAB_OP_ADD_VSP_MASK: u8 = 0b1100_0000;
const EXTAB_OP_ADD_VSP_ARG_MASK: u8 = 0b0011_1111;
const EXTAB_OP_ADD_VSP_ULEB128: u8 = 0b1011_0010;
const EXTAB_OP_SUB_VSP: u8 = 0b0100_0000;
const EXTAB_OP_SUB_VSP_MASK: u8 = 0b1100_0000;
const EXTAB_OP_SUB_VSP_ARG_MASK: u8 = 0b0011_1111;
const EXTAB_OP_POP_REGS_SERIAL: u8 = 0b1010_0000;
const EXTAB_OP_POP_REGS_SERIAL_MASK: u8 = 0b1111_0000;
const EXTAB_OP_POP_REGS_SERIAL_ARG_R14_MASK: u8 = 0b0000_1000;
const EXTAB_OP_POP_REGS_SERIAL_ARG_COUNT_MASK: u8 = 0b0000_0111;
const EXTAB_OP_POP_REGS: u8 = 0b1000_0000;
const EXTAB_OP_POP_REGS_MASK: u8 = 0b1111_0000;
const EXTAB_OP_POP_REGS_ARG_MASK: u8 = 0b0000_1111;
const EXTAB_OP_POP_INT_REGS: u8 = 0b1011_0001;
const EXTAB_OP_POP_VFP_REGS: u8 = 0b1100_1000;
const EXTAB_OP_POP_VFP_REGS_MASK: u8 = 0b1111_1110;
const EXTAB_OP_POP_VFP_REGS_ARG_OFFSET_MASK: u8 = 0b0000_0001;
const EXTAB_OP_SET_VSP: u8 = 0b1001_0000;
const EXTAB_OP_SET_VSP_MASK: u8 = 0b1111_0000;
const EXTAB_OP_SET_VSP_ARG_MASK: u8 = 0b0000_1111;
const EXTAB_OP_FINISH: u8 = 0b1011_0000;
const CONTINUATION_BIT: u8 = 0b1000_0000;

/// One unwinding instruction.
#[derive(PartialEq, Eq, Debug, Clone, Copy)]
pub enum Instruction {
    /// `vsp = vsp + offset`
    VspAdd(i32),
    /// `vsp = reg`
    VspSet(Reg),
    /// Pop the core registers of the mask, lowest number first.
    PopRegs(RegMask),
    /// Pop the floating point registers of the mask.
    PopFpRegs(FpRegMask),
    /// End of the bytecode.
    Finish,
    /// The frame cannot be unwound.
    RefuseToUnwind,
}

/// Why a piece of bytecode could not be decoded.
#[derive(PartialEq, Eq, Debug, Clone, Copy)]
pub enum DecodeError {
    UnknownOpcode(u8),
    UnexpectedEnd,
    ReservedInstruction,
    BadUnsignedLeb128,
    OutOfRangeUnsignedLeb128,
}

/// The mask with bits `lo`, `lo + 1`, .., `lo + count - 1` set, each taken
/// modulo 32 (a shift of a 32-bit one wraps around).
pub open spec fn range_bits(lo: nat, count: nat) -> u32
    decreases count,
{
    if count == 0 {
        0u32
    } else {
        range_bits(lo, (count - 1) as nat) | (1u32 << (((lo + count - 1) % 32) as u32))
    }
}

/// The registers popped by `1010 1nnn` / `1010 0nnn`: `r4` to `r(4 + nnn)`,
/// and `r14` when bit 3 is set.
pub open spec fn serial_pop_mask(opcode: u8) -> u16 {
    ((if opcode & 0x08u8 != 0 {
        0x4000u32
    } else {
        0u32
    }) | range_bits(4, ((opcode & 0x07u8) + 1) as nat)) as u16
}

/// The registers popped by `1000 iiii iiii iiii`: `r4` to `r15`, as given
/// by the twelve bits of the mask.
pub open spec fn masked_pop_mask(opcode: u8, next: u8) -> u16 {
    (((next as u32) << 4u32) | (((opcode & 0x0fu8) as u32) << 12u32)) as u16
}

/// The first floating point register popped by `1100 100x sssscccc`.
pub open spec fn vfp_first(opcode: u8, next: u8) -> nat {
    (if opcode & 0x01u8 == 0 {
        16nat
    } else {
        0nat
    }) + ((next & 0xf0u8) >> 4u8) as nat
}

/// The floating point registers popped by `1100 100x sssscccc`: `cccc + 1`
/// registers from the first one on.
pub open spec fn vfp_pop_mask(opcode: u8, next: u8) -> u32 {
    range_bits(vfp_first(opcode, next), ((next & 0x0fu8) + 1) as nat)
}

/// The amount by which `00xxxxxx` adds to, and `01xxxxxx` subtracts from, vsp.
pub open spec fn vsp_step(opcode: u8) -> int {
    4 * ((opcode & 0x3fu8) as int) + 4
}

/// Reads an unsigned LEB128 number from `pos` on, with `shift` bits already
/// read into `acc`: the outcome and the position after the bytes read.
pub open spec fn uleb128_from(bytes: Seq<u8>, pos: int, shift: nat, acc: u64) -> (Result<u64, DecodeError>, int)
    decreases bytes.len() - pos,
{
    if pos < 0 || pos >= bytes.len() {
        (Err(DecodeError::UnexpectedEnd), pos)
    } else {
        let byte = bytes[pos];
        if shift == 63 && byte != 0 && byte != 1 {
            (Err(DecodeError::BadUnsignedLeb128), pos + 1)
        } else {
            let acc2 = acc | (((byte & 0x7fu8) as u64) << (shift as u32));
            if byte & 0x80u8 == 0 {
                (Ok(acc2), pos + 1)
            } else {
                uleb128_from(bytes, pos + 1, shift + 7, acc2)
            }
        }
    }
}

/// The offset that `10110010 uleb128` adds to vsp: `0x204 + (n << 2)`,
/// computed on 32 bits.
pub open spec fn uleb_vsp_offset(n: u64) -> i32 {
    (0x204u32).wrapping_add(((n as u32) << 2u32)) as i32
}

/// A mask of `count` bits from `lo` on, with `lo + count <= 32`, has exactly
/// the bits `lo..lo + count` set.
pub proof fn lemma_range_bits(lo: nat, count: nat, n: nat)
    requires
        lo + count <= 32,
        n < 32,
    ensures
        mask_bit(range_bits(lo, count), n) <==> lo <= n < lo + count,
    decreases count,
{
    if count > 0 {
        lemma_range_bits(lo, (count - 1) as nat, n);
        let rest = range_bits(lo, (count - 1) as nat);
        let k = (lo + count - 1) as u32;
        let nn = n as u32;
        assert(k < 32);
        assert(range_bits(lo, count) == rest | (1u32 << k));
        assert(mask_bit(range_bits(lo, count), n) == (((rest | (1u32 << k)) >> nn) & 1u32 == 1u32));
        assert(mask_bit(rest, n) == (((rest >> nn) & 1u32) == 1u32));
        assert(((rest | (1u32 << k)) >> nn) & 1u32 == 1u32 <==> ((rest >> nn) & 1u32 == 1u32 || nn
            == k)) by (bit_vector)
            requires
                k < 32,
                nn < 32,
        ;
    } else {
        let nn = n as u32;
        assert((0u32 >> nn) & 1u32 != 1u32) by (bit_vector);
    }
}

/// `1010 0nnn` pops `r4` to `r(4 + nnn)`, and `1010 1nnn` pops `r14` as well.
pub proof fn lemma_serial_pop_mask(opcode: u8, r: nat)
    requires
        r < 16,
    ensures
        mask_bit(serial_pop_mask(opcode) as u32, r) <==> (4 <= r <= 4 + (opcode & 0x07u8) || (r
            == 14 && opcode & 0x08u8 != 0)),
{
    let count = ((opcode & 0x07u8) + 1) as nat;
    assert(opcode & 0x07u8 <= 7) by (bit_vector);
    lemma_range_bits(4, count, r);
    let bits = range_bits(4, count);
    let r14: u32 = if opcode & 0x08u8 != 0 {
        0x4000u32
    } else {
        0u32
    };
    let rr = r as u32;
    lemma_range_bits(4, count, 12);
    lemma_range_bits(4, count, 13);
    lemma_range_bits(4, count, 14);
    lemma_range_bits(4, count, 15);
    lemma_high_bits_clear(bits, count);
    assert((((r14 | bits) as u16) as u32 >> rr) & 1u32 == 1u32 <==> ((bits >> rr) & 1u32 == 1u32
        || (rr == 14 && r14 == 0x4000u32))) by (bit_vector)
        requires
            rr < 16,
            r14 == 0x4000u32 || r14 == 0u32,
            bits < 0x1000u32,
    ;
}

proof fn lemma_high_bits_clear(bits: u32, count: nat)
    requires
        1 <= count <= 8,
        bits == range_bits(4, count),
    ensures
        bits < 0x1000u32,
    decreases count,
{
    if count > 1 {
        let rest = range_bits(4, (count - 1) as nat);
        lemma_high_bits_clear(rest, (count - 1) as nat);
        let k = (4 + count - 1) as u32;
        assert(bits == rest | (1u32 << k));
        assert(rest | (1u32 << k) < 0x1000u32) by (bit_vector)
            requires
                rest < 0x1000u32,
                k < 12,
        ;
    } else {
        assert(range_bits(4, 0) == 0u32);
        assert(bits == 0u32 | (1u32 << 4u32));
        assert(0u32 | (1u32 << 4u32) < 0x1000u32) by (bit_vector);
    }
}

/// `1100 100x sssscccc` pops `cccc + 1` floating point registers from the
/// first one on; when they stay below `d32` they are exactly these.
pub proof fn lemma_vfp_pop_mask(opcode: u8, next: u8, n: nat)
    requires
        vfp_first(opcode, next) + (next & 0x0fu8) + 1 <= 32,
        n < 32,
    ensures
        mask_bit(vfp_pop_mask(opcode, next), n) <==> vfp_first(opcode, next) <= n
            <= vfp_first(opcode, next) + (next & 0x0fu8),
{
    lemma_range_bits(vfp_first(opcode, next), ((next & 0x0fu8) + 1) as nat, n);
}

/// Decodes the instruction that starts at `pos` (which lies in `bytes`):
/// the outcome and the position after the bytes read. `10011101` and
/// `10011111` are reserved (register-to-register moves of ARM and MMX).
pub open spec fn decode_step(bytes: Seq<u8>, pos: int) -> (Result<Instruction, DecodeError>, int) {
    let op = bytes[pos];
    let p1 = pos + 1;
    if op & 0xc0u8 == 0x00 {
        (Ok(Instruction::VspAdd(vsp_step(op) as i32)), p1)
    } else if op & 0xc0u8 == 0x40 {
        (Ok(Instruction::VspAdd((-vsp_step(op)) as i32)), p1)
    } else if op & 0xf0u8 == 0xa0 {
        (Ok(Instruction::PopRegs(RegMask(serial_pop_mask(op)))), p1)
    } else if op & 0xf0u8 == 0x80 {
        if p1 >= bytes.len() {
            (Err(DecodeError::UnexpectedEnd), p1)
        } else if bytes[p1] == 0 && op & 0x0fu8 == 0 {
            (Ok(Instruction::RefuseToUnwind), p1 + 1)
        } else {
            (Ok(Instruction::PopRegs(RegMask(masked_pop_mask(op, bytes[p1])))), p1 + 1)
        }
    } else if op == 0xb1 {
        if p1 >= bytes.len() {
            (Err(DecodeError::UnexpectedEnd), p1)
        } else if bytes[p1] == 0 || bytes[p1] & 0xf0u8 != 0 {
            (Err(DecodeError::ReservedInstruction), p1 + 1)
        } else {
            (Ok(Instruction::PopRegs(RegMask(bytes[p1] as u16))), p1 + 1)
        }
    } else if op == 0xb0 {
        (Ok(Instruction::Finish), p1)
    } else if op & 0xf0u8 == 0x90 {
        if op == 0x9d || op == 0x9f {
            (Err(DecodeError::ReservedInstruction), p1)
        } else {
            (Ok(Instruction::VspSet(Reg(op & 0x0fu8))), p1)
        }
    } else if op == 0xb2 {
        let (n, p) = uleb128_from(bytes, p1, 0, 0);
        match n {
            Err(e) => (Err(e), p),
            Ok(n) => if n & !0xffff_ffffu64 != 0 {
                (Err(DecodeError::OutOfRangeUnsignedLeb128), p)
            } else {
                (Ok(Instruction::VspAdd(uleb_vsp_offset(n))), p)
            },
        }
    } else if op & 0xfeu8 == 0xc8 {
        if p1 >= bytes.len() {
            (Err(DecodeError::UnexpectedEnd), p1)
        } else {
            (Ok(Instruction::PopFpRegs(FpRegMask(vfp_pop_mask(op, bytes[p1])))), p1 + 1)
        }
    } else {
        (Err(DecodeError::UnknownOpcode(op)), p1)
    }
}

/// Whether decoding stops after this outcome.
pub open spec fn ends_decoding(r: Result<Instruction, DecodeError>) -> bool {
    r == Ok::<Instruction, DecodeError>(Instruction::Finish) || r == Ok::<
        Instruction,
        DecodeError,
    >(Instruction::RefuseToUnwind)
}

/// Decodes the whole bytecode from `pos` on: the instructions, the position
/// where decoding stopped, and the last error met on the way.
pub open spec fn decode_all(bytes: Seq<u8>, pos: int, done: bool) -> (Seq<Instruction>, int, Option<DecodeError>)
    decreases bytes.len() - pos,
{
    if done || pos < 0 || pos >= bytes.len() {
        (Seq::empty(), pos, None)
    } else {
        let (res, p) = decode_step(bytes, pos);
        if p <= pos || p > bytes.len() {
            (Seq::empty(), pos, None)
        } else {
            let (rest, end, err) = decode_all(bytes, p, ends_decoding(res));
            match res {
                Ok(i) => (seq![i] + rest, end, err),
                Err(e) => (rest, end, if err is Some {
                    err
                } else {
                    Some(e)
                }),
            }
        }
    }
}

/// Decodes a whole piece of bytecode: the instructions, how many bytes were
/// read, and the last error met, if any.
pub fn decode_to_vec(bytecode: &[u8]) -> (out: (Vec<Instruction>, usize, Option<DecodeError>))
    ensures
        (out.0@, out.1 as int, out.2) == decode_all(bytecode@, 0, false),
{
    let mut output: Vec<Instruction> = Vec::new();
    let mut iter = Decoder::new(bytecode);
    let mut error: Option<DecodeError> = None;
    let ghost total = decode_all(bytecode@, 0, false);
    loop
        invariant
            iter.bytes() == bytecode@,
            total == decode_all(bytecode@, 0, false),
            ({
                let rest = decode_all(bytecode@, iter.index() as int, iter.is_done());
                &&& output@ + rest.0 == total.0
                &&& rest.1 == total.1
                &&& total.2 == (if rest.2 is Some {
                    rest.2
                } else {
                    error
                })
            }),
        decreases bytecode@.len() - iter.index(),
    {
        let ghost before = iter.index() as int;
        let ghost was_done = iter.is_done();
        match iter.next() {
            Some(instruction) => {
                proof {
                    lemma_decode_step_progress(bytecode@, before);
                }
                match instruction {
                    Ok(instruction) => {
                        proof {
                            let rest = decode_all(bytecode@, iter.index() as int, iter.is_done());
                            assert(output@.push(instruction) + rest.0 =~= output@ + (seq![instruction] + rest.0));
                        }
                        output.push(instruction);
                    },
                    Err(err) => error = Some(err),
                }
            },
            None => {
                proof {
                    assert(output@ =~= total.0);
                }
                return (output, iter.position(), error);
            },
        }
    }
}

/// Decodes a piece of bytecode, one instruction at a time.
pub struct Decoder<'a> {
    bytecode: &'a [u8],
    index: usize,
    is_done: bool,
}

proof fn lemma_uleb128_progress(bytes: Seq<u8>, pos: int, shift: nat, acc: u64)
    requires
        0 <= pos,
    ensures
        pos < uleb128_from(bytes, pos, shift, acc).1 <= bytes.len() || (pos >= bytes.len()
            && uleb128_from(bytes, pos, shift, acc).1 == pos),
    decreases bytes.len() - pos,
{
    if pos < bytes.len() {
        lemma_uleb128_progress(bytes, pos + 1, shift + 7, acc | (((bytes[pos] & 0x7fu8) as u64) << (shift as u32)));
    }
}

/// Each instruction takes at least one byte, and no more than the bytecode holds.
pub proof fn lemma_decode_step_progress(bytes: Seq<u8>, pos: int)
    requires
        0 <= pos < bytes.len(),
    ensures
        pos < decode_step(bytes, pos).1 <= bytes.len(),
{
    lemma_uleb128_progress(bytes, pos + 1, 0, 0);
}

/// The mask `range_bits(lo, count)`.
fn range_mask(lo: u8, count: u8) -> (m: u32)
    requires
        lo + count <= 255,
    ensures
        m == range_bits(lo as nat, count as nat),
{
    let mut m: u32 = 0;
    let mut n: u8 = lo;
    let end: u8 = lo + count;
    while n < end
        invariant
            lo <= n <= end,
            end == lo + count,
            m == range_bits(lo as nat, (n - lo) as nat),
        decreases end - n,
    {
        m = m | 1u32.wrapping_shl(n as u32);
        n = n + 1;
    }
    m
}

impl<'a> Decoder<'a> {
    #[verifier::type_invariant]
    spec fn inv(self) -> bool {
        self.index <= self.bytecode@.len()
    }

    /// The bytecode being decoded.
    pub closed spec fn bytes(self) -> Seq<u8> {
        self.bytecode@
    }

    /// How many bytes have been read.
    pub closed spec fn index(self) -> nat {
        self.index as nat
    }

    /// Whether the bytecode has reached its end (`Finish` or `RefuseToUnwind`).
    pub closed spec fn is_done(self) -> bool {
        self.is_done
    }

    pub fn new(bytecode: &'a [u8]) -> (d: Self)
        ensures
            d.bytes() == bytecode@,
            d.index() == 0,
            !d.is_done(),
    {
        Decoder { bytecode, index: 0, is_done: false }
    }

    /// How many bytes have been read.
    pub fn position(&self) -> (n: usize)
        ensures
            n == self.index(),
    {
        self.index
    }

    /// Decodes the next instruction; `None` once the bytecode is used up or
    /// has ended with `Finish` or `RefuseToUnwind`.
    pub fn next(&mut self) -> (r: Option<Result<Instruction, DecodeError>>)
        ensures
            final(self).bytes() == old(self).bytes(),
            old(self).is_done() || old(self).index() >= old(self).bytes().len() ==> {
                &&& r is None
                &&& final(self).index() == old(self).index()
                &&& final(self).is_done() == old(self).is_done()
            },
            !(old(self).is_done() || old(self).index() >= old(self).bytes().len()) ==> {
                let (res, p) = decode_step(old(self).bytes(), old(self).index() as int);
                &&& r == Some(res)
                &&& final(self).index() == p
                &&& final(self).is_done() == ends_decoding(res)
            },
    {
        proof {
            use_type_invariant(&*self);
        }
        if self.is_done {
            return None;
        }
        if self.index >= self.bytecode.len() {
            return None;
        }
        let opcode = self.bytecode[self.index];
        self.index = self.index + 1;
        let ghost p1 = self.index as int;
        let instruction = if opcode & EXTAB_OP_ADD_VSP_MASK == EXTAB_OP_ADD_VSP {
            assert(((opcode & 0x3fu8) as u32) << 2u32 == 4 * ((opcode & 0x3fu8) as u32)
                && (opcode & 0x3fu8) <= 63) by (bit_vector);
            let offset = (((opcode & EXTAB_OP_ADD_VSP_ARG_MASK) as u32) << 2) + 4;
            Instruction::VspAdd(offset as i32)
        } else if opcode & EXTAB_OP_SUB_VSP_MASK == EXTAB_OP_SUB_VSP {
            assert(((opcode & 0x3fu8) as u32) << 2u32 == 4 * ((opcode & 0x3fu8) as u32)
                && (opcode & 0x3fu8) <= 63) by (bit_vector);
            let offset = (((opcode & EXTAB_OP_SUB_VSP_ARG_MASK) as u32) << 2) + 4;
            assert(offset <= 256);
            Instruction::VspAdd(-(offset as i32))
        } else if opcode & EXTAB_OP_POP_REGS_SERIAL_MASK == EXTAB_OP_POP_REGS_SERIAL {
            // This pops r4 and the `extra_regs` registers after it, and r14 if flagged.
            let extra_regs = opcode & EXTAB_OP_POP_REGS_SERIAL_ARG_COUNT_MASK;
            let pop_r14 = opcode & EXTAB_OP_POP_REGS_SERIAL_ARG_R14_MASK != 0;
            let mut mask: u32 = 0;
            if pop_r14 {
                mask = mask | (1 << 14);
            }
            assert(0u32 | (1u32 << 14u32) == 0x4000u32) by (bit_vector);
            assert(opcode & 0x07u8 <= 7) by (bit_vector);
            mask = mask | range_mask(4, extra_regs + 1);
            Instruction::PopRegs(RegMask(mask as u16))
        } else if opcode & EXTAB_OP_POP_REGS_MASK == EXTAB_OP_POP_REGS {
            // This pops the registers given by the mask, from r4 up to r15.
            let regs_2 = opcode & EXTAB_OP_POP_REGS_ARG_MASK;
            assert(opcode & 0x0fu8 <= 15) by (bit_vector);
            if self.index >= self.bytecode.len() {
                return Some(Err(DecodeError::UnexpectedEnd));
            }
            let regs_1 = self.bytecode[self.index];
            self.index = self.index + 1;
            if regs_1 == 0 && regs_2 == 0 {
                self.is_done = true;
                Instruction::RefuseToUnwind
            } else {
                let mask = ((regs_1 as u16) << 4) | ((regs_2 as u16) << 12);
                assert(mask == (((regs_1 as u32) << 4u32) | ((regs_2 as u32) << 12u32)) as u16)
                    by (bit_vector)
                    requires
                        regs_2 <= 15,
                        mask == ((regs_1 as u16) << 4u16) | ((regs_2 as u16) << 12u16),
                ;
                Instruction::PopRegs(RegMask(mask))
            }
        } else if opcode == EXTAB_OP_POP_INT_REGS {
            if self.index >= self.bytecode.len() {
                return Some(Err(DecodeError::UnexpectedEnd));
            }
            let regs = self.bytecode[self.index];
            self.index = self.index + 1;
            if regs == 0 || regs & 0b1111_0000 != 0 {
                return Some(Err(DecodeError::ReservedInstruction));
            }
            Instruction::PopRegs(RegMask(regs as u16))
        } else if opcode == EXTAB_OP_FINISH {
            self.is_done = true;
            Instruction::Finish
        } else if opcode & EXTAB_OP_SET_VSP_MASK == EXTAB_OP_SET_VSP {
            let nth_reg = opcode & EXTAB_OP_SET_VSP_ARG_MASK;
            if opcode == 0b10011101 {
                // Reserved for ARM register-to-register moves.
                return Some(Err(DecodeError::ReservedInstruction));
            } else if opcode == 0b10011111 {
                // Reserved for MMX register-to-register moves.
                return Some(Err(DecodeError::ReservedInstruction));
            }
            Instruction::VspSet(Reg(nth_reg))
        } else if opcode == EXTAB_OP_ADD_VSP_ULEB128 {
            let result = match self.read_uleb128() {
                Ok(result) => result,
                Err(err) => return Some(Err(err)),
            };
            if result & !0xffff_ffffu64 != 0 {
                return Some(Err(DecodeError::OutOfRangeUnsignedLeb128));
            }
            let result = result as u32;
            let offset = 0x204u32.wrapping_add(result << 2);
            Instruction::VspAdd(offset as i32)
        } else if opcode & EXTAB_OP_POP_VFP_REGS_MASK == EXTAB_OP_POP_VFP_REGS {
            let offset_1: u8 = if opcode & EXTAB_OP_POP_VFP_REGS_ARG_OFFSET_MASK == 0 {
                16
            } else {
                0
            };
            if self.index >= self.bytecode.len() {
                return Some(Err(DecodeError::UnexpectedEnd));
            }
            let byte = self.bytecode[self.index];
            self.index = self.index + 1;
            let offset_2 = (byte & 0b1111_0000) >> 4;
            assert((byte & 0xf0u8) >> 4u8 <= 15 && byte & 0x0fu8 <= 15) by (bit_vector);
            let offset = offset_1 + offset_2;
            let extra_count = byte & 0b0000_1111;
            let regs = range_mask(offset, extra_count + 1);
            Instruction::PopFpRegs(FpRegMask(regs))
        } else {
            return Some(Err(DecodeError::UnknownOpcode(opcode)));
        };
        Some(Ok(instruction))
    }

    fn read_uleb128(&mut self) -> (r: Result<u64, DecodeError>)
        ensures
            final(self).bytes() == old(self).bytes(),
            final(self).is_done() == old(self).is_done(),
            (r, final(self).index() as int) == uleb128_from(old(self).bytes(), old(self).index() as int, 0, 0),
    {
        proof {
            use_type_invariant(&*self);
        }
        let mut result: u64 = 0;
        let mut shift: u32 = 0;
        loop
            invariant
                self.bytecode == old(self).bytecode,
                self.is_done == old(self).is_done,
                self.index <= self.bytecode@.len(),
                shift <= 63,
                shift % 7 == 0,
                uleb128_from(self.bytecode@, self.index as int, shift as nat, result) == uleb128_from(
                    old(self).bytecode@,
                    old(self).index as int,
                    0,
                    0,
                ),
            decreases self.bytecode@.len() - self.index,
        {
            if self.index >= self.bytecode.len() {
                return Err(DecodeError::UnexpectedEnd);
            }
            let byte = self.bytecode[self.index];
            self.index = self.index + 1;
            if shift == 63 && byte != 0 && byte != 1 {
                return Err(DecodeError::BadUnsignedLeb128);
            }
            assert(byte & !0x80u8 == byte & 0x7fu8) by (bit_vector);
            let low_bits = (byte & !CONTINUATION_BIT) as u64;
            result = result | (low_bits << shift);
            if byte & CONTINUATION_BIT == 0 {
                return Ok(result);
            }
            assert(byte == 0 || byte == 1 ==> byte & 0x80u8 == 0) by (bit_vector);
            shift = shift + 7;
        }
    }
}

} // verus!
