//! The virtual machine that runs the unwinding bytecode, and the unwinding of
//! one frame through the `.ARM.exidx` and `.ARM.extab` sections.

use crate::decode::{
    decode_step, ends_decoding, lemma_decode_step_progress, DecodeError, Decoder, Instruction,
};
use crate::bytecode::{bytecode_stream, collect_bytecode};
use crate::bytes::{lemma_wrap_u32_add, le_u32, read_u32_le, wrap_u32};
use crate::exidx::{
    entry_count, entry_value, exidx_offset, exidx_offset_spec, find_entry, find_entry_spec,
    lemma_search_index_in_range, IndexEntry,
};
use crate::registers::{
    get_register, lookup_register, reg_value, DwarfRegs, MemoryReader, R13, R14, R15,
    REGISTER_COUNT,
};
use crate::regs::{lemma_set_bits_from, mask_bit, set_bits_from, Reg};
use vstd::prelude::*;
use vstd::slice::slice_subrange;
use vstd::std_specs::convert::FromSpecImpl;

verus! {

/// Why a frame could not be unwound.
#[derive(PartialEq, Eq, Debug, Clone, Copy)]
pub enum Error {
    EndOfStack,
    DecodeError(DecodeError),
    MemoryUnaccessible { address: u32 },
    UnsupportedPersonality(u8),
    MissingRegisterValue(Reg),
    UnwindingFailed,
    UnwindInfoMissing,
}

impl From<DecodeError> for Error {
    fn from(err: DecodeError) -> (r: Self) {
        Error::DecodeError(err)
    }
}

impl FromSpecImpl<DecodeError> for Error {
    open spec fn obeys_from_spec() -> bool {
        true
    }

    open spec fn from_spec(v: DecodeError) -> Self {
        Error::DecodeError(v)
    }
}

/// The state of the machine after popping the registers `to_pop`, in order,
/// from the stack at `vsp`: vsp, the registers, the mask of registers set,
/// and the outcome.
pub open spec fn pop_regs_spec<M: MemoryReader>(
    memory: &M,
    vsp: u32,
    regs: Seq<Option<u64>>,
    modified: u32,
    to_pop: Seq<u8>,
) -> (u32, Seq<Option<u64>>, u32, Result<(), Error>)
    decreases to_pop.len(),
{
    if to_pop.len() == 0 {
        (vsp, regs, modified, Ok(()))
    } else {
        let reg = to_pop[0];
        match memory.pointer_at(vsp as u64) {
            Some(value) => pop_regs_spec(
                memory,
                vsp.wrapping_add(4),
                regs.update(reg as int, Some(value)),
                modified | (1u32 << reg),
                to_pop.drop_first(),
            ),
            None => (vsp, regs, modified, Err(Error::MemoryUnaccessible { address: vsp })),
        }
    }
}

/// The address of word `i` of the stack at `vsp`.
pub open spec fn stack_word(vsp: u32, i: int) -> u64 {
    wrap_u32(vsp + 4 * i) as u64
}

proof fn lemma_stack_word_next(vsp: u32, i: int)
    ensures
        stack_word(vsp.wrapping_add(4), i) == stack_word(vsp, i + 1),
{
    lemma_wrap_u32_add(vsp + 4, 4 * i);
}

proof fn lemma_pop_regs_shape<M: MemoryReader>(
    memory: &M,
    vsp: u32,
    regs: Seq<Option<u64>>,
    modified: u32,
    to_pop: Seq<u8>,
)
    requires
        forall|i: int| 0 <= i < to_pop.len() ==> to_pop[i] < regs.len() && to_pop[i] < 32,
    ensures
        ({
            let (vsp2, regs2, modified2, out) = pop_regs_spec(memory, vsp, regs, modified, to_pop);
            &&& regs2.len() == regs.len()
            &&& forall|x: nat| x < 32 && mask_bit(modified, x) ==> mask_bit(modified2, x)
            &&& out is Ok <==> forall|i: int|
                0 <= i < to_pop.len() ==> (#[trigger] memory.pointer_at(stack_word(vsp, i))) is Some
            &&& out is Ok ==> vsp2 == wrap_u32(vsp + 4 * to_pop.len())
        }),
    decreases to_pop.len(),
{
    if to_pop.len() == 0 {
        assert(wrap_u32(vsp + 0) == vsp);
    } else {
        let reg = to_pop[0];
        let rest = to_pop.drop_first();
        assert(stack_word(vsp, 0) == vsp as u64);
        if memory.pointer_at(vsp as u64) is Some {
            let value = memory.pointer_at(vsp as u64)->0;
            let vsp1 = vsp.wrapping_add(4);
            let modified1 = modified | (1u32 << reg);
            lemma_pop_regs_shape(memory, vsp1, regs.update(reg as int, Some(value)), modified1, rest);
            let modified2 = pop_regs_spec(memory, vsp, regs, modified, to_pop).2;
            assert forall|x: nat| x < 32 && mask_bit(modified, x) implies mask_bit(modified2, x) by {
                lemma_mask_bit_kept(modified, reg as u32, x as u32);
            }
            assert forall|i: int| 0 <= i < rest.len() implies #[trigger] stack_word(vsp1, i)
                == stack_word(vsp, i + 1) by {
                lemma_stack_word_next(vsp, i);
            }
            lemma_wrap_u32_add(vsp + 4, 4 * rest.len() as int);
            if pop_regs_spec(memory, vsp, regs, modified, to_pop).3 is Ok {
                assert forall|i: int| 0 <= i < to_pop.len() implies (#[trigger] memory.pointer_at(
                    stack_word(vsp, i),
                )) is Some by {
                    if i > 0 {
                        assert(stack_word(vsp1, i - 1) == stack_word(vsp, i));
                    }
                }
            } else {
                let k = choose|k: int|
                    0 <= k < rest.len() && !(#[trigger] memory.pointer_at(stack_word(vsp1, k))
                        is Some);
                assert(memory.pointer_at(stack_word(vsp, k + 1)) is None);
            }
        }
    }
}

proof fn lemma_pop_regs_untouched<M: MemoryReader>(
    memory: &M,
    vsp: u32,
    regs: Seq<Option<u64>>,
    modified: u32,
    to_pop: Seq<u8>,
    r: int,
)
    requires
        0 <= r < regs.len(),
        r < 256,
        forall|i: int| 0 <= i < to_pop.len() ==> to_pop[i] < regs.len(),
        !to_pop.contains(r as u8),
    ensures
        pop_regs_spec(memory, vsp, regs, modified, to_pop).1[r] == regs[r],
    decreases to_pop.len(),
{
    if to_pop.len() > 0 {
        let reg = to_pop[0];
        let rest = to_pop.drop_first();
        if rest.contains(r as u8) {
            let k = choose|k: int| 0 <= k < rest.len() && rest[k] == r as u8;
            assert(to_pop[k + 1] == r as u8);
        }
        if r == reg as int {
            assert(to_pop[0] == r as u8);
        }
        if memory.pointer_at(vsp as u64) is Some {
            let value = memory.pointer_at(vsp as u64)->0;
            lemma_pop_regs_untouched(
                memory,
                vsp.wrapping_add(4),
                regs.update(reg as int, Some(value)),
                modified | (1u32 << reg),
                rest,
                r,
            );
        }
    }
}

proof fn lemma_pop_regs_values<M: MemoryReader>(
    memory: &M,
    vsp: u32,
    regs: Seq<Option<u64>>,
    modified: u32,
    to_pop: Seq<u8>,
    i: int,
)
    requires
        forall|a: int, b: int| 0 <= a < b < to_pop.len() ==> to_pop[a] < to_pop[b],
        forall|a: int| 0 <= a < to_pop.len() ==> to_pop[a] < regs.len() && to_pop[a] < 32,
        0 <= i < to_pop.len(),
        pop_regs_spec(memory, vsp, regs, modified, to_pop).3 is Ok,
    ensures
        ({
            let (vsp2, regs2, modified2, out) = pop_regs_spec(memory, vsp, regs, modified, to_pop);
            &&& regs2[to_pop[i] as int] == memory.pointer_at(stack_word(vsp, i))
            &&& mask_bit(modified2, to_pop[i] as nat)
        }),
    decreases to_pop.len(),
{
    let reg = to_pop[0];
    let rest = to_pop.drop_first();
    let value = memory.pointer_at(vsp as u64)->0;
    let vsp1 = vsp.wrapping_add(4);
    let regs1 = regs.update(reg as int, Some(value));
    let modified1 = modified | (1u32 << reg);
    assert(stack_word(vsp, 0) == vsp as u64);
    if i == 0 {
        assert(!rest.contains(reg)) by {
            if rest.contains(reg) {
                let k = choose|k: int| 0 <= k < rest.len() && rest[k] == reg;
                assert(to_pop[k + 1] == reg);
            }
        }
        lemma_pop_regs_untouched(memory, vsp1, regs1, modified1, rest, reg as int);
        lemma_mask_bit_or(modified, reg as u32);
        lemma_pop_regs_shape(memory, vsp1, regs1, modified1, rest);
    } else {
        lemma_pop_regs_values(memory, vsp1, regs1, modified1, rest, i - 1);
        lemma_stack_word_next(vsp, i - 1);
    }
}

/// Popping registers reads them, in order, from consecutive words of the
/// stack, the first one at vsp. It succeeds exactly when all those words
/// can be read; vsp then lies past them, each register holds its word and
/// is marked as restored, and the other registers are left alone.
pub proof fn lemma_pop_regs<M: MemoryReader>(
    memory: &M,
    vsp: u32,
    regs: Seq<Option<u64>>,
    modified: u32,
    to_pop: Seq<u8>,
)
    requires
        regs.len() == REGISTER_COUNT,
        forall|i: int, j: int| 0 <= i < j < to_pop.len() ==> to_pop[i] < to_pop[j],
        forall|i: int| 0 <= i < to_pop.len() ==> to_pop[i] < regs.len(),
    ensures
        ({
            let (vsp2, regs2, modified2, out) = pop_regs_spec(memory, vsp, regs, modified, to_pop);
            &&& regs2.len() == regs.len()
            &&& out is Ok <==> forall|i: int|
                0 <= i < to_pop.len() ==> (#[trigger] memory.pointer_at(stack_word(vsp, i))) is Some
            &&& out is Ok ==> {
                &&& vsp2 == wrap_u32(vsp + 4 * to_pop.len())
                &&& forall|i: int|
                    0 <= i < to_pop.len() ==> regs2[to_pop[i] as int] == memory.pointer_at(
                        stack_word(vsp, i),
                    ) && mask_bit(modified2, to_pop[i] as nat)
            }
            &&& forall|r: int|
                0 <= r < regs.len() && !to_pop.contains(r as u8) ==> regs2[r] == regs[r]
        }),
{
    lemma_pop_regs_shape(memory, vsp, regs, modified, to_pop);
    let (vsp2, regs2, modified2, out) = pop_regs_spec(memory, vsp, regs, modified, to_pop);
    if out is Ok {
        assert forall|i: int| 0 <= i < to_pop.len() implies regs2[to_pop[i] as int]
            == memory.pointer_at(stack_word(vsp, i)) && mask_bit(modified2, to_pop[i] as nat) by {
            lemma_pop_regs_values(memory, vsp, regs, modified, to_pop, i);
        }
    }
    assert forall|r: int| 0 <= r < regs.len() && !to_pop.contains(r as u8) implies regs2[r]
        == regs[r] by {
        lemma_pop_regs_untouched(memory, vsp, regs, modified, to_pop, r);
    }
}

proof fn lemma_mask_bit_or(modified: u32, r: u32)
    requires
        r < 32,
    ensures
        mask_bit(modified | (1u32 << r), r as nat),
{
    assert(((modified | (1u32 << r)) >> r) & 1u32 == 1u32) by (bit_vector)
        requires
            r < 32,
    ;
}

proof fn lemma_mask_bit_kept(modified: u32, r: u32, x: u32)
    requires
        r < 32,
        x < 32,
    ensures
        mask_bit(modified, x as nat) ==> mask_bit(modified | (1u32 << r), x as nat),
{
    assert(((modified >> x) & 1u32 == 1u32) ==> (((modified | (1u32 << r)) >> x) & 1u32 == 1u32))
        by (bit_vector)
        requires
            r < 32,
            x < 32,
    ;
}

/// The state of the machine after one instruction: vsp, the registers, the
/// mask of registers set, and the outcome.
pub open spec fn execute_spec<M: MemoryReader>(
    memory: &M,
    previous_regs: Seq<Option<u64>>,
    vsp: u32,
    regs: Seq<Option<u64>>,
    modified: u32,
    instruction: Instruction,
) -> (u32, Seq<Option<u64>>, u32, Result<(), Error>) {
    match instruction {
        Instruction::VspAdd(offset) => (vsp.wrapping_add_signed(offset), regs, modified, Ok(())),
        Instruction::VspSet(reg) => match lookup_register(previous_regs, regs, reg.0 as int) {
            Some(value) => (value as u32, regs, modified, Ok(())),
            None => (vsp, regs, modified, Err(Error::MissingRegisterValue(reg))),
        },
        Instruction::PopRegs(mask) => pop_regs_spec(
            memory,
            vsp,
            regs,
            modified,
            set_bits_from(mask.0 as u32, 0, 16),
        ),
        Instruction::Finish => (vsp, regs, modified, Ok(())),
        Instruction::PopFpRegs(mask) => (
            wrap_u32(vsp + 8 * set_bits_from(mask.0, 0, 32).len()),
            regs,
            modified,
            Ok(()),
        ),
        Instruction::RefuseToUnwind => (vsp, regs, modified, Err(Error::EndOfStack)),
    }
}

/// The state of the machine after running the bytecode `bytes` from `pos`
/// on: vsp, the registers, the mask of registers set, and the outcome.
pub open spec fn run_spec<M: MemoryReader>(
    memory: &M,
    previous_regs: Seq<Option<u64>>,
    bytes: Seq<u8>,
    pos: int,
    done: bool,
    vsp: u32,
    regs: Seq<Option<u64>>,
    modified: u32,
) -> (u32, Seq<Option<u64>>, u32, Result<(), Error>)
    decreases bytes.len() - pos,
{
    if done || pos < 0 || pos >= bytes.len() {
        (vsp, regs, modified, Ok(()))
    } else {
        let (res, p) = decode_step(bytes, pos);
        if p <= pos || p > bytes.len() {
            (vsp, regs, modified, Ok(()))
        } else {
            match res {
                Err(e) => (vsp, regs, modified, Err(Error::DecodeError(e))),
                Ok(instruction) => {
                    let (vsp2, regs2, modified2, out) = execute_spec(
                        memory,
                        previous_regs,
                        vsp,
                        regs,
                        modified,
                        instruction,
                    );
                    if out is Err {
                        (vsp2, regs2, modified2, out)
                    } else {
                        run_spec(
                            memory,
                            previous_regs,
                            bytes,
                            p,
                            ends_decoding(res),
                            vsp2,
                            regs2,
                            modified2,
                        )
                    }
                },
            }
        }
    }
}

/// The entry value that marks a function that cannot be unwound.
pub const EXIDX_CANTUNWIND: u32 = 0x1;

/// The bit of an entry value that says its bytecode is held inline.
pub const EXIDX_INLINE_MASK: u32 = 0x8000_0000;

const EXTAB_HEADER_MODEL_MASK: u32 = 0b1000_0000_0000_0000_0000_0000_0000_0000;
const EXTAB_HEADER_DATA_MASK: u32 = 0b0000_0000_1111_1111_1111_1111_1111_1111;
const EXTAB_HEADER_PERSONALITY_ROUTINE_MASK: u32 = 0b0000_1111_0000_0000_0000_0000_0000_0000;
const EXTAB_HEADER_PERSONALITY_ROUTINE_SHIFT: u32 = 24;

/// The caller's program counter for the link register `lr`: `lr` with its
/// Thumb bit cleared.
pub open spec fn return_address(lr: u64) -> u64 {
    lr & !1u64
}

/// `regs` with every register that `previous_regs` knows, but the program
/// counter, copied over.
pub open spec fn carry_over(previous_regs: Seq<Option<u64>>, regs: Seq<Option<u64>>) -> Seq<
    Option<u64>,
> {
    Seq::new(
        regs.len(),
        |i: int|
            if i != R15 && reg_value(previous_regs, i) is Some {
                reg_value(previous_regs, i)
            } else {
                regs[i]
            },
    )
}

/// The last step of unwinding a frame: the program counter becomes the
/// return address and the stack pointer becomes vsp, unless the return
/// address is the current program counter and the link register was not
/// restored, which means no progress. `None` when the link register or the
/// current program counter is unknown.
pub open spec fn finish_frame_spec(
    previous_regs: Seq<Option<u64>>,
    regs: Seq<Option<u64>>,
    vsp: u32,
    r14_modified: bool,
) -> Option<(Seq<Option<u64>>, Result<(), Error>)> {
    match lookup_register(previous_regs, regs, R14 as int) {
        None => None,
        Some(lr) => match reg_value(previous_regs, R15 as int) {
            None => None,
            Some(pc) => if pc == return_address(lr) && !r14_modified {
                Some((regs, Err(Error::UnwindingFailed)))
            } else {
                Some(
                    (
                        regs.update(R15 as int, Some(return_address(lr))).update(
                            R13 as int,
                            Some(vsp as u64),
                        ),
                        Ok(()),
                    ),
                )
            },
        },
    }
}

/// Unwinding a frame whose address has no entry: only the first frame can
/// be unwound then, by returning through the link register. `None` when
/// the link register or the current program counter is unknown.
pub open spec fn no_entry_spec(
    previous_regs: Seq<Option<u64>>,
    regs: Seq<Option<u64>>,
    is_first_frame: bool,
) -> Option<(Seq<Option<u64>>, Result<(), Error>)> {
    if !is_first_frame {
        Some((regs, Err(Error::UnwindInfoMissing)))
    } else {
        match lookup_register(previous_regs, regs, R14 as int) {
            None => None,
            Some(lr) => match reg_value(previous_regs, R15 as int) {
                None => None,
                Some(pc) => if pc == return_address(lr) {
                    Some((regs, Err(Error::UnwindingFailed)))
                } else {
                    Some(
                        (
                            carry_over(previous_regs, regs).update(
                                R15 as int,
                                Some(return_address(lr)),
                            ),
                            Ok(()),
                        ),
                    )
                },
            },
        }
    }
}

/// The address of the `.ARM.extab` entry that the value of index entry
/// `index` points to.
pub open spec fn extab_address_spec(exidx: Seq<u8>, exidx_base: u32, index: int) -> u32 {
    wrap_u32(exidx_offset_spec(exidx_base, index as u32, entry_value(exidx, index)) + 4)
}

/// The bytecode of index entry `index`: held inline in the entry, or in its
/// `.ARM.extab` entry (generic model, or the compact model with personality
/// routine 1). `None` when the entry points outside `extab`.
pub open spec fn entry_bytecode(
    exidx: Seq<u8>,
    extab: Seq<u8>,
    exidx_base: u32,
    extab_base: u32,
    index: int,
) -> Option<Result<Seq<u8>, Error>> {
    let value = entry_value(exidx, index);
    if value & EXIDX_INLINE_MASK != 0 {
        Some(Ok(bytecode_stream(value & !EXIDX_INLINE_MASK, 1, Seq::empty())))
    } else {
        let offset = wrap_u32(extab_address_spec(exidx, exidx_base, index) - extab_base);
        if offset > extab.len() {
            None
        } else {
            Some(extab_entry_bytecode(extab.skip(offset as int)))
        }
    }
}

/// The bytecode of the `.ARM.extab` entry that starts `bytes`: generic
/// model, or the compact model with personality routine 1.
pub open spec fn extab_entry_bytecode(bytes: Seq<u8>) -> Result<Seq<u8>, Error> {
    let too_short = Err(Error::DecodeError(DecodeError::UnexpectedEnd));
    if bytes.len() < 4 {
        too_short
    } else {
        let header = le_u32(bytes);
        if header & 0x8000_0000u32 == 0 {
            if bytes.len() < 8 {
                too_short
            } else {
                let data = le_u32(bytes.skip(4));
                let count = ((data >> 24u32) & 0xffu32) as int;
                if bytes.len() < 8 + 4 * count {
                    too_short
                } else {
                    Ok(bytecode_stream(data, 1, bytes.subrange(8, 8 + 4 * count)))
                }
            }
        } else {
            let personality = (header & 0x0f00_0000u32) >> 24u32;
            if personality == 1 {
                let data = header & 0x00ff_ffffu32;
                let count = ((data >> 16u32) & 0xffu32) as int;
                if bytes.len() < 4 + 4 * count {
                    too_short
                } else {
                    Ok(bytecode_stream(data, 2, bytes.subrange(4, 4 + 4 * count)))
                }
            } else {
                Err(Error::UnsupportedPersonality(personality as u8))
            }
        }
    }
}

/// What unwinding a frame does: the machine's vsp, the start address of the
/// function found, the register file of the caller, and the outcome.
/// `panics` is set where the unwinding would fail on a missing register
/// (link register or program counter), on an `.ARM.extab` offset past the
/// end of the section, or on an index table too short to hold one entry.
pub struct UnwindOutcome {
    pub panics: bool,
    pub vsp: u32,
    pub initial_address: Option<u32>,
    pub regs: Seq<Option<u64>>,
    pub result: Result<(), Error>,
}

/// The outcome of a step that changed nothing but vsp, the start address
/// and the registers.
pub open spec fn outcome(
    vsp: u32,
    initial_address: Option<u32>,
    step: Option<(Seq<Option<u64>>, Result<(), Error>)>,
    regs: Seq<Option<u64>>,
) -> UnwindOutcome {
    match step {
        None => UnwindOutcome { panics: true, vsp, initial_address, regs, result: Ok(()) },
        Some((regs2, result)) => UnwindOutcome {
            panics: false,
            vsp,
            initial_address,
            regs: regs2,
            result,
        },
    }
}

/// Unwinding one frame whose program counter is `address`, given the
/// caller-visible state before the call.
pub open spec fn unwind_spec<M: MemoryReader>(
    memory: &M,
    previous_regs: Seq<Option<u64>>,
    regs: Seq<Option<u64>>,
    vsp: u32,
    initial_address: Option<u32>,
    exidx: Seq<u8>,
    extab: Seq<u8>,
    exidx_base: u32,
    extab_base: u32,
    address: u32,
    is_first_frame: bool,
) -> UnwindOutcome {
    if address == 0 || exidx.len() == 0 {
        outcome(vsp, initial_address, Some((regs, Err(Error::UnwindInfoMissing))), regs)
    } else if entry_count(exidx) == 0 {
        outcome(vsp, initial_address, None, regs)
    } else {
        let target = if is_first_frame {
            address
        } else {
            (address - 1) as u32
        };
        match find_entry_spec(exidx, exidx_base, target) {
            None => outcome(
                vsp,
                initial_address,
                no_entry_spec(previous_regs, regs, is_first_frame),
                regs,
            ),
            Some((index, start, _end)) => unwind_entry_spec(
                memory,
                previous_regs,
                regs,
                vsp,
                exidx,
                extab,
                exidx_base,
                extab_base,
                address,
                is_first_frame,
                index,
                start,
            ),
        }
    }
}

/// Unwinding one frame through index entry `index`, whose function starts
/// at `start`.
pub open spec fn unwind_entry_spec<M: MemoryReader>(
    memory: &M,
    previous_regs: Seq<Option<u64>>,
    regs: Seq<Option<u64>>,
    vsp: u32,
    exidx: Seq<u8>,
    extab: Seq<u8>,
    exidx_base: u32,
    extab_base: u32,
    address: u32,
    is_first_frame: bool,
    index: int,
    start: u32,
) -> UnwindOutcome {
    let initial = Some(start);
    if entry_value(exidx, index) == EXIDX_CANTUNWIND {
        outcome(vsp, initial, Some((regs, Err(Error::EndOfStack))), regs)
    } else {
        match reg_value(previous_regs, R13 as int) {
            None => outcome(
                vsp,
                initial,
                Some((regs, Err(Error::MissingRegisterValue(Reg(13))))),
                regs,
            ),
            Some(sp) => {
                let vsp1 = sp as u32;
                if is_first_frame && address == start {
                    outcome(vsp1, initial, finish_frame_spec(previous_regs, regs, vsp1, false), regs)
                } else {
                    match entry_bytecode(exidx, extab, exidx_base, extab_base, index) {
                        None => outcome(vsp1, initial, None, regs),
                        Some(Err(e)) => outcome(vsp1, initial, Some((regs, Err(e))), regs),
                        Some(Ok(bytecode)) => {
                            let (vsp2, regs2, modified, out) = run_spec(
                                memory,
                                previous_regs,
                                bytecode,
                                0,
                                false,
                                vsp1,
                                regs,
                                0,
                            );
                            if out is Err {
                                outcome(vsp2, initial, Some((regs2, out)), regs2)
                            } else {
                                outcome(
                                    vsp2,
                                    initial,
                                    finish_frame_spec(
                                        previous_regs,
                                        regs2,
                                        vsp2,
                                        modified & 0x4000u32 != 0,
                                    ),
                                    regs2,
                                )
                            }
                        },
                    }
                }
            },
        }
    }
}

/// Sets the program counter to the return address and the stack pointer
/// to `vsp`, unless that would make no progress.
fn finish_frame(previous_regs: &DwarfRegs, regs: &mut DwarfRegs, vsp: u32, r14_modified: bool) -> (r:
    Result<(), Error>)
    requires
        finish_frame_spec(previous_regs@, old(regs)@, vsp, r14_modified) is Some,
    ensures
        finish_frame_spec(previous_regs@, old(regs)@, vsp, r14_modified) == Some((final(regs)@, r)),
{
    let link_register = get_register(previous_regs, regs, R14).unwrap();
    let program_counter = link_register & !1;
    if previous_regs.get(R15).unwrap() == program_counter && !r14_modified {
        return Err(Error::UnwindingFailed);
    }
    regs.append(R15, program_counter);  // The program counter.
    regs.append(R13, vsp as u64);  // The stack pointer.
    Ok(())
}

/// Reads the bytecode of index entry `index`, whose value is `value`.
fn read_entry_bytecode(
    exidx: &[u8],
    extab: &[u8],
    exidx_base: u32,
    extab_base: u32,
    index: usize,
    value: u32,
) -> (r: Result<Vec<u8>, Error>)
    requires
        index < entry_count(exidx@),
        value == entry_value(exidx@, index as int),
        entry_bytecode(exidx@, extab@, exidx_base, extab_base, index as int) is Some,
    ensures
        match r {
            Ok(bytecode) => entry_bytecode(exidx@, extab@, exidx_base, extab_base, index as int)
                == Some(Ok::<Seq<u8>, Error>(bytecode@)),
            Err(e) => entry_bytecode(exidx@, extab@, exidx_base, extab_base, index as int) == Some(
                Err::<Seq<u8>, Error>(e),
            ),
        },
{
    if value & EXIDX_INLINE_MASK != 0 {
        let empty: Vec<u8> = Vec::new();
        return Ok(collect_bytecode(value & !EXIDX_INLINE_MASK, 1, empty.as_slice()));
    }
    let extab_address = exidx_offset(exidx_base, index as u32, value).wrapping_add(4);
    let offset = extab_address.wrapping_sub(extab_base);
    let extab_bytes = slice_subrange(extab, offset as usize, extab.len());
    read_extab_bytecode(extab_bytes)
}

/// Reads the bytecode of the `.ARM.extab` entry that starts `extab_bytes`.
fn read_extab_bytecode(extab_bytes: &[u8]) -> (r: Result<Vec<u8>, Error>)
    ensures
        match r {
            Ok(bytecode) => extab_entry_bytecode(extab_bytes@) == Ok::<Seq<u8>, Error>(bytecode@),
            Err(e) => extab_entry_bytecode(extab_bytes@) == Err::<Seq<u8>, Error>(e),
        },
{
    if extab_bytes.len() < 4 {
        return Err(Error::DecodeError(DecodeError::UnexpectedEnd));
    }
    let extab_entry = read_u32_le(extab_bytes);
    if extab_entry & EXTAB_HEADER_MODEL_MASK == 0 {
        // Generic model.
        if extab_bytes.len() < 8 {
            return Err(Error::DecodeError(DecodeError::UnexpectedEnd));
        }
        let data = read_u32_le(slice_subrange(extab_bytes, 4, 8));
        assert((data >> 24u32) & 0xffu32 <= 0xff) by (bit_vector);
        let count = ((data >> 24) & 0xff) as usize;
        if extab_bytes.len() < (8 + count * 4) {
            return Err(Error::DecodeError(DecodeError::UnexpectedEnd));
        }
        let data_bytes = slice_subrange(extab_bytes, 8, 8 + count * 4);
        proof {
            assert(extab_bytes@.skip(4).subrange(0, 4) =~= extab_bytes@.subrange(4, 8));
        }
        Ok(collect_bytecode(data, 1, data_bytes))
    } else {
        // ARM compact model.
        let personality_routine = (extab_entry & EXTAB_HEADER_PERSONALITY_ROUTINE_MASK)
            >> EXTAB_HEADER_PERSONALITY_ROUTINE_SHIFT;
        let header = extab_entry & EXTAB_HEADER_DATA_MASK;
        assert((extab_entry & 0x0f00_0000u32) >> 24u32 <= 15) by (bit_vector);
        match personality_routine {
            1 => {
                assert((header >> 16u32) & 0xffu32 <= 0xff) by (bit_vector);
                let count = ((header >> 16) & 0xff) as usize;
                if extab_bytes.len() < (4 + count * 4) {
                    return Err(Error::DecodeError(DecodeError::UnexpectedEnd));
                }
                let data_bytes = slice_subrange(extab_bytes, 4, 4 + count * 4);
                Ok(collect_bytecode(header, 2, data_bytes))
            },
            _ => Err(Error::UnsupportedPersonality(personality_routine as u8)),
        }
    }
}

/// Executing an instruction keeps a register file of sixteen registers.
pub proof fn lemma_execute_len<M: MemoryReader>(
    memory: &M,
    previous_regs: Seq<Option<u64>>,
    vsp: u32,
    regs: Seq<Option<u64>>,
    modified: u32,
    instruction: Instruction,
)
    requires
        regs.len() == REGISTER_COUNT,
    ensures
        execute_spec(memory, previous_regs, vsp, regs, modified, instruction).1.len()
            == REGISTER_COUNT,
{
    if let Instruction::PopRegs(mask) = instruction {
        lemma_set_bits_from(mask.0 as u32, 0, 16);
        lemma_pop_regs_shape(memory, vsp, regs, modified, set_bits_from(mask.0 as u32, 0, 16));
    }
}

/// Running bytecode keeps a register file of sixteen registers.
pub proof fn lemma_run_len<M: MemoryReader>(
    memory: &M,
    previous_regs: Seq<Option<u64>>,
    bytes: Seq<u8>,
    pos: int,
    done: bool,
    vsp: u32,
    regs: Seq<Option<u64>>,
    modified: u32,
)
    requires
        regs.len() == REGISTER_COUNT,
    ensures
        run_spec(memory, previous_regs, bytes, pos, done, vsp, regs, modified).1.len()
            == REGISTER_COUNT,
    decreases bytes.len() - pos,
{
    if !(done || pos < 0 || pos >= bytes.len()) {
        let (res, p) = decode_step(bytes, pos);
        if !(p <= pos || p > bytes.len()) {
            if let Ok(instruction) = res {
                lemma_execute_len(memory, previous_regs, vsp, regs, modified, instruction);
                let (vsp2, regs2, modified2, out) = execute_spec(
                    memory,
                    previous_regs,
                    vsp,
                    regs,
                    modified,
                    instruction,
                );
                lemma_run_len(
                    memory,
                    previous_regs,
                    bytes,
                    p,
                    ends_decoding(res),
                    vsp2,
                    regs2,
                    modified2,
                );
            }
        }
    }
}

/// When unwinding a frame succeeds, the caller's program counter is known
/// and has its Thumb bit cleared; when the frame has an index entry, the
/// caller's stack pointer is the final vsp.
pub proof fn lemma_unwind_success<M: MemoryReader>(
    memory: &M,
    previous_regs: Seq<Option<u64>>,
    regs: Seq<Option<u64>>,
    vsp: u32,
    initial_address: Option<u32>,
    exidx: Seq<u8>,
    extab: Seq<u8>,
    exidx_base: u32,
    extab_base: u32,
    address: u32,
    is_first_frame: bool,
)
    requires
        regs.len() == REGISTER_COUNT,
        previous_regs.len() == REGISTER_COUNT,
    ensures
        ({
            let o = unwind_spec(
                memory,
                previous_regs,
                regs,
                vsp,
                initial_address,
                exidx,
                extab,
                exidx_base,
                extab_base,
                address,
                is_first_frame,
            );
            let target = if is_first_frame {
                address
            } else {
                (address - 1) as u32
            };
            !o.panics && o.result is Ok ==> {
                &&& o.regs[R15 as int] is Some
                &&& o.regs[R15 as int]->0 & 1u64 == 0
                &&& find_entry_spec(exidx, exidx_base, target) is Some ==> o.regs[R13 as int]
                    == Some(o.vsp as u64)
            }
        }),
{
    let o = unwind_spec(
        memory,
        previous_regs,
        regs,
        vsp,
        initial_address,
        exidx,
        extab,
        exidx_base,
        extab_base,
        address,
        is_first_frame,
    );
    if !o.panics && o.result is Ok {
        let lr = o.regs[R15 as int]->0;
        if address != 0 && exidx.len() != 0 && entry_count(exidx) != 0 {
            let target = if is_first_frame {
                address
            } else {
                (address - 1) as u32
            };
            match find_entry_spec(exidx, exidx_base, target) {
                None => {},
                Some((index, start, _end)) => {
                    if !(is_first_frame && address == start) {
                        if let Some(Ok(bytecode)) = entry_bytecode(
                            exidx,
                            extab,
                            exidx_base,
                            extab_base,
                            index,
                        ) {
                            let sp = reg_value(previous_regs, R13 as int)->0;
                            lemma_run_len(memory, previous_regs, bytecode, 0, false, sp as u32, regs, 0);
                        }
                    }
                },
            }
        }
        assert forall|x: u64| #[trigger] return_address(x) & 1u64 == 0 by {
            assert((x & !1u64) & 1u64 == 0) by (bit_vector);
        }
    }
}

/// Unwinding a frame never fails hard when the previous frame's link
/// register and program counter are known, the index table is empty or
/// holds at least one whole entry, and every entry whose bytecode is not
/// inline points inside `.ARM.extab`.
pub proof fn lemma_unwind_defined<M: MemoryReader>(
    memory: &M,
    previous_regs: Seq<Option<u64>>,
    regs: Seq<Option<u64>>,
    vsp: u32,
    initial_address: Option<u32>,
    exidx: Seq<u8>,
    extab: Seq<u8>,
    exidx_base: u32,
    extab_base: u32,
    address: u32,
    is_first_frame: bool,
)
    requires
        reg_value(previous_regs, R14 as int) is Some,
        reg_value(previous_regs, R15 as int) is Some,
        exidx.len() == 0 || exidx.len() >= 8,
        forall|i: int|
            0 <= i < entry_count(exidx) ==> entry_value(exidx, i) & EXIDX_INLINE_MASK != 0
                || wrap_u32(#[trigger] extab_address_spec(exidx, exidx_base, i) - extab_base)
                <= extab.len(),
    ensures
        !unwind_spec(
            memory,
            previous_regs,
            regs,
            vsp,
            initial_address,
            exidx,
            extab,
            exidx_base,
            extab_base,
            address,
            is_first_frame,
        ).panics,
{
    if address != 0 && exidx.len() != 0 {
        assert(entry_count(exidx) >= 1);
        let target = if is_first_frame {
            address
        } else {
            (address - 1) as u32
        };
        if let Some((index, start, _end)) = find_entry_spec(exidx, exidx_base, target) {
            lemma_search_index_in_range(exidx, exidx_base, target);
            assert(wrap_u32(extab_address_spec(exidx, exidx_base, index) - extab_base) <= extab.len()
                || entry_value(exidx, index) & EXIDX_INLINE_MASK != 0);
        }
    }
}

/// The machine that runs the unwinding bytecode; it holds the virtual stack
/// pointer, vsp.
pub struct VirtualMachine {
    vsp: u32,
}

impl Default for VirtualMachine {
    fn default() -> (vm: Self)
        ensures
            vm.vsp() == 0,
    {
        VirtualMachine { vsp: 0 }
    }
}

impl VirtualMachine {
    /// The virtual stack pointer.
    pub closed spec fn vsp(self) -> u32 {
        self.vsp
    }

    pub fn new() -> (vm: Self)
        ensures
            vm.vsp() == 0,
    {
        VirtualMachine { vsp: 0 }
    }

    fn execute<M: MemoryReader>(
        &mut self,
        memory: &M,
        previous_regs: &DwarfRegs,
        regs: &mut DwarfRegs,
        regs_modified: &mut u32,
        instruction: Instruction,
    ) -> (r: Result<(), Error>)
        ensures
            (final(self).vsp, final(regs)@, *final(regs_modified), r) == execute_spec(
                memory,
                previous_regs@,
                old(self).vsp,
                old(regs)@,
                *old(regs_modified),
                instruction,
            ),
    {
        match instruction {
            Instruction::VspAdd(offset) => {
                self.vsp = self.vsp.wrapping_add_signed(offset);
            },
            Instruction::VspSet(reg) => {
                let value = get_register(previous_regs, regs, reg.0 as u16);
                match value {
                    Some(value) => {
                        self.vsp = value as u32;
                    },
                    None => {
                        return Err(Error::MissingRegisterValue(reg));
                    },
                }
            },
            Instruction::PopRegs(reg_mask) => {
                let mut it = reg_mask.iter();
                let ghost target = pop_regs_spec(
                    memory,
                    self.vsp,
                    regs@,
                    *regs_modified,
                    set_bits_from(reg_mask.0 as u32, 0, 16),
                );
                loop
                    invariant
                        instruction == Instruction::PopRegs(reg_mask),
                        pop_regs_spec(memory, self.vsp, regs@, *regs_modified, it.remaining())
                            == target,
                        target == pop_regs_spec(
                            memory,
                            old(self).vsp,
                            old(regs)@,
                            *old(regs_modified),
                            set_bits_from(reg_mask.0 as u32, 0, 16),
                        ),
                    ensures
                        it.remaining().len() == 0,
                    decreases it.remaining().len(),
                {
                    let ghost before = it.remaining();
                    match it.next() {
                        None => {
                            break ;
                        },
                        Some(reg) => {
                            assert(reg.0 == before[0]);
                            match memory.get_pointer_at_address(self.vsp as u64) {
                                Some(value) => {
                                    regs.append(reg.0 as u16, value as u64);
                                    *regs_modified = *regs_modified | (1u32 << reg.0);
                                },
                                None => {
                                    return Err(Error::MemoryUnaccessible { address: self.vsp });
                                },
                            }
                            self.vsp = self.vsp.wrapping_add(4);
                        },
                    }
                }
            },
            Instruction::Finish => {},
            Instruction::PopFpRegs(reg_mask) => {
                let mut it = reg_mask.iter();
                let ghost count = set_bits_from(reg_mask.0, 0, 32).len();
                loop
                    invariant
                        instruction == Instruction::PopFpRegs(reg_mask),
                        regs@ == old(regs)@,
                        *regs_modified == *old(regs_modified),
                        count == set_bits_from(reg_mask.0, 0, 32).len(),
                        it.remaining().len() <= count,
                        self.vsp == wrap_u32(old(self).vsp + 8 * (count - it.remaining().len())),
                    ensures
                        it.remaining().len() == 0,
                    decreases it.remaining().len(),
                {
                    match it.next() {
                        None => {
                            break ;
                        },
                        Some(_) => {
                            let ghost v = self.vsp;
                            self.vsp = self.vsp.wrapping_add(8);
                            assert(self.vsp == wrap_u32(v + 8));
                        },
                    }
                }
            },
            Instruction::RefuseToUnwind => {
                return Err(Error::EndOfStack);
            },
        }
        Ok(())
    }
    /// Runs `bytecode`, popping registers from the stack at vsp into `regs`
    /// (and marking them in `regs_modified`), until it ends or fails.
    fn run_bytecode<M: MemoryReader>(
        &mut self,
        memory: &M,
        previous_regs: &DwarfRegs,
        regs: &mut DwarfRegs,
        regs_modified: &mut u32,
        bytecode: &[u8],
    ) -> (r: Result<(), Error>)
        ensures
            (final(self).vsp, final(regs)@, *final(regs_modified), r) == run_spec(
                memory,
                previous_regs@,
                bytecode@,
                0,
                false,
                old(self).vsp,
                old(regs)@,
                *old(regs_modified),
            ),
    {
        let mut decoder = Decoder::new(bytecode);
        let ghost target = run_spec(
            memory,
            previous_regs@,
            bytecode@,
            0,
            false,
            self.vsp,
            regs@,
            *regs_modified,
        );
        loop
            invariant
                decoder.bytes() == bytecode@,
                decoder.index() <= bytecode@.len(),
                target == run_spec(
                    memory,
                    previous_regs@,
                    bytecode@,
                    0,
                    false,
                    old(self).vsp,
                    old(regs)@,
                    *old(regs_modified),
                ),
                run_spec(
                    memory,
                    previous_regs@,
                    bytecode@,
                    decoder.index() as int,
                    decoder.is_done(),
                    self.vsp,
                    regs@,
                    *regs_modified,
                ) == target,
            decreases bytecode@.len() - decoder.index(),
        {
            let ghost pos = decoder.index() as int;
            let instruction = match decoder.next() {
                None => {
                    return Ok(());
                },
                Some(instruction) => instruction,
            };
            proof {
                lemma_decode_step_progress(bytecode@, pos);
            }
            let instruction = match instruction {
                Ok(instruction) => instruction,
                Err(err) => {
                    return Err(Error::from(err));
                },
            };
            let outcome = self.execute(memory, previous_regs, regs, regs_modified, instruction);
            if outcome.is_err() {
                return outcome;
            }
        }
    }
    /// Unwinds one frame whose program counter is `address`, with the
    /// `.ARM.exidx` section `exidx` loaded at `exidx_base` and the
    /// `.ARM.extab` section `extab` loaded at `extab_base`. On success
    /// `regs` holds the caller's program counter and stack pointer, and
    /// every register the bytecode restored; `initial_address` receives the
    /// start of the function found.
    pub fn unwind<M: MemoryReader>(
        &mut self,
        memory: &M,
        previous_regs: &DwarfRegs,
        initial_address: &mut Option<u32>,
        regs: &mut DwarfRegs,
        exidx: &[u8],
        extab: &[u8],
        exidx_base: u32,
        extab_base: u32,
        address: u32,
        is_first_frame: bool,
    ) -> (r: Result<(), Error>)
        requires
            !unwind_spec(
                memory,
                previous_regs@,
                old(regs)@,
                old(self).vsp(),
                *old(initial_address),
                exidx@,
                extab@,
                exidx_base,
                extab_base,
                address,
                is_first_frame,
            ).panics,
        ensures
            ({
                let o = unwind_spec(
                    memory,
                    previous_regs@,
                    old(regs)@,
                    old(self).vsp(),
                    *old(initial_address),
                    exidx@,
                    extab@,
                    exidx_base,
                    extab_base,
                    address,
                    is_first_frame,
                );
                &&& final(self).vsp() == o.vsp
                &&& *final(initial_address) == o.initial_address
                &&& final(regs)@ == o.regs
                &&& r == o.result
            }),
    {
        if address == 0 || exidx.is_empty() {
            return Err(Error::UnwindInfoMissing);
        }
        let target = if is_first_frame {
            address
        } else {
            address - 1
        };
        match find_entry(exidx, exidx_base, target) {
            Some((index, entry, function_start, _function_end)) => {
                *initial_address = Some(function_start);
                self.unwind_entry(
                    memory,
                    previous_regs,
                    regs,
                    exidx,
                    extab,
                    exidx_base,
                    extab_base,
                    address,
                    is_first_frame,
                    index,
                    &entry,
                    function_start,
                )
            },
            None => unwind_without_entry(previous_regs, regs, is_first_frame),
        }
    }

    /// Unwinds one frame through index entry `index`, whose function starts
    /// at `function_start`.
    fn unwind_entry<M: MemoryReader>(
        &mut self,
        memory: &M,
        previous_regs: &DwarfRegs,
        regs: &mut DwarfRegs,
        exidx: &[u8],
        extab: &[u8],
        exidx_base: u32,
        extab_base: u32,
        address: u32,
        is_first_frame: bool,
        index: usize,
        entry: &IndexEntry,
        function_start: u32,
    ) -> (r: Result<(), Error>)
        requires
            index < entry_count(exidx@),
            entry.spec_value() == entry_value(exidx@, index as int),
            !unwind_entry_spec(
                memory,
                previous_regs@,
                old(regs)@,
                old(self).vsp(),
                exidx@,
                extab@,
                exidx_base,
                extab_base,
                address,
                is_first_frame,
                index as int,
                function_start,
            ).panics,
        ensures
            ({
                let o = unwind_entry_spec(
                    memory,
                    previous_regs@,
                    old(regs)@,
                    old(self).vsp(),
                    exidx@,
                    extab@,
                    exidx_base,
                    extab_base,
                    address,
                    is_first_frame,
                    index as int,
                    function_start,
                );
                &&& final(self).vsp() == o.vsp
                &&& final(regs)@ == o.regs
                &&& r == o.result
                &&& o.initial_address == Some(function_start)
            }),
    {
        if entry.value() == EXIDX_CANTUNWIND {
            return Err(Error::EndOfStack);
        }
        // r13 is the stack pointer.
        self.vsp = match previous_regs.get(R13) {
            Some(value) => value as u32,
            None => return Err(Error::MissingRegisterValue(Reg(13))),
        };
        if is_first_frame && address == function_start {
            return finish_frame(previous_regs, regs, self.vsp, false);
        }
        let bytecode = read_entry_bytecode(
            exidx,
            extab,
            exidx_base,
            extab_base,
            index,
            entry.value(),
        )?;
        let mut regs_modified: u32 = 0;
        self.run_bytecode(memory, previous_regs, regs, &mut regs_modified, bytecode.as_slice())?;
        assert(1u32 << 14u16 == 0x4000u32) by (bit_vector);
        let r14_modified = regs_modified & (1 << R14) != 0;
        finish_frame(previous_regs, regs, self.vsp, r14_modified)
    }
}

/// Unwinds a frame whose address has no index entry: only the first frame
/// can be unwound then, by returning through the link register.
fn unwind_without_entry(previous_regs: &DwarfRegs, regs: &mut DwarfRegs, is_first_frame: bool) -> (r:
    Result<(), Error>)
    requires
        no_entry_spec(previous_regs@, old(regs)@, is_first_frame) is Some,
    ensures
        no_entry_spec(previous_regs@, old(regs)@, is_first_frame) == Some((final(regs)@, r)),
{
    if !is_first_frame {
        return Err(Error::UnwindInfoMissing);
    }
    let link_register = get_register(previous_regs, regs, R14).unwrap();
    let program_counter = link_register & !1;
    if previous_regs.get(R15).unwrap() == program_counter {
        return Err(Error::UnwindingFailed);
    }
    let ghost before = regs@;
    let count = regs.len() as u16;
    let mut register: u16 = 0;
    while register < count
        invariant
            register <= REGISTER_COUNT,
            count == REGISTER_COUNT,
            before.len() == REGISTER_COUNT,
            regs@.len() == REGISTER_COUNT,
            forall|i: int|
                0 <= i < REGISTER_COUNT ==> #[trigger] regs@[i] == (if i < register && i != R15
                    && reg_value(previous_regs@, i) is Some {
                    reg_value(previous_regs@, i)
                } else {
                    before[i]
                }),
        decreases REGISTER_COUNT - register,
    {
        if register != R15 {
            match previous_regs.get(register) {
                Some(value) => {
                    regs.append(register, value);
                },
                None => {},
            }
        }
        register = register + 1;
    }
    proof {
        assert(regs@ =~= carry_over(previous_regs@, before));
    }
    regs.append(R15, program_counter);
    Ok(())
}

} // verus!
