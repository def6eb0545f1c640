//! What the machine's instructions, the table reading and the lookup of
//! `unwind` do, stated over the inputs.

use crate::bytecode::{data_bytes, word_bytes};
use crate::bytes::{le_u32, lemma_wrap_u32_add, lemma_wrap_u32_once, wrap_u32};
use crate::decode::{decode_step, ends_decoding, lemma_decode_step_progress, DecodeError, Instruction};
use crate::exidx::{
    entry_count, entry_value, find_entry_spec, function_start, lemma_find_entry_sorted, prel31,
    starts_increasing,
};
use crate::registers::{lookup_register, reg_value, MemoryReader, R13, R14, R15, REGISTER_COUNT};
use crate::regs::{lemma_set_bits_from, mask_bit, set_bits_from};
use crate::vm::{
    entry_bytecode, execute_spec, extab_entry_bytecode, lemma_pop_regs, lemma_run_len, no_entry_spec,
    pop_regs_spec, run_spec, stack_word, unwind_entry_spec, unwind_spec, Error, EXIDX_CANTUNWIND,
};
use vstd::prelude::*;

verus! {

/// What one instruction does to the machine.
/// - `vsp = vsp + offset`, on 32 bits;
/// - `vsp = r<n>`: the register's value (the frame's own when known, or
///   else the previous frame's), on 32 bits, or an error when it is unknown;
/// - popping core registers reads them, lowest number first, from
///   consecutive words of the stack at vsp; it succeeds when all those words
///   can be read, and then vsp lies past them, each register holds its word
///   and is marked as restored, and registers outside the mask are left alone;
/// - popping floating point registers moves vsp by 8 bytes per register;
/// - `finish` changes nothing and "refuse to unwind" ends the stack.
pub proof fn lemma_execute<M: MemoryReader>(
    memory: &M,
    previous_regs: Seq<Option<u64>>,
    vsp: u32,
    regs: Seq<Option<u64>>,
    modified: u32,
    instruction: Instruction,
)
    requires
        regs.len() == REGISTER_COUNT,
    ensures
        ({
            let (vsp2, regs2, modified2, out) = execute_spec(
                memory,
                previous_regs,
                vsp,
                regs,
                modified,
                instruction,
            );
            match instruction {
                Instruction::VspAdd(offset) => vsp2 == wrap_u32(vsp + offset) && regs2 == regs
                    && modified2 == modified && out == Ok::<(), Error>(()),
                Instruction::VspSet(reg) => match (if reg_value(regs, reg.0 as int) is Some {
                    reg_value(regs, reg.0 as int)
                } else {
                    reg_value(previous_regs, reg.0 as int)
                }) {
                    Some(value) => vsp2 == wrap_u32(value as int) && regs2 == regs && modified2
                        == modified && out == Ok::<(), Error>(()),
                    None => vsp2 == vsp && regs2 == regs && modified2 == modified && out == Err::<
                        (),
                        Error,
                    >(Error::MissingRegisterValue(reg)),
                },
                Instruction::PopRegs(mask) => {
                    let to_pop = set_bits_from(mask.0 as u32, 0, 16);
                    &&& regs2.len() == regs.len()
                    &&& out is Ok <==> forall|i: int|
                        0 <= i < to_pop.len() ==> (#[trigger] memory.pointer_at(
                            wrap_u32(vsp + 4 * i) as u64,
                        )) is Some
                    &&& out is Ok ==> {
                        &&& vsp2 == wrap_u32(vsp + 4 * to_pop.len())
                        &&& forall|i: int|
                            0 <= i < to_pop.len() ==> regs2[#[trigger] to_pop[i] as int]
                                == memory.pointer_at(wrap_u32(vsp + 4 * i) as u64) && mask_bit(
                                modified2,
                                to_pop[i] as nat,
                            )
                    }
                    &&& forall|r: int|
                        0 <= r < 16 && !mask_bit(mask.0 as u32, r as nat) ==> #[trigger] regs2[r]
                            == regs[r]
                },
                Instruction::PopFpRegs(mask) => vsp2 == wrap_u32(
                    vsp + 8 * set_bits_from(mask.0, 0, 32).len(),
                ) && regs2 == regs && modified2 == modified && out == Ok::<(), Error>(()),
                Instruction::Finish => vsp2 == vsp && regs2 == regs && modified2 == modified && out
                    == Ok::<(), Error>(()),
                Instruction::RefuseToUnwind => vsp2 == vsp && regs2 == regs && modified2
                    == modified && out == Err::<(), Error>(Error::EndOfStack),
            }
        }),
{
    match instruction {
        Instruction::VspAdd(offset) => {
            lemma_wrap_u32_once(vsp + offset);
        },
        Instruction::VspSet(reg) => {
            if let Some(value) = lookup_register(previous_regs, regs, reg.0 as int) {
                let low = value as u32;
                assert(low as u64 == value % 0x1_0000_0000u64) by (bit_vector)
                    requires
                        low == value as u32,
                ;
            }
        },
        Instruction::PopRegs(mask) => {
            let to_pop = set_bits_from(mask.0 as u32, 0, 16);
            lemma_set_bits_from(mask.0 as u32, 0, 16);
            lemma_pop_regs(memory, vsp, regs, modified, to_pop);
            let out = execute_spec(memory, previous_regs, vsp, regs, modified, instruction).3;
            let n = to_pop.len();
            if forall|i: int|
                0 <= i < n ==> (#[trigger] memory.pointer_at(wrap_u32(vsp + 4 * i) as u64)) is Some {
                assert forall|i: int| 0 <= i < n implies (#[trigger] memory.pointer_at(
                    stack_word(vsp, i),
                )) is Some by {
                    assert(memory.pointer_at(wrap_u32(vsp + 4 * i) as u64) is Some);
                }
            }
            if out is Ok {
                assert forall|i: int| 0 <= i < n implies (#[trigger] memory.pointer_at(
                    wrap_u32(vsp + 4 * i) as u64,
                )) is Some by {
                    assert(memory.pointer_at(stack_word(vsp, i)) is Some);
                }
            }
            let regs2 = execute_spec(memory, previous_regs, vsp, regs, modified, instruction).1;
            assert forall|r: int|
                0 <= r < 16 && !mask_bit(mask.0 as u32, r as nat) implies #[trigger] regs2[r]
                == regs[r] by {
                if to_pop.contains(r as u8) {
                    let k = choose|k: int| 0 <= k < to_pop.len() && to_pop[k] == r as u8;
                    assert(to_pop[k] == r);
                }
            }
        },
        _ => {},
    }
}

/// Each group of four bytes of table data yields its bytes in reverse.
pub proof fn lemma_data_bytes_index(d: Seq<u8>)
    requires
        d.len() % 4 == 0,
    ensures
        data_bytes(d).len() == d.len(),
        forall|k: int| 0 <= k < d.len() ==> #[trigger] data_bytes(d)[k] == d[4 * (k / 4) + 3 - k % 4],
    decreases d.len(),
{
    if d.len() >= 4 {
        let rest = d.skip(4);
        lemma_data_bytes_index(rest);
        assert forall|k: int| 0 <= k < d.len() implies #[trigger] data_bytes(d)[k] == d[4 * (k / 4) + 3
            - k % 4] by {
            if k >= 4 {
                assert(data_bytes(d)[k] == data_bytes(rest)[k - 4]);
                assert((k - 4) / 4 == k / 4 - 1 && (k - 4) % 4 == k % 4);
            }
        }
    }
}

proof fn lemma_stream_tail(head: Seq<u8>, data: Seq<u8>, base: int, whole: Seq<u8>, start: int)
    requires
        data.len() % 4 == 0,
        0 <= start,
        start + data.len() <= whole.len(),
        data == whole.subrange(start, start + data.len()),
    ensures
        (head + data_bytes(data)).len() == head.len() + data.len(),
        forall|k: int|
            0 <= k < data.len() ==> #[trigger] (head + data_bytes(data))[head.len() + k] == whole[start
                + 4 * (k / 4) + 3 - k % 4],
{
    lemma_data_bytes_index(data);
    assert forall|k: int| 0 <= k < data.len() implies #[trigger] (head + data_bytes(data))[head.len()
        + k] == whole[start + 4 * (k / 4) + 3 - k % 4] by {
        assert(0 <= 4 * (k / 4) + 3 - k % 4 < data.len());
    }
}

/// How an `.ARM.extab` entry holds its bytecode, byte by byte.
/// - Generic model (bit 31 of the first word clear): the second word holds
///   the number of further words in its top byte and the first three
///   bytecode bytes below it, most significant first; then come the further
///   words, each with its bytes most significant first.
/// - Compact model (bit 31 set) with personality routine 1: the first word
///   holds the number of further words in bits 16 to 23 and two bytecode
///   bytes below them; then come the further words. Any other personality
///   routine is unsupported.
/// - An entry too short for what it announces ends unexpectedly.
pub proof fn lemma_extab_entry_bytecode(bytes: Seq<u8>)
    ensures
        bytes.len() < 4 ==> extab_entry_bytecode(bytes) == Err::<Seq<u8>, Error>(
            Error::DecodeError(DecodeError::UnexpectedEnd),
        ),
        bytes.len() >= 4 && bytes[3] < 0x80 ==> {
            &&& bytes.len() < 8 ==> extab_entry_bytecode(bytes) == Err::<Seq<u8>, Error>(
                Error::DecodeError(DecodeError::UnexpectedEnd),
            )
            &&& bytes.len() >= 8 && bytes.len() < 8 + 4 * bytes[7] ==> extab_entry_bytecode(bytes)
                == Err::<Seq<u8>, Error>(Error::DecodeError(DecodeError::UnexpectedEnd))
            &&& bytes.len() >= 8 && bytes.len() >= 8 + 4 * bytes[7] ==> (extab_entry_bytecode(
                bytes,
            ) matches Ok(code) && {
                &&& code.len() == 3 + 4 * bytes[7]
                &&& code[0] == bytes[6]
                &&& code[1] == bytes[5]
                &&& code[2] == bytes[4]
                &&& forall|k: int|
                    0 <= k < 4 * bytes[7] ==> #[trigger] code[3 + k] == bytes[8 + 4 * (k / 4) + 3 - k
                        % 4]
            })
        },
        bytes.len() >= 4 && bytes[3] >= 0x80 ==> {
            &&& bytes[3] % 16 != 1 ==> extab_entry_bytecode(bytes) == Err::<Seq<u8>, Error>(
                Error::UnsupportedPersonality(bytes[3] % 16),
            )
            &&& bytes[3] % 16 == 1 && bytes.len() < 4 + 4 * bytes[2] ==> extab_entry_bytecode(
                bytes,
            ) == Err::<Seq<u8>, Error>(Error::DecodeError(DecodeError::UnexpectedEnd))
            &&& bytes[3] % 16 == 1 && bytes.len() >= 4 + 4 * bytes[2] ==> (extab_entry_bytecode(
                bytes,
            ) matches Ok(code) && {
                &&& code.len() == 2 + 4 * bytes[2]
                &&& code[0] == bytes[1]
                &&& code[1] == bytes[0]
                &&& forall|k: int|
                    0 <= k < 4 * bytes[2] ==> #[trigger] code[2 + k] == bytes[4 + 4 * (k / 4) + 3 - k
                        % 4]
            })
        },
{
    if bytes.len() >= 4 {
        let (b0, b1, b2, b3) = (bytes[0], bytes[1], bytes[2], bytes[3]);
        let h = le_u32(bytes);
        assert(h == ((b3 as u32) << 24u32) | ((b2 as u32) << 16u32) | ((b1 as u32) << 8u32) | (
        b0 as u32));
        let data = h & 0x00ff_ffffu32;
        assert({
            &&& (h & 0x8000_0000u32 == 0 <==> b3 < 0x80)
            &&& (h & 0x0f00_0000u32) >> 24u32 == (b3 % 16) as u32
            &&& (data >> 16u32) & 0xffu32 == b2 as u32
            &&& (data >> 8u32) as u8 == b1
            &&& data as u8 == b0
        }) by (bit_vector)
            requires
                h == ((b3 as u32) << 24u32) | ((b2 as u32) << 16u32) | ((b1 as u32) << 8u32) | (
                b0 as u32),
                data == h & 0x00ff_ffffu32,
        ;
        if b3 < 0x80 && bytes.len() >= 8 {
            let tail = bytes.skip(4);
            let (b4, b5, b6, b7) = (bytes[4], bytes[5], bytes[6], bytes[7]);
            let d = le_u32(tail);
            assert(d == ((b7 as u32) << 24u32) | ((b6 as u32) << 16u32) | ((b5 as u32) << 8u32) | (
            b4 as u32));
            assert({
                &&& (d >> 24u32) & 0xffu32 == b7 as u32
                &&& (d >> 16u32) as u8 == b6
                &&& (d >> 8u32) as u8 == b5
                &&& d as u8 == b4
            }) by (bit_vector)
                requires
                    d == ((b7 as u32) << 24u32) | ((b6 as u32) << 16u32) | ((b5 as u32) << 8u32) | (
                    b4 as u32),
            ;
            let count = b7 as int;
            if bytes.len() >= 8 + 4 * count {
                let head = word_bytes(d).skip(1);
                assert(head =~= seq![b6, b5, b4]);
                lemma_stream_tail(head, bytes.subrange(8, 8 + 4 * count), 0, bytes, 8);
            }
        }
        if b3 >= 0x80 && b3 % 16 == 1 {
            let count = b2 as int;
            if bytes.len() >= 4 + 4 * count {
                let head = word_bytes(data).skip(2);
                assert(head =~= seq![b1, b0]);
                lemma_stream_tail(head, bytes.subrange(4, 4 + 4 * count), 0, bytes, 4);
            }
        }
    }
}

/// Where an index entry's bytecode comes from: when bit 31 of its second
/// word is set, it is held inline, as the three low bytes of that word, most
/// significant first; otherwise that word is a prel31 offset from the word
/// itself (at `exidx_base + 8 * i + 4`) to the entry's `.ARM.extab` entry,
/// which is read there (and must lie inside `.ARM.extab`).
pub proof fn lemma_entry_bytecode(
    exidx: Seq<u8>,
    extab: Seq<u8>,
    exidx_base: u32,
    extab_base: u32,
    i: int,
)
    requires
        0 <= i < entry_count(exidx),
        i < 0x1_0000_0000,
    ensures
        exidx[8 * i + 7] >= 0x80 ==> entry_bytecode(exidx, extab, exidx_base, extab_base, i) == Some(
            Ok::<Seq<u8>, Error>(seq![exidx[8 * i + 6], exidx[8 * i + 5], exidx[8 * i + 4]]),
        ),
        exidx[8 * i + 7] < 0x80 ==> {
            let offset = wrap_u32(
                exidx_base + 8 * i + 4 + prel31(entry_value(exidx, i)) - extab_base,
            );
            entry_bytecode(exidx, extab, exidx_base, extab_base, i) == if offset > extab.len() {
                None
            } else {
                Some(extab_entry_bytecode(extab.skip(offset as int)))
            }
        },
{
    assert(8 * i + 8 <= exidx.len());
    let w = exidx.subrange(8 * i + 4, 8 * i + 8);
    let (b4, b5, b6, b7) = (exidx[8 * i + 4], exidx[8 * i + 5], exidx[8 * i + 6], exidx[8 * i + 7]);
    let v = entry_value(exidx, i);
    assert(v == ((b7 as u32) << 24u32) | ((b6 as u32) << 16u32) | ((b5 as u32) << 8u32) | (
    b4 as u32));
    let v2 = v & !0x8000_0000u32;
    assert({
        &&& (v & 0x8000_0000u32 != 0 <==> b7 >= 0x80)
        &&& (v2 >> 16u32) as u8 == b6
        &&& (v2 >> 8u32) as u8 == b5
        &&& v2 as u8 == b4
    }) by (bit_vector)
        requires
            v == ((b7 as u32) << 24u32) | ((b6 as u32) << 16u32) | ((b5 as u32) << 8u32) | (
            b4 as u32),
            v2 == v & !0x8000_0000u32,
    ;
    if b7 >= 0x80 {
        assert(word_bytes(v2).skip(1) + data_bytes(Seq::<u8>::empty()) =~= seq![b6, b5, b4]);
    } else {
        let a = exidx_base + 8 * i + prel31(v);
        assert(i as u32 == i);
        lemma_wrap_u32_add(a, 4);
        lemma_wrap_u32_add(a + 4, -(extab_base as int));
    }
}

/// `unwind` uses the entry that covers the address of the instruction being
/// unwound: the address itself for the first frame, the call instruction
/// before the return address (`address - 1`) for a caller frame. In a table
/// whose function starts increase: below the first function nothing is
/// found; otherwise the entry used is the last one whose function starts at
/// or below that address, its function's start is reported, and a
/// cannot-unwind entry ends the stack.
pub proof fn lemma_unwind_uses_covering_entry<M: MemoryReader>(
    memory: &M,
    previous_regs: Seq<Option<u64>>,
    regs: Seq<Option<u64>>,
    vsp: u32,
    initial_address: Option<u32>,
    exidx: Seq<u8>,
    extab: Seq<u8>,
    exidx_base: u32,
    extab_base: u32,
    address: u32,
    is_first_frame: bool,
)
    requires
        exidx.len() >= 8,
        starts_increasing(exidx, exidx_base),
        address != 0,
    ensures
        ({
            let o = unwind_spec(
                memory,
                previous_regs,
                regs,
                vsp,
                initial_address,
                exidx,
                extab,
                exidx_base,
                extab_base,
                address,
                is_first_frame,
            );
            let target: int = if is_first_frame {
                address as int
            } else {
                address - 1
            };
            let n = entry_count(exidx);
            &&& target < function_start(exidx, exidx_base, 0) ==> {
                &&& o.initial_address == initial_address
                &&& o.vsp == vsp
                &&& !is_first_frame ==> o.regs == regs && o.result == Err::<(), Error>(
                    Error::UnwindInfoMissing,
                )
            }
            &&& target >= function_start(exidx, exidx_base, 0) ==> exists|i: int|
                {
                    &&& 0 <= i < n
                    &&& #[trigger] function_start(exidx, exidx_base, i) <= target
                    &&& (i + 1 < n ==> target < function_start(exidx, exidx_base, i + 1))
                    &&& o.initial_address == Some(function_start(exidx, exidx_base, i))
                    &&& o == unwind_entry_spec(
                        memory,
                        previous_regs,
                        regs,
                        vsp,
                        exidx,
                        extab,
                        exidx_base,
                        extab_base,
                        address,
                        is_first_frame,
                        i,
                        function_start(exidx, exidx_base, i),
                    )
                    &&& entry_value(exidx, i) == EXIDX_CANTUNWIND ==> o.result == Err::<
                        (),
                        Error,
                    >(Error::EndOfStack) && o.regs == regs && o.vsp == vsp
                }
        }),
{
    let target = if is_first_frame {
        address
    } else {
        (address - 1) as u32
    };
    assert(entry_count(exidx) >= 1);
    lemma_find_entry_sorted(exidx, exidx_base, target);
    if let Some((i, start, end)) = find_entry_spec(exidx, exidx_base, target) {
        assert(function_start(exidx, exidx_base, i) <= target);
    }
}

/// Running bytecode goes one instruction at a time: an instruction that
/// cannot be decoded stops the run with its error and leaves the machine as
/// it was; one that fails stops the run with its failure; `finish` ends the
/// run; any other goes on after the bytes it took. Used-up bytecode ends the
/// run with nothing changed.
pub proof fn lemma_run_steps<M: MemoryReader>(
    memory: &M,
    previous_regs: Seq<Option<u64>>,
    bytes: Seq<u8>,
    pos: int,
    vsp: u32,
    regs: Seq<Option<u64>>,
    modified: u32,
)
    requires
        0 <= pos <= bytes.len(),
    ensures
        ({
            let run = run_spec(memory, previous_regs, bytes, pos, false, vsp, regs, modified);
            &&& pos == bytes.len() ==> run == (vsp, regs, modified, Ok::<(), Error>(()))
            &&& pos < bytes.len() ==> {
                let (r, p) = decode_step(bytes, pos);
                &&& r matches Err(e) ==> run == (
                    vsp,
                    regs,
                    modified,
                    Err::<(), Error>(Error::DecodeError(e)),
                )
                &&& r matches Ok(instruction) ==> {
                    let (vsp2, regs2, modified2, out) = execute_spec(
                        memory,
                        previous_regs,
                        vsp,
                        regs,
                        modified,
                        instruction,
                    );
                    &&& out is Err ==> run == (vsp2, regs2, modified2, out)
                    &&& out is Ok && instruction == Instruction::Finish ==> run == (
                        vsp2,
                        regs2,
                        modified2,
                        Ok::<(), Error>(()),
                    )
                    &&& out is Ok && instruction != Instruction::Finish ==> run == run_spec(
                        memory,
                        previous_regs,
                        bytes,
                        p,
                        false,
                        vsp2,
                        regs2,
                        modified2,
                    )
                }
            }
        }),
{
    if pos < bytes.len() {
        lemma_decode_step_progress(bytes, pos);
        let (r, p) = decode_step(bytes, pos);
        if let Ok(instruction) = r {
            let (vsp2, regs2, modified2, out) = execute_spec(
                memory,
                previous_regs,
                vsp,
                regs,
                modified,
                instruction,
            );
            if instruction == Instruction::Finish {
                assert(run_spec(memory, previous_regs, bytes, p, true, vsp2, regs2, modified2) == (
                    vsp2,
                    regs2,
                    modified2,
                    Ok::<(), Error>(()),
                ));
            }
        }
    }
}

proof fn lemma_pop_regs_error<M: MemoryReader>(
    memory: &M,
    vsp: u32,
    regs: Seq<Option<u64>>,
    modified: u32,
    to_pop: Seq<u8>,
)
    ensures
        pop_regs_spec(memory, vsp, regs, modified, to_pop).3 is Err ==> pop_regs_spec(
            memory,
            vsp,
            regs,
            modified,
            to_pop,
        ).3->Err_0 is MemoryUnaccessible,
    decreases to_pop.len(),
{
    if to_pop.len() > 0 {
        if let Some(value) = memory.pointer_at(vsp as u64) {
            lemma_pop_regs_error(
                memory,
                vsp.wrapping_add(4),
                regs.update(to_pop[0] as int, Some(value)),
                modified | (1u32 << to_pop[0]),
                to_pop.drop_first(),
            );
        }
    }
}

/// Running bytecode fails only on a decode error, an unknown register, an
/// unreadable stack word or a refusal to unwind; never as making no
/// progress.
pub proof fn lemma_run_errors<M: MemoryReader>(
    memory: &M,
    previous_regs: Seq<Option<u64>>,
    bytes: Seq<u8>,
    pos: int,
    done: bool,
    vsp: u32,
    regs: Seq<Option<u64>>,
    modified: u32,
)
    ensures
        run_spec(memory, previous_regs, bytes, pos, done, vsp, regs, modified).3 matches Err(e) ==> (
        e is DecodeError || e is MissingRegisterValue || e is MemoryUnaccessible || e is EndOfStack),
    decreases bytes.len() - pos,
{
    if !(done || pos < 0 || pos >= bytes.len()) {
        let (res, p) = decode_step(bytes, pos);
        if !(p <= pos || p > bytes.len()) {
            if let Ok(instruction) = res {
                if let Instruction::PopRegs(mask) = instruction {
                    lemma_pop_regs_error(
                        memory,
                        vsp,
                        regs,
                        modified,
                        set_bits_from(mask.0 as u32, 0, 16),
                    );
                }
                let (vsp2, regs2, modified2, out) = execute_spec(
                    memory,
                    previous_regs,
                    vsp,
                    regs,
                    modified,
                    instruction,
                );
                lemma_run_errors(
                    memory,
                    previous_regs,
                    bytes,
                    p,
                    ends_decoding(res),
                    vsp2,
                    regs2,
                    modified2,
                );
            }
        }
    }
}

/// When a frame with an index entry is unwound, the caller's program
/// counter is the link register as the bytecode left it (restored from the
/// stack, or else the previous frame's) with its Thumb bit cleared, and the
/// caller's stack pointer is the final vsp; unwinding is refused as making
/// no progress only when that program counter is the current one.
pub proof fn lemma_unwind_entry_return<M: MemoryReader>(
    memory: &M,
    previous_regs: Seq<Option<u64>>,
    regs: Seq<Option<u64>>,
    vsp: u32,
    exidx: Seq<u8>,
    extab: Seq<u8>,
    exidx_base: u32,
    extab_base: u32,
    address: u32,
    is_first_frame: bool,
    index: int,
    start: u32,
)
    requires
        regs.len() == REGISTER_COUNT,
    ensures
        ({
            let o = unwind_entry_spec(
                memory,
                previous_regs,
                regs,
                vsp,
                exidx,
                extab,
                exidx_base,
                extab_base,
                address,
                is_first_frame,
                index,
                start,
            );
            let lr = match o.regs[R14 as int] {
                Some(v) => Some(v),
                None => reg_value(previous_regs, R14 as int),
            };
            &&& !o.panics && o.result is Ok ==> {
                &&& lr is Some
                &&& o.regs[R15 as int] == Some(lr->0 & !1u64)
                &&& o.regs[R13 as int] == Some(o.vsp as u64)
            }
            &&& !o.panics && o.result == Err::<(), Error>(Error::UnwindingFailed) ==> {
                &&& lr is Some
                &&& reg_value(previous_regs, R15 as int) == Some(lr->0 & !1u64)
            }
        }),
{
    if entry_value(exidx, index) != EXIDX_CANTUNWIND {
        if let Some(sp) = reg_value(previous_regs, R13 as int) {
            if !(is_first_frame && address == start) {
                if let Some(Ok(bytecode)) = entry_bytecode(exidx, extab, exidx_base, extab_base, index) {
                    lemma_run_len(memory, previous_regs, bytecode, 0, false, sp as u32, regs, 0);
                    lemma_run_errors(memory, previous_regs, bytecode, 0, false, sp as u32, regs, 0);
                }
            }
        }
    }
}

/// When the first frame has no index entry, it returns through the link
/// register: the caller's program counter is the link register (the
/// frame's own, or else the previous frame's) with its Thumb bit cleared,
/// and every other register the previous frame knows is carried over.
pub proof fn lemma_unwind_without_entry_return(
    previous_regs: Seq<Option<u64>>,
    regs: Seq<Option<u64>>,
)
    requires
        regs.len() == REGISTER_COUNT,
    ensures
        no_entry_spec(previous_regs, regs, true) matches Some((regs2, result)) ==> {
            let lr = lookup_register(previous_regs, regs, R14 as int);
            &&& lr is Some
            &&& result is Ok ==> {
                &&& regs2[R15 as int] == Some(lr->0 & !1u64)
                &&& forall|r: int|
                    0 <= r < REGISTER_COUNT && r != R15 ==> #[trigger] regs2[r] == (if reg_value(
                        previous_regs,
                        r,
                    ) is Some {
                        reg_value(previous_regs, r)
                    } else {
                        regs[r]
                    })
            }
            &&& result == Err::<(), Error>(Error::UnwindingFailed) ==> reg_value(
                previous_regs,
                R15 as int,
            ) == Some(lr->0 & !1u64)
        },
        no_entry_spec(previous_regs, regs, false) == Some(
            (regs, Err::<(), Error>(Error::UnwindInfoMissing)),
        ),
{
}

} // verus!
