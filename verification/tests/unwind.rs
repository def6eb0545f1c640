use nwind::decode::DecodeError;
use nwind::registers::{DwarfRegs, MemoryReader};
use nwind::regs::Reg;
use nwind::vm::{Error, VirtualMachine};

/// A stack of 32-bit words starting at `base`.
struct Stack {
    base: u32,
    words: Vec<u32>,
}

impl MemoryReader for Stack {
    fn pointer_at(&self, address: u64) -> Option<u64> {
        self.get_pointer_at_address(address)
    }

    fn get_pointer_at_address(&self, address: u64) -> Option<u64> {
        if address < self.base as u64 || (address - self.base as u64) % 4 != 0 {
            return None;
        }
        let index = ((address - self.base as u64) / 4) as usize;
        self.words.get(index).map(|&word| word as u64)
    }
}

fn regs_with(values: &[(u16, u64)]) -> DwarfRegs {
    let mut regs = DwarfRegs::new();
    for &(register, value) in values {
        regs.append(register, value);
    }
    regs
}

/// An index table of one entry per `(function offset, value)`, where the
/// offset is relative to the entry itself.
fn exidx(entries: &[(u32, u32)]) -> Vec<u8> {
    let mut out = Vec::new();
    for &(offset, value) in entries {
        out.extend_from_slice(&(offset & 0x7fff_ffff).to_le_bytes());
        out.extend_from_slice(&value.to_le_bytes());
    }
    out
}

#[test]
fn unwind_inline_pop_r4_r14() {
    // Function at 0x1000 (the entry at 0x2000 points back by 0x1000); its
    // inline bytecode pops r4 and r14, then finishes.
    let table = exidx(&[(0u32.wrapping_sub(0x1000), 0x80a8_b0b0)]);
    let stack = Stack { base: 0x7000, words: vec![0x1111, 0x4001] };
    let previous = regs_with(&[(13, 0x7000), (14, 0x9999), (15, 0x1010)]);
    let mut regs = DwarfRegs::new();
    let mut vm = VirtualMachine::new();
    let mut initial = None;
    let r = vm.unwind(&stack, &previous, &mut initial, &mut regs, &table, &[], 0x2000, 0, 0x1010, true);
    assert_eq!(r, Ok(()));
    assert_eq!(initial, Some(0x1000));
    assert_eq!(regs.get(4), Some(0x1111));
    assert_eq!(regs.get(14), Some(0x4001));
    assert_eq!(regs.get(15), Some(0x4000));
    assert_eq!(regs.get(13), Some(0x7008));
}

#[test]
fn unwind_cantunwind_entry() {
    let table = exidx(&[(0u32.wrapping_sub(0x1000), 1)]);
    let stack = Stack { base: 0, words: vec![] };
    let previous = regs_with(&[(13, 0x7000), (14, 0x9999), (15, 0x1010)]);
    let mut regs = DwarfRegs::new();
    let mut vm = VirtualMachine::new();
    let mut initial = None;
    let r = vm.unwind(&stack, &previous, &mut initial, &mut regs, &table, &[], 0x2000, 0, 0x1010, true);
    assert_eq!(r, Err(Error::EndOfStack));
    assert_eq!(initial, Some(0x1000));
}

#[test]
fn unwind_without_info() {
    let stack = Stack { base: 0, words: vec![] };
    let previous = regs_with(&[(13, 0x7000), (14, 0x9999), (15, 0x1010)]);
    let mut regs = DwarfRegs::new();
    let mut vm = VirtualMachine::default();
    let mut initial = None;
    let r = vm.unwind(&stack, &previous, &mut initial, &mut regs, &[], &[], 0x2000, 0, 0x1010, true);
    assert_eq!(r, Err(Error::UnwindInfoMissing));
    let table = exidx(&[(0u32.wrapping_sub(0x1000), 1)]);
    let r = vm.unwind(&stack, &previous, &mut initial, &mut regs, &table, &[], 0x2000, 0, 0, true);
    assert_eq!(r, Err(Error::UnwindInfoMissing));
    assert_eq!(initial, None);
}

#[test]
fn unwind_before_first_function() {
    // The only function starts at 0x1000: 0x800 has no entry.
    let table = exidx(&[(0u32.wrapping_sub(0x1000), 1)]);
    let stack = Stack { base: 0, words: vec![] };
    let previous = regs_with(&[(0, 7), (13, 0x7000), (14, 0x5001), (15, 0x800)]);
    let mut vm = VirtualMachine::new();
    let mut initial = None;
    // Not the first frame: nothing can be done.
    let mut regs = DwarfRegs::new();
    let r = vm.unwind(&stack, &previous, &mut initial, &mut regs, &table, &[], 0x2000, 0, 0x800, false);
    assert_eq!(r, Err(Error::UnwindInfoMissing));
    // The first frame returns through the link register.
    let mut regs = DwarfRegs::new();
    let r = vm.unwind(&stack, &previous, &mut initial, &mut regs, &table, &[], 0x2000, 0, 0x800, true);
    assert_eq!(r, Ok(()));
    assert_eq!(regs.get(0), Some(7));
    assert_eq!(regs.get(13), Some(0x7000));
    assert_eq!(regs.get(14), Some(0x5001));
    assert_eq!(regs.get(15), Some(0x5000));
    assert_eq!(initial, None);
}

#[test]
fn unwind_no_progress_fails() {
    let table = exidx(&[(0u32.wrapping_sub(0x1000), 1)]);
    let stack = Stack { base: 0, words: vec![] };
    let previous = regs_with(&[(13, 0x7000), (14, 0x801), (15, 0x800)]);
    let mut regs = DwarfRegs::new();
    let mut vm = VirtualMachine::new();
    let mut initial = None;
    let r = vm.unwind(&stack, &previous, &mut initial, &mut regs, &table, &[], 0x2000, 0, 0x800, true);
    assert_eq!(r, Err(Error::UnwindingFailed));
}

#[test]
fn unwind_at_function_start() {
    // On the first instruction nothing has been pushed yet.
    let table = exidx(&[(0u32.wrapping_sub(0x1000), 0x80a8_b0b0)]);
    let stack = Stack { base: 0, words: vec![] };
    let previous = regs_with(&[(13, 0x7000), (14, 0x4001), (15, 0x1000)]);
    let mut regs = DwarfRegs::new();
    let mut vm = VirtualMachine::new();
    let mut initial = None;
    let r = vm.unwind(&stack, &previous, &mut initial, &mut regs, &table, &[], 0x2000, 0, 0x1000, true);
    assert_eq!(r, Ok(()));
    assert_eq!(regs.get(15), Some(0x4000));
    assert_eq!(regs.get(13), Some(0x7000));
    assert_eq!(regs.get(4), None);
}

#[test]
fn unwind_missing_stack_pointer() {
    let table = exidx(&[(0u32.wrapping_sub(0x1000), 0x80a8_b0b0)]);
    let stack = Stack { base: 0, words: vec![] };
    let previous = regs_with(&[(14, 0x4001), (15, 0x1010)]);
    let mut regs = DwarfRegs::new();
    let mut vm = VirtualMachine::new();
    let mut initial = None;
    let r = vm.unwind(&stack, &previous, &mut initial, &mut regs, &table, &[], 0x2000, 0, 0x1010, true);
    assert_eq!(r, Err(Error::MissingRegisterValue(Reg(13))));
}

#[test]
fn unwind_unreadable_stack() {
    let table = exidx(&[(0u32.wrapping_sub(0x1000), 0x80a8_b0b0)]);
    let stack = Stack { base: 0x7000, words: vec![0x1111] };
    let previous = regs_with(&[(13, 0x7000), (14, 0x9999), (15, 0x1010)]);
    let mut regs = DwarfRegs::new();
    let mut vm = VirtualMachine::new();
    let mut initial = None;
    let r = vm.unwind(&stack, &previous, &mut initial, &mut regs, &table, &[], 0x2000, 0, 0x1010, true);
    assert_eq!(r, Err(Error::MemoryUnaccessible { address: 0x7004 }));
    assert_eq!(regs.get(4), Some(0x1111));
}

#[test]
fn unwind_through_extab_compact_model() {
    // Entry at 0x2000 for the function at 0x1000; its value is the prel31
    // offset 0x1000 - 4 from the entry's second word to extab at 0x3000.
    let table = exidx(&[(0u32.wrapping_sub(0x1000), 0x0ffc)]);
    // Personality routine 1 with one more word: "vsp += 8", "pop {r4, r14}",
    // then "finish" four times.
    let extab = [0xa8, 0x01, 0x01, 0x81, 0xb0, 0xb0, 0xb0, 0xb0];
    let stack = Stack { base: 0x7000, words: vec![0, 0, 0x2222, 0x6001] };
    let previous = regs_with(&[(13, 0x7000), (14, 0x9999), (15, 0x1010)]);
    let mut regs = DwarfRegs::new();
    let mut vm = VirtualMachine::new();
    let mut initial = None;
    let r = vm.unwind(&stack, &previous, &mut initial, &mut regs, &table, &extab, 0x2000, 0x3000, 0x1011, false);
    assert_eq!(r, Ok(()));
    assert_eq!(regs.get(4), Some(0x2222));
    assert_eq!(regs.get(15), Some(0x6000));
    assert_eq!(regs.get(13), Some(0x7010));
}

#[test]
fn unwind_unsupported_personality() {
    let table = exidx(&[(0u32.wrapping_sub(0x1000), 0x0ffc)]);
    let extab = [0xb0, 0xb0, 0xb0, 0x83];
    let stack = Stack { base: 0, words: vec![] };
    let previous = regs_with(&[(13, 0x7000), (14, 0x9999), (15, 0x1010)]);
    let mut regs = DwarfRegs::new();
    let mut vm = VirtualMachine::new();
    let mut initial = None;
    let r = vm.unwind(&stack, &previous, &mut initial, &mut regs, &table, &extab, 0x2000, 0x3000, 0x1010, true);
    assert_eq!(r, Err(Error::UnsupportedPersonality(3)));
}

#[test]
fn unwind_truncated_extab_entry() {
    let table = exidx(&[(0u32.wrapping_sub(0x1000), 0x0ffc)]);
    let extab = [0xb0, 0xb0];
    let stack = Stack { base: 0, words: vec![] };
    let previous = regs_with(&[(13, 0x7000), (14, 0x9999), (15, 0x1010)]);
    let mut regs = DwarfRegs::new();
    let mut vm = VirtualMachine::new();
    let mut initial = None;
    let r = vm.unwind(&stack, &previous, &mut initial, &mut regs, &table, &extab, 0x2000, 0x3000, 0x1010, true);
    assert_eq!(r, Err(Error::DecodeError(DecodeError::UnexpectedEnd)));
}

#[test]
fn unwind_refuse_to_unwind() {
    let table = exidx(&[(0u32.wrapping_sub(0x1000), 0x8080_00b0)]);
    let stack = Stack { base: 0, words: vec![] };
    let previous = regs_with(&[(13, 0x7000), (14, 0x9999), (15, 0x1010)]);
    let mut regs = DwarfRegs::new();
    let mut vm = VirtualMachine::new();
    let mut initial = None;
    let r = vm.unwind(&stack, &previous, &mut initial, &mut regs, &table, &[], 0x2000, 0, 0x1010, true);
    assert_eq!(r, Err(Error::EndOfStack));
}

#[test]
fn unwind_picks_entry_by_address() {
    // Functions at 0x1000, 0x1100 and 0x1200; only the middle one pops r5.
    let table = exidx(&[
        (0u32.wrapping_sub(0x1000), 1),
        (0u32.wrapping_sub(0x1000 - 0x100 + 8), 0x80a1_b0b0),
        (0u32.wrapping_sub(0x1000 - 0x200 + 16), 1),
    ]);
    let stack = Stack { base: 0x7000, words: vec![0x44, 0x55] };
    let previous = regs_with(&[(13, 0x7000), (14, 0x3001), (15, 0x1150)]);
    let mut regs = DwarfRegs::new();
    let mut vm = VirtualMachine::new();
    let mut initial = None;
    let r = vm.unwind(&stack, &previous, &mut initial, &mut regs, &table, &[], 0x2000, 0, 0x1150, true);
    assert_eq!(initial, Some(0x1100));
    assert_eq!(r, Ok(()));
    assert_eq!(regs.get(4), Some(0x44));
    assert_eq!(regs.get(5), Some(0x55));
    assert_eq!(regs.get(15), Some(0x3000));
    assert_eq!(regs.get(13), Some(0x7008));
}

#[test]
fn decode_error_converts_into_error() {
    assert_eq!(Error::from(DecodeError::UnexpectedEnd), Error::DecodeError(DecodeError::UnexpectedEnd));
}
