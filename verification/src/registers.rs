//! The register file of a frame, and the memory the unwinder reads from.

use vstd::prelude::*;

verus! {

/// How many core registers a register file holds (`r0` to `r15`).
pub const REGISTER_COUNT: usize = 16;

/// The DWARF number of the stack pointer, `r13`.
pub const R13: u16 = 13;

/// The DWARF number of the link register, `r14`.
pub const R14: u16 = 14;

/// The DWARF number of the program counter, `r15`.
pub const R15: u16 = 15;

/// The value of `register` in a register file, if it is known.
pub open spec fn reg_value(regs: Seq<Option<u64>>, register: int) -> Option<u64> {
    if 0 <= register < regs.len() {
        regs[register]
    } else {
        None
    }
}

/// The value of `register` in `regs`, or else in `previous_regs`.
pub open spec fn lookup_register(
    previous_regs: Seq<Option<u64>>,
    regs: Seq<Option<u64>>,
    register: int,
) -> Option<u64> {
    match reg_value(regs, register) {
        Some(value) => Some(value),
        None => reg_value(previous_regs, register),
    }
}

/// The core registers of a frame, by their DWARF numbers (`r0` to `r15`),
/// each of which is known or not.
pub struct DwarfRegs {
    values: Vec<Option<u64>>,
}

impl View for DwarfRegs {
    type V = Seq<Option<u64>>;

    closed spec fn view(&self) -> Seq<Option<u64>> {
        self.values@
    }
}

impl DwarfRegs {
    #[verifier::type_invariant]
    spec fn inv(self) -> bool {
        self.values@.len() == REGISTER_COUNT
    }

    /// A register file in which no register is known.
    pub fn new() -> (regs: Self)
        ensures
            regs@ == Seq::new(REGISTER_COUNT as nat, |i: int| None::<u64>),
    {
        let mut values: Vec<Option<u64>> = Vec::new();
        while values.len() < REGISTER_COUNT
            invariant
                values.len() <= REGISTER_COUNT,
                forall|i: int| 0 <= i < values.len() ==> values@[i] is None,
            decreases REGISTER_COUNT - values.len(),
        {
            values.push(None);
        }
        let regs = DwarfRegs { values };
        assert(regs@ =~= Seq::new(REGISTER_COUNT as nat, |i: int| None::<u64>));
        regs
    }

    /// The number of registers the file holds.
    pub fn len(&self) -> (n: usize)
        ensures
            n == self@.len(),
            n == REGISTER_COUNT,
    {
        proof {
            use_type_invariant(self);
        }
        self.values.len()
    }

    /// The value of `register`, if it is known.
    pub fn get(&self, register: u16) -> (r: Option<u64>)
        ensures
            r == reg_value(self@, register as int),
            self@.len() == REGISTER_COUNT,
    {
        proof {
            use_type_invariant(self);
        }
        if (register as usize) < self.values.len() {
            self.values[register as usize]
        } else {
            None
        }
    }

    /// Sets `register` to `value`.
    pub fn append(&mut self, register: u16, value: u64)
        requires
            register < REGISTER_COUNT,
        ensures
            final(self)@ == old(self)@.update(register as int, Some(value)),
            final(self)@.len() == REGISTER_COUNT,
    {
        proof {
            use_type_invariant(&*self);
        }
        let ghost expected = self@.update(register as int, Some(value));
        let mut values: Vec<Option<u64>> = Vec::new();
        let mut i: usize = 0;
        while i < self.values.len()
            invariant
                self.values@.len() == REGISTER_COUNT,
                i <= REGISTER_COUNT,
                values@.len() == i,
                expected == self.values@.update(register as int, Some(value)),
                expected.len() == REGISTER_COUNT,
                register < REGISTER_COUNT,
                forall|j: int| 0 <= j < i ==> values@[j] == expected[j],
            decreases REGISTER_COUNT - i,
        {
            if i == register as usize {
                values.push(Some(value));
            } else {
                let v = self.values[i];
                values.push(v);
            }
            assert(values@[i as int] == expected[i as int]);
            i = i + 1;
        }
        assert(values@ =~= expected);
        self.values = values;
    }
}

/// The value of `register` in `regs`, or else in `previous_regs`.
pub fn get_register(previous_regs: &DwarfRegs, regs: &DwarfRegs, register: u16) -> (r: Option<u64>)
    ensures
        r == lookup_register(previous_regs@, regs@, register as int),
{
    match regs.get(register) {
        Some(value) => Some(value),
        None => previous_regs.get(register),
    }
}

/// Read access to the memory of the unwound process.
pub trait MemoryReader {
    /// The 32-bit little-endian pointer stored at `address`, if that memory
    /// can be read.
    spec fn pointer_at(&self, address: u64) -> Option<u64>;

    /// Reads the 32-bit little-endian pointer stored at `address`.
    fn get_pointer_at_address(&self, address: u64) -> (r: Option<u64>)
        ensures
            r == self.pointer_at(address),
    ;
}

} // verus!
