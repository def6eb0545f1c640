//! Core and floating point registers, and register masks as they appear in
//! the unwinding bytecode.

use crate::bytes::ascii_string;
use vstd::prelude::*;

verus! {

/// Whether bit `i` of `mask` is set.
pub open spec fn mask_bit(mask: u32, i: nat) -> bool {
    (mask >> i) & 1u32 == 1u32
}

/// The numbers `i` in `from..limit` whose bit is set in `mask`, in increasing order.
pub open spec fn set_bits_from(mask: u32, from: nat, limit: nat) -> Seq<u8>
    decreases limit - from,
{
    if from >= limit {
        Seq::empty()
    } else if mask_bit(mask, from) {
        seq![from as u8] + set_bits_from(mask, from + 1, limit)
    } else {
        set_bits_from(mask, from + 1, limit)
    }
}

/// The registers a mask names come out in increasing order, each once, and
/// they are exactly those in `from..limit` whose bit is set.
pub proof fn lemma_set_bits_from(mask: u32, from: nat, limit: nat)
    requires
        limit <= 32,
    ensures
        forall|i: int, j: int|
            0 <= i < j < set_bits_from(mask, from, limit).len() ==> set_bits_from(mask, from, limit)[i]
                < set_bits_from(mask, from, limit)[j],
        forall|i: int|
            0 <= i < set_bits_from(mask, from, limit).len() ==> {
                let n = #[trigger] set_bits_from(mask, from, limit)[i];
                &&& from <= n < limit
                &&& mask_bit(mask, n as nat)
            },
        forall|n: nat|
            from <= n < limit && mask_bit(mask, n) ==> #[trigger] set_bits_from(
                mask,
                from,
                limit,
            ).contains(n as u8),
    decreases limit - from,
{
    if from < limit {
        lemma_set_bits_from(mask, from + 1, limit);
        let rest = set_bits_from(mask, from + 1, limit);
        if mask_bit(mask, from) {
            let s = seq![from as u8] + rest;
            assert(s == set_bits_from(mask, from, limit));
            assert forall|i: int| 0 < i < s.len() implies s[i] == rest[i - 1] by {}
            assert forall|n: nat| from <= n < limit && mask_bit(mask, n) implies s.contains(n as u8) by {
                if n == from {
                    assert(s[0] == n as u8);
                } else {
                    assert(rest.contains(n as u8));
                    let k = choose|k: int| 0 <= k < rest.len() && rest[k] == n as u8;
                    assert(s[k + 1] == n as u8);
                }
            }
        }
    }
}

proof fn lemma_bit_u16(mask: u16, index: u8)
    requires
        index < 16,
    ensures
        (mask & (1u16 << index) != 0u16) == mask_bit(mask as u32, index as nat),
{
    assert((mask & (1u16 << index) != 0u16) == (((mask as u32) >> (index as u32)) & 1u32 == 1u32))
        by (bit_vector)
        requires
            index < 16,
    ;
}

proof fn lemma_bit_u32(mask: u32, index: u8)
    requires
        index < 32,
    ensures
        (mask & (1u32 << index) != 0u32) == mask_bit(mask, index as nat),
{
    assert((mask & (1u32 << index) != 0u32) == ((mask >> (index as u32)) & 1u32 == 1u32))
        by (bit_vector)
        requires
            index < 32,
    ;
}

/// A core register, `r0` to `r15`, by its number.
#[derive(Copy, Clone, PartialEq, Eq, Debug)]
pub struct Reg(pub u8);

/// A double precision floating point register, `d0` to `d31`, by its number.
#[derive(Copy, Clone, PartialEq, Eq, Debug)]
pub struct FpReg(pub u8);

/// A set of core registers: bit `n` stands for `r<n>`.
#[derive(Copy, Clone, PartialEq, Eq, Debug)]
pub struct RegMask(pub u16);

/// A set of floating point registers: bit `n` stands for `d<n>`.
#[derive(Copy, Clone, PartialEq, Eq, Debug)]
pub struct FpRegMask(pub u32);

/// Walks the core registers of a mask, lowest number first.
pub struct RegsIter {
    mask: u16,
    index: u8,
}

impl RegsIter {
    #[verifier::type_invariant]
    spec fn inv(self) -> bool {
        self.index <= 16
    }

    /// The mask being walked.
    pub closed spec fn mask(self) -> u16 {
        self.mask
    }

    /// The numbers of the registers still to come.
    pub closed spec fn remaining(self) -> Seq<u8> {
        set_bits_from(self.mask as u32, self.index as nat, 16)
    }

    pub fn new(mask: u16) -> (it: Self)
        ensures
            it.mask() == mask,
            it.remaining() == set_bits_from(mask as u32, 0, 16),
    {
        RegsIter { mask, index: 0 }
    }

    /// The next register of the mask, if any.
    pub fn next(&mut self) -> (r: Option<Reg>)
        ensures
            r matches Some(reg) ==> reg.0 < 16,
            final(self).mask() == old(self).mask(),
            r == (if old(self).remaining().len() == 0 {
                None
            } else {
                Some(Reg(old(self).remaining()[0]))
            }),
            final(self).remaining() == (if old(self).remaining().len() == 0 {
                old(self).remaining()
            } else {
                old(self).remaining().drop_first()
            }),
    {
        proof {
            use_type_invariant(&*self);
        }
        let ghost start = self.remaining();
        while self.index < 16
            invariant
                self.index <= 16,
                self.mask == old(self).mask,
                self.remaining() == start,
                start == old(self).remaining(),
            decreases 16 - self.index,
        {
            let index = self.index;
            self.index = index + 1;
            proof {
                lemma_bit_u16(self.mask, index);
            }
            if self.mask & (1u16 << index) != 0 {
                proof {
                    assert(start =~= seq![index] + self.remaining());
                    assert(start.drop_first() =~= self.remaining());
                }
                return Some(Reg(index));
            }
        }
        None
    }
}

/// Walks the floating point registers of a mask, lowest number first.
pub struct FpRegsIter {
    mask: u32,
    index: u8,
}

impl FpRegsIter {
    #[verifier::type_invariant]
    spec fn inv(self) -> bool {
        self.index <= 32
    }

    /// The mask being walked.
    pub closed spec fn mask(self) -> u32 {
        self.mask
    }

    /// The numbers of the registers still to come.
    pub closed spec fn remaining(self) -> Seq<u8> {
        set_bits_from(self.mask, self.index as nat, 32)
    }

    pub fn new(mask: u32) -> (it: Self)
        ensures
            it.mask() == mask,
            it.remaining() == set_bits_from(mask, 0, 32),
    {
        FpRegsIter { mask, index: 0 }
    }

    /// The next register of the mask, if any.
    pub fn next(&mut self) -> (r: Option<FpReg>)
        ensures
            r matches Some(reg) ==> reg.0 < 32,
            final(self).mask() == old(self).mask(),
            r == (if old(self).remaining().len() == 0 {
                None
            } else {
                Some(FpReg(old(self).remaining()[0]))
            }),
            final(self).remaining() == (if old(self).remaining().len() == 0 {
                old(self).remaining()
            } else {
                old(self).remaining().drop_first()
            }),
    {
        proof {
            use_type_invariant(&*self);
        }
        let ghost start = self.remaining();
        while self.index < 32
            invariant
                self.index <= 32,
                self.mask == old(self).mask,
                self.remaining() == start,
                start == old(self).remaining(),
            decreases 32 - self.index,
        {
            let index = self.index;
            self.index = index + 1;
            proof {
                lemma_bit_u32(self.mask, index);
            }
            if self.mask & (1u32 << index) != 0 {
                proof {
                    assert(start =~= seq![index] + self.remaining());
                    assert(start.drop_first() =~= self.remaining());
                }
                return Some(FpReg(index));
            }
        }
        None
    }
}

/// The decimal digits of `n`, in ASCII.
pub open spec fn decimal(n: nat) -> Seq<u8>
    decreases n,
{
    if n < 10 {
        seq![(48 + n) as u8]
    } else {
        decimal(n / 10) + seq![(48 + n % 10) as u8]
    }
}

/// The name of register number `n`, such as `r7` or `d8`.
pub open spec fn reg_name(prefix: u8, n: u8) -> Seq<u8> {
    seq![prefix] + decimal(n as nat)
}

/// The names of the registers `regs`, separated by `, `.
pub open spec fn reg_names(prefix: u8, regs: Seq<u8>) -> Seq<u8>
    decreases regs.len(),
{
    if regs.len() == 0 {
        Seq::empty()
    } else if regs.len() == 1 {
        reg_name(prefix, regs[0])
    } else {
        reg_names(prefix, regs.drop_last()) + seq![44u8, 32u8] + reg_name(prefix, regs.last())
    }
}

/// The text of a register set, such as `{r4, r14}`.
pub open spec fn reg_set_text(prefix: u8, regs: Seq<u8>) -> Seq<u8> {
    seq![123u8] + reg_names(prefix, regs) + seq![125u8]
}

/// Whether all bytes of `s` are ASCII.
pub open spec fn all_ascii(s: Seq<u8>) -> bool {
    forall|i: int| 0 <= i < s.len() ==> s[i] < 128
}

/// The characters of the ASCII text `s`.
pub open spec fn ascii_chars(s: Seq<u8>) -> Seq<char> {
    s.map_values(|b: u8| b as char)
}

proof fn lemma_decimal_ascii(n: nat)
    ensures
        all_ascii(decimal(n)),
    decreases n,
{
    if n >= 10 {
        lemma_decimal_ascii(n / 10);
    }
}

proof fn lemma_reg_names_ascii(prefix: u8, regs: Seq<u8>)
    requires
        prefix < 128,
    ensures
        all_ascii(reg_names(prefix, regs)),
    decreases regs.len(),
{
    if regs.len() >= 1 {
        lemma_decimal_ascii(regs.last() as nat);
        if regs.len() == 1 {
            lemma_decimal_ascii(regs[0] as nat);
        } else {
            lemma_reg_names_ascii(prefix, regs.drop_last());
        }
    }
}

/// Appends the name of register `n` to `out`.
fn push_reg_name(out: &mut Vec<u8>, prefix: u8, n: u8)
    ensures
        final(out)@ == old(out)@ + reg_name(prefix, n),
{
    let ghost start = out@;
    out.push(prefix);
    if n >= 100 {
        let d2 = n / 100;
        let d1 = (n / 10) % 10;
        let d0 = n % 10;
        out.push(48 + d2);
        out.push(48 + d1);
        out.push(48 + d0);
        proof {
            let m = n as nat;
            assert(decimal(m / 100) == seq![(48 + m / 100) as u8]);
            assert(decimal(m / 10) == decimal(m / 100) + seq![(48 + (m / 10) % 10) as u8]);
            assert(decimal(m) == decimal(m / 10) + seq![(48 + m % 10) as u8]);
            assert(out@ =~= start + reg_name(prefix, n));
        }
    } else if n >= 10 {
        out.push(48 + n / 10);
        out.push(48 + n % 10);
        proof {
            let m = n as nat;
            assert(decimal(m / 10) == seq![(48 + m / 10) as u8]);
            assert(out@ =~= start + reg_name(prefix, n));
        }
    } else {
        out.push(48 + n);
        proof {
            assert(out@ =~= start + reg_name(prefix, n));
        }
    }
}

/// The text `{<names>}` of the registers numbered `regs`.
fn reg_set_text_exec(regs: &Vec<u8>, prefix: u8) -> (out: Vec<u8>)
    ensures
        out@ == reg_set_text(prefix, regs@),
{
    let mut out: Vec<u8> = Vec::new();
    out.push(123);
    let mut i: usize = 0;
    while i < regs.len()
        invariant
            i <= regs@.len(),
            out@ == seq![123u8] + reg_names(prefix, regs@.take(i as int)),
        decreases regs@.len() - i,
    {
        proof {
            assert(regs@.take(i + 1).drop_last() =~= regs@.take(i as int));
            assert(regs@.take(i + 1).last() == regs@[i as int]);
        }
        if i > 0 {
            out.push(44);
            out.push(32);
        }
        push_reg_name(&mut out, prefix, regs[i]);
        proof {
            if i == 0 {
                assert(regs@.take(1) =~= seq![regs@[0]]);
            }
            assert(out@ =~= seq![123u8] + reg_names(prefix, regs@.take(i + 1)));
        }
        i = i + 1;
    }
    out.push(125);
    proof {
        assert(regs@.take(regs@.len() as int) =~= regs@);
        assert(out@ =~= reg_set_text(prefix, regs@));
    }
    out
}

/// The text `{<names>}` as a `String`.
fn reg_set_string(regs: &Vec<u8>, prefix: u8) -> (s: String)
    requires
        prefix < 128,
    ensures
        s@ == ascii_chars(reg_set_text(prefix, regs@)),
{
    let text = reg_set_text_exec(regs, prefix);
    proof {
        lemma_reg_names_ascii(prefix, regs@);
        assert(all_ascii(text@));
    }
    ascii_string(text)
}

/// The name of one register as a `String`.
fn reg_name_string(prefix: u8, n: u8) -> (s: String)
    requires
        prefix < 128,
    ensures
        s@ == ascii_chars(reg_name(prefix, n)),
{
    let mut text: Vec<u8> = Vec::new();
    push_reg_name(&mut text, prefix, n);
    proof {
        lemma_decimal_ascii(n as nat);
        assert(text@ =~= reg_name(prefix, n));
        assert(all_ascii(text@));
    }
    ascii_string(text)
}

impl Reg {
    /// The register's name, `r<n>`, as the debug text of the register.
    pub fn debug_string(&self) -> (s: String)
        ensures
            s@ == ascii_chars(reg_name(114, self.0)),
    {
        reg_name_string(114, self.0)
    }
}

impl FpReg {
    /// The register's name, `d<n>`, as the debug text of the register.
    pub fn debug_string(&self) -> (s: String)
        ensures
            s@ == ascii_chars(reg_name(100, self.0)),
    {
        reg_name_string(100, self.0)
    }
}

impl RegMask {
    /// The set of registers of the mask, such as `{r4, r14}`, as its debug
    /// text.
    pub fn debug_string(&self) -> (s: String)
        ensures
            s@ == ascii_chars(reg_set_text(114, set_bits_from(self.0 as u32, 0, 16))),
    {
        let mut it = self.iter();
        let mut regs: Vec<u8> = Vec::new();
        loop
            invariant
                regs@ + it.remaining() == set_bits_from(self.0 as u32, 0, 16),
            decreases it.remaining().len(),
        {
            match it.next() {
                None => {
                    proof {
                        assert(regs@ =~= set_bits_from(self.0 as u32, 0, 16));
                    }
                    return reg_set_string(&regs, 114);
                },
                Some(reg) => {
                    proof {
                        assert(regs@.push(reg.0) + it.remaining() =~= set_bits_from(
                            self.0 as u32,
                            0,
                            16,
                        ));
                    }
                    regs.push(reg.0);
                },
            }
        }
    }

    /// The registers of the mask, lowest number first.
    pub fn iter(self) -> (it: RegsIter)
        ensures
            it.mask() == self.0,
            it.remaining() == set_bits_from(self.0 as u32, 0, 16),
    {
        RegsIter::new(self.0)
    }
}

impl FpRegMask {
    /// The set of registers of the mask, such as `{d8, d9}`, as its debug
    /// text.
    pub fn debug_string(&self) -> (s: String)
        ensures
            s@ == ascii_chars(reg_set_text(100, set_bits_from(self.0, 0, 32))),
    {
        let mut it = self.iter();
        let mut regs: Vec<u8> = Vec::new();
        loop
            invariant
                regs@ + it.remaining() == set_bits_from(self.0, 0, 32),
            decreases it.remaining().len(),
        {
            match it.next() {
                None => {
                    proof {
                        assert(regs@ =~= set_bits_from(self.0, 0, 32));
                    }
                    return reg_set_string(&regs, 100);
                },
                Some(reg) => {
                    proof {
                        assert(regs@.push(reg.0) + it.remaining() =~= set_bits_from(self.0, 0, 32));
                    }
                    regs.push(reg.0);
                },
            }
        }
    }

    /// The registers of the mask, lowest number first.
    pub fn iter(self) -> (it: FpRegsIter)
        ensures
            it.mask() == self.0,
            it.remaining() == set_bits_from(self.0, 0, 32),
    {
        FpRegsIter::new(self.0)
    }
}

} // verus!
