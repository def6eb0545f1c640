//! The stream of unwinding bytecode of an index or table entry: the bytes left
//! in an inline word, followed by the words of the table entry.

use crate::bytes::{be_u32, le_u32, read_u32_be, swap_bytes_u32, swapped_u32};
use vstd::prelude::*;
use vstd::slice::slice_subrange;

verus! {

/// The four bytes of `w`, most significant first.
pub open spec fn word_bytes(w: u32) -> Seq<u8> {
    seq![(w >> 24u32) as u8, (w >> 16u32) as u8, (w >> 8u32) as u8, w as u8]
}

/// The bytecode held by `data`, read as consecutive little-endian words whose
/// bytes come most significant first.
pub open spec fn data_bytes(data: Seq<u8>) -> Seq<u8>
    decreases data.len(),
{
    if data.len() < 4 {
        Seq::empty()
    } else {
        seq![data[3], data[2], data[1], data[0]] + data_bytes(data.skip(4))
    }
}

/// The whole bytecode stream: the bytes of `inline_bytecode` after the first
/// `inline_offset`, then the bytes of `data`.
pub open spec fn bytecode_stream(inline_bytecode: u32, inline_offset: nat, data: Seq<u8>) -> Seq<u8> {
    word_bytes(inline_bytecode).skip(inline_offset as int) + data_bytes(data)
}

/// Each word of the table data is a little-endian word whose bytes come
/// most significant first.
pub proof fn lemma_data_word_order(data: Seq<u8>)
    requires
        data.len() >= 4,
    ensures
        data_bytes(data).take(4) == word_bytes(le_u32(data)),
        data_bytes(data).skip(4) == data_bytes(data.skip(4)),
{
    let (d0, d1, d2, d3) = (data[0], data[1], data[2], data[3]);
    let w = le_u32(data);
    assert(w == ((d3 as u32) << 24u32) | ((d2 as u32) << 16u32) | ((d1 as u32) << 8u32) | (d0 as u32));
    assert((w >> 24u32) as u8 == d3 && (w >> 16u32) as u8 == d2 && (w >> 8u32) as u8 == d1 && w as u8
        == d0) by (bit_vector)
        requires
            w == ((d3 as u32) << 24u32) | ((d2 as u32) << 16u32) | ((d1 as u32) << 8u32) | (
            d0 as u32),
    ;
    assert(data_bytes(data).take(4) =~= word_bytes(w));
    assert(data_bytes(data).skip(4) =~= data_bytes(data.skip(4)));
}

/// The low `n` bytes of `chunk`, least significant first.
pub open spec fn chunk_bytes(chunk: u32, n: nat) -> Seq<u8> {
    Seq::new(n, |j: int| (chunk >> ((8 * j) as u32)) as u8)
}

/// Yields the unwinding bytecode, one byte at a time.
pub struct BytecodeIter<'a> {
    chunk: u32,
    bytecode: &'a [u8],
    subindex: u8,
}

proof fn lemma_initial_chunk(w: u32, k: u32, j: u32)
    requires
        k < 4,
        j + k < 4,
    ensures
        (swapped_u32(w << ((k * 8) as u32)) >> ((8 * j) as u32)) as u8 == word_bytes(w)[(k + j) as int],
{
    let c = swapped_u32(w << ((k * 8) as u32));
    let b = (c >> ((8 * j) as u32)) as u8;
    let v = w << ((k * 8) as u32);
    assert(c == ((v & 0xffu32) << 24u32) | (((v >> 8u32) & 0xffu32) << 16u32) | (((v >> 16u32)
        & 0xffu32) << 8u32) | (v >> 24u32));
    assert({
        &&& k + j == 0 ==> b == (w >> 24u32) as u8
        &&& k + j == 1 ==> b == (w >> 16u32) as u8
        &&& k + j == 2 ==> b == (w >> 8u32) as u8
        &&& k + j == 3 ==> b == w as u8
    }) by (bit_vector)
        requires
            k < 4,
            j + k < 4,
            v == w << ((k * 8) as u32),
            c == ((v & 0xffu32) << 24u32) | (((v >> 8u32) & 0xffu32) << 16u32) | (((v >> 16u32)
                & 0xffu32) << 8u32) | (v >> 24u32),
            b == (c >> ((8 * j) as u32)) as u8,
    ;
}

proof fn lemma_shift_chunk(c: u32, j: u32)
    requires
        j < 4,
    ensures
        ((c >> 8u32) >> ((8 * j) as u32)) as u8 == (c >> ((8 * (j + 1)) as u32)) as u8,
{
    assert(((c >> 8u32) >> ((8 * j) as u32)) as u8 == (c >> ((8 * (j + 1)) as u32)) as u8) by (bit_vector)
        requires
            j < 4,
    ;
}

proof fn lemma_be_chunk(d: Seq<u8>)
    requires
        d.len() >= 4,
    ensures
        chunk_bytes(be_u32(d), 4) =~= seq![d[3], d[2], d[1], d[0]],
{
    let (d0, d1, d2, d3) = (d[0], d[1], d[2], d[3]);
    let w = be_u32(d);
    assert(w == ((d0 as u32) << 24u32) | ((d1 as u32) << 16u32) | ((d2 as u32) << 8u32) | (d3 as u32));
    assert((w >> 0u32) as u8 == d3 && (w >> 8u32) as u8 == d2 && (w >> 16u32) as u8 == d1 && (w
        >> 24u32) as u8 == d0) by (bit_vector)
        requires
            w == ((d0 as u32) << 24u32) | ((d1 as u32) << 16u32) | ((d2 as u32) << 8u32) | (
            d3 as u32),
    ;
}

impl<'a> BytecodeIter<'a> {
    #[verifier::type_invariant]
    spec fn inv(self) -> bool {
        &&& (self.subindex < 4 || self.subindex == 0xff)
        &&& self.bytecode@.len() % 4 == 0
    }

    /// The bytes still to come.
    pub closed spec fn remaining(self) -> Seq<u8> {
        if self.subindex == 0xff {
            Seq::empty()
        } else {
            chunk_bytes(self.chunk, (4 - self.subindex) as nat) + data_bytes(self.bytecode@)
        }
    }

    /// Starts at byte `inline_offset` of `inline_bytecode` (counting from its
    /// most significant byte) and goes on with the words of `bytecode`.
    pub fn new(inline_bytecode: u32, inline_offset: u8, bytecode: &'a [u8]) -> (it: Self)
        requires
            inline_offset < 4,
            bytecode@.len() % 4 == 0,
        ensures
            it.remaining() == bytecode_stream(inline_bytecode, inline_offset as nat, bytecode@),
    {
        let chunk = swap_bytes_u32(inline_bytecode << (inline_offset as u32 * 8));
        let it = BytecodeIter { chunk, bytecode, subindex: inline_offset };
        proof {
            let k = inline_offset as u32;
            let expected = bytecode_stream(inline_bytecode, inline_offset as nat, bytecode@);
            assert forall|j: int| 0 <= j < 4 - k implies #[trigger] chunk_bytes(chunk, (4 - k) as nat)[j]
                == word_bytes(inline_bytecode).skip(k as int)[j] by {
                lemma_initial_chunk(inline_bytecode, k, j as u32);
            }
            assert(chunk_bytes(chunk, (4 - k) as nat) =~= word_bytes(inline_bytecode).skip(k as int));
            assert(it.remaining() =~= expected);
        }
        it
    }

    /// The next byte of the stream, if any.
    pub fn next(&mut self) -> (r: Option<u8>)
        ensures
            r == (if old(self).remaining().len() == 0 {
                None
            } else {
                Some(old(self).remaining()[0])
            }),
            final(self).remaining() == (if old(self).remaining().len() == 0 {
                old(self).remaining()
            } else {
                old(self).remaining().drop_first()
            }),
    {
        proof {
            use_type_invariant(&*self);
        }
        if self.subindex == 0xff {
            return None;
        }
        let ghost before = self.remaining();
        let ghost old_chunk = self.chunk;
        let byte = (self.chunk & 0xff) as u8;
        proof {
            assert(byte == (old_chunk >> 0u32) as u8) by (bit_vector)
                requires
                    byte == (old_chunk & 0xffu32) as u8,
            ;
            assert(before[0] == byte);
        }
        let subindex = self.subindex + 1;
        if subindex != 4 {
            self.chunk = self.chunk >> 8;
            self.subindex = subindex;
            proof {
                let n = (4 - subindex) as nat;
                assert forall|j: int| 0 <= j < n implies #[trigger] chunk_bytes(self.chunk, n)[j]
                    == chunk_bytes(old_chunk, n + 1)[j + 1] by {
                    lemma_shift_chunk(old_chunk, j as u32);
                }
                assert(chunk_bytes(self.chunk, n) =~= chunk_bytes(old_chunk, n + 1).drop_first());
                assert(self.remaining() =~= before.drop_first());
            }
        } else if self.bytecode.is_empty() {
            self.subindex = 0xff;
            proof {
                assert(before.drop_first() =~= Seq::<u8>::empty());
            }
        } else {
            let chunk = read_u32_be(self.bytecode);
            let rest = slice_subrange(self.bytecode, 4, self.bytecode.len());
            proof {
                lemma_be_chunk(self.bytecode@);
                assert(rest@ =~= self.bytecode@.skip(4));
                assert(chunk_bytes(old_chunk, 1).drop_first() =~= Seq::<u8>::empty());
                assert(before.drop_first() =~= data_bytes(self.bytecode@));
            }
            self.chunk = chunk;
            self.bytecode = rest;
            self.subindex = 0;
            proof {
                assert(self.remaining() =~= before.drop_first());
            }
        }
        Some(byte)
    }
}

/// Collects the whole bytecode stream of an entry.
pub fn collect_bytecode(inline_bytecode: u32, inline_offset: u8, bytecode: &[u8]) -> (out: Vec<u8>)
    requires
        inline_offset < 4,
        bytecode@.len() % 4 == 0,
    ensures
        out@ == bytecode_stream(inline_bytecode, inline_offset as nat, bytecode@),
{
    let mut it = BytecodeIter::new(inline_bytecode, inline_offset, bytecode);
    let mut out: Vec<u8> = Vec::new();
    let ghost all = it.remaining();
    loop
        invariant
            all == bytecode_stream(inline_bytecode, inline_offset as nat, bytecode@),
            out@ + it.remaining() == all,
        decreases it.remaining().len(),
    {
        match it.next() {
            Some(byte) => {
                proof {
                    assert(out@.push(byte) + it.remaining() =~= all);
                }
                out.push(byte);
            },
            None => {
                proof {
                    assert(out@ =~= all);
                }
                return out;
            },
        }
    }
}

} // verus!
