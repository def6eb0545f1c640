//! Lookup of the `.ARM.exidx` index entry that covers an address.

use crate::bytes::{le_u32, read_u32_le, wrap_u32};
use vstd::prelude::*;
use vstd::slice::slice_subrange;

verus! {

/// The size of one index entry in bytes.
pub const INDEX_ENTRY_SIZE: usize = 8;

/// The signed 31-bit value held by the low 31 bits of `offset` (a "prel31"
/// offset of the EHABI).
pub open spec fn prel31(offset: u32) -> int {
    let low = (offset & 0x7fff_ffffu32) as int;
    if offset & 0x4000_0000u32 != 0 {
        low - 0x8000_0000
    } else {
        low
    }
}

/// The address that the prel31 `offset` of word `index + 0` of entry
/// `index` points to, for an index table that starts at `exidx_base`.
pub open spec fn exidx_offset_spec(exidx_base: u32, index: u32, offset: u32) -> u32 {
    wrap_u32(exidx_base + 8 * index + prel31(offset))
}

/// The address a prel31 offset points to: the place of its word plus the
/// signed number held by its low 31 bits (the one number in `-2^30..2^30`
/// that agrees with the offset modulo `2^31`), on 32 bits.
pub proof fn lemma_exidx_offset(exidx_base: u32, index: u32, offset: u32)
    ensures
        -0x4000_0000 <= prel31(offset) < 0x4000_0000,
        (prel31(offset) - offset) % 0x8000_0000 == 0,
        exidx_offset_spec(exidx_base, index, offset) == wrap_u32(exidx_base + 8 * index + prel31(offset)),
{
    let low = offset & 0x7fff_ffffu32;
    assert(low as int == offset % 0x8000_0000 && (offset & 0x4000_0000u32 != 0 <==> low >= 0x4000_0000))
        by (bit_vector)
        requires
            low == offset & 0x7fff_ffffu32,
    ;
}

/// The number of whole entries in the index table `exidx`.
pub open spec fn entry_count(exidx: Seq<u8>) -> int {
    exidx.len() as int / 8
}

/// The first word of entry `i`: the prel31 offset to its function.
pub open spec fn entry_offset(exidx: Seq<u8>, i: int) -> u32 {
    le_u32(exidx.subrange(8 * i, 8 * i + 4))
}

/// The second word of entry `i`: its unwinding data, or where to find it.
pub open spec fn entry_value(exidx: Seq<u8>, i: int) -> u32 {
    le_u32(exidx.subrange(8 * i + 4, 8 * i + 8))
}

/// The two words of an index entry are little-endian: the first at bytes
/// `8 * i .. 8 * i + 4`, the second at `8 * i + 4 .. 8 * i + 8`.
pub proof fn lemma_entry_words(exidx: Seq<u8>, i: int)
    requires
        0 <= i < entry_count(exidx),
    ensures
        entry_offset(exidx, i) as int == exidx[8 * i] + 0x100 * exidx[8 * i + 1] + 0x1_0000 * exidx[8
            * i + 2] + 0x100_0000 * exidx[8 * i + 3],
        entry_value(exidx, i) as int == exidx[8 * i + 4] + 0x100 * exidx[8 * i + 5] + 0x1_0000
            * exidx[8 * i + 6] + 0x100_0000 * exidx[8 * i + 7],
{
    assert(8 * i + 8 <= exidx.len());
    lemma_le_u32_value(exidx.subrange(8 * i, 8 * i + 4));
    lemma_le_u32_value(exidx.subrange(8 * i + 4, 8 * i + 8));
}

proof fn lemma_le_u32_value(b: Seq<u8>)
    requires
        b.len() >= 4,
    ensures
        le_u32(b) as int == b[0] + 0x100 * b[1] + 0x1_0000 * b[2] + 0x100_0000 * b[3],
{
    let (b0, b1, b2, b3) = (b[0], b[1], b[2], b[3]);
    let w = le_u32(b);
    assert(w == ((b3 as u32) << 24u32) | ((b2 as u32) << 16u32) | ((b1 as u32) << 8u32) | (b0 as u32));
    assert(w == b0 as u32 + 0x100u32 * (b1 as u32) + 0x1_0000u32 * (b2 as u32) + 0x100_0000u32 * (
    b3 as u32)) by (bit_vector)
        requires
            w == ((b3 as u32) << 24u32) | ((b2 as u32) << 16u32) | ((b1 as u32) << 8u32) | (
            b0 as u32),
    ;
}

/// The start address of the function of entry `i`.
pub open spec fn function_start(exidx: Seq<u8>, exidx_base: u32, i: int) -> u32 {
    exidx_offset_spec(exidx_base, i as u32, entry_offset(exidx, i))
}

/// The binary search over the entries `lo..lo + size` for `address`, as
/// the lookup performs it.
pub open spec fn search_from(exidx: Seq<u8>, exidx_base: u32, address: u32, lo: int, size: int) -> Option<int>
    decreases size,
{
    if size <= 0 {
        None
    } else {
        let half = size / 2;
        let mid = lo + half;
        let start = function_start(exidx, exidx_base, mid);
        if address == start {
            Some(mid)
        } else {
            let lo2 = if address > start {
                mid
            } else {
                lo
            };
            if half == 0 {
                if address >= function_start(exidx, exidx_base, lo2) {
                    Some(lo2)
                } else {
                    None
                }
            } else {
                search_from(exidx, exidx_base, address, lo2, size - half)
            }
        }
    }
}

/// The entry that the lookup finds for `address`.
pub open spec fn search_spec(exidx: Seq<u8>, exidx_base: u32, address: u32) -> Option<int> {
    search_from(exidx, exidx_base, address, 0, entry_count(exidx))
}

/// The entry found for `address`, with the address range of its function:
/// from its start to the start of the next entry's function (or `u32::MAX`
/// for the last entry).
pub open spec fn find_entry_spec(exidx: Seq<u8>, exidx_base: u32, address: u32) -> Option<(int, u32, u32)> {
    match search_spec(exidx, exidx_base, address) {
        None => None,
        Some(i) => Some(
            (
                i,
                function_start(exidx, exidx_base, i),
                if i + 1 < entry_count(exidx) {
                    function_start(exidx, exidx_base, i + 1)
                } else {
                    0xffff_ffffu32
                },
            ),
        ),
    }
}

/// An entry of the `.ARM.exidx` section.
pub struct IndexEntry {
    raw_offset_to_function: u32,
    raw_value: u32,
}

impl IndexEntry {
    /// The first word of the entry.
    pub closed spec fn spec_offset_to_function(self) -> u32 {
        self.raw_offset_to_function
    }

    /// The second word of the entry.
    pub closed spec fn spec_value(self) -> u32 {
        self.raw_value
    }

    /// Reads entry `index` of the table `exidx`; its words are little-endian.
    pub fn read(exidx: &[u8], index: usize) -> (e: Self)
        requires
            index < entry_count(exidx@),
        ensures
            e.spec_offset_to_function() == entry_offset(exidx@, index as int),
            e.spec_value() == entry_value(exidx@, index as int),
    {
        let len = exidx.len();
        assert(index * 8 + 8 <= len) by (nonlinear_arith)
            requires
                index < len as int / 8,
        ;
        let start = index * 8;
        let bytes = slice_subrange(exidx, start, start + 8);
        let word_1 = slice_subrange(bytes, 4, 8);
        let e = IndexEntry { raw_offset_to_function: read_u32_le(bytes), raw_value: read_u32_le(word_1) };
        proof {
            assert(bytes@.subrange(0, 4) =~= exidx@.subrange(8 * index, 8 * index + 4));
            assert(word_1@ =~= exidx@.subrange(8 * index + 4, 8 * index + 8));
        }
        e
    }

    /// The prel31 offset from the entry to the start of its function.
    pub fn offset_to_function(&self) -> (r: u32)
        ensures
            r == self.spec_offset_to_function(),
    {
        self.raw_offset_to_function
    }

    /// The unwinding data of the entry, or the prel31 offset to it.
    pub fn value(&self) -> (r: u32)
        ensures
            r == self.spec_value(),
    {
        self.raw_value
    }
}

/// The address that the prel31 `offset` held by entry `exidx_index` points to.
pub fn exidx_offset(exidx_base: u32, exidx_index: u32, offset: u32) -> (r: u32)
    ensures
        r == exidx_offset_spec(exidx_base, exidx_index, offset),
{
    // Sign extend to the left.
    let extended = (((offset << 1) as i32) >> 1) as u32;
    let low = offset & 0x7fff_ffff;
    assert(extended == (if offset & 0x4000_0000u32 != 0 {
        low | 0x8000_0000u32
    } else {
        low
    }) && low < 0x8000_0000u32 && (low | 0x8000_0000u32) == low + 0x8000_0000u32) by (bit_vector)
        requires
            extended == (((offset << 1u32) as i32) >> 1i32) as u32,
            low == offset & 0x7fff_ffffu32,
    ;
    assert(extended == wrap_u32(prel31(offset)));
    let scaled = exidx_index.wrapping_mul(8);
    let at_entry = exidx_base.wrapping_add(scaled);
    let r = at_entry.wrapping_add(extended);
    assert(scaled == wrap_u32(8 * exidx_index));
    assert(at_entry == wrap_u32(exidx_base + 8 * exidx_index));
    r
}

/// The start address of the function of entry `index`.
fn entry_function_start(exidx: &[u8], exidx_base: u32, index: usize) -> (r: u32)
    requires
        index < entry_count(exidx@),
    ensures
        r == function_start(exidx@, exidx_base, index as int),
{
    let entry = IndexEntry::read(exidx, index);
    exidx_offset(exidx_base, index as u32, entry.offset_to_function())
}

/// Binary search of the index table for the entry that covers `address`.
fn search(exidx: &[u8], exidx_base: u32, address: u32) -> (r: Option<usize>)
    requires
        entry_count(exidx@) >= 1,
    ensures
        r matches Some(i) ==> search_spec(exidx@, exidx_base, address) == Some(i as int),
        r is None ==> search_spec(exidx@, exidx_base, address) is None,
{
    let count = exidx.len() / INDEX_ENTRY_SIZE;
    let mut size = count;
    let mut base: usize = 0;
    loop
        invariant
            count == entry_count(exidx@),
            1 <= size,
            base + size <= count,
            search_from(exidx@, exidx_base, address, base as int, size as int) == search_spec(
                exidx@,
                exidx_base,
                address,
            ),
        ensures
            size == 1,
            base < count,
            search_from(exidx@, exidx_base, address, base as int, 1) == search_spec(
                exidx@,
                exidx_base,
                address,
            ),
        decreases size,
    {
        let half = size / 2;
        let mid = base + half;
        let entry_function_address = entry_function_start(exidx, exidx_base, mid);
        if address > entry_function_address {
            base = mid;
        } else {
            if address == entry_function_address {
                return Some(mid);
            }
        }
        if half == 0 {
            break ;
        }
        size = size - half;
    }
    let entry_function_address = entry_function_start(exidx, exidx_base, base);
    if address >= entry_function_address {
        Some(base)
    } else {
        None
    }
}

/// Finds the entry that covers `address`: its number, the entry, and the
/// start and end of its function's address range.
pub fn find_entry(exidx: &[u8], exidx_base: u32, address: u32) -> (r: Option<(usize, IndexEntry, u32, u32)>)
    requires
        entry_count(exidx@) >= 1,
    ensures
        match r {
            None => find_entry_spec(exidx@, exidx_base, address) is None,
            Some((index, entry, start, end)) => {
                &&& find_entry_spec(exidx@, exidx_base, address) == Some((index as int, start, end))
                &&& index < entry_count(exidx@)
                &&& entry.spec_offset_to_function() == entry_offset(exidx@, index as int)
                &&& entry.spec_value() == entry_value(exidx@, index as int)
            },
        },
{
    let count = exidx.len() / INDEX_ENTRY_SIZE;
    let index = match search(exidx, exidx_base, address) {
        Some(index) => index,
        None => return None,
    };
    proof {
        lemma_search_in_range(exidx@, exidx_base, address, 0, entry_count(exidx@));
    }
    let entry = IndexEntry::read(exidx, index);
    let function_start = exidx_offset(exidx_base, index as u32, entry.offset_to_function());
    let function_end = if index + 1 < count {
        entry_function_start(exidx, exidx_base, index + 1)
    } else {
        0xffff_ffffu32
    };
    Some((index, entry, function_start, function_end))
}

/// The entry the lookup finds is an entry of the table.
pub proof fn lemma_search_index_in_range(exidx: Seq<u8>, exidx_base: u32, address: u32)
    ensures
        search_spec(exidx, exidx_base, address) matches Some(i) ==> 0 <= i < entry_count(exidx),
{
    lemma_search_in_range(exidx, exidx_base, address, 0, entry_count(exidx));
}

proof fn lemma_search_in_range(exidx: Seq<u8>, exidx_base: u32, address: u32, lo: int, size: int)
    ensures
        search_from(exidx, exidx_base, address, lo, size) matches Some(i) ==> lo <= i < lo + size,
    decreases size,
{
    if size > 0 {
        let half = size / 2;
        let mid = lo + half;
        let start = function_start(exidx, exidx_base, mid);
        let lo2 = if address > start {
            mid
        } else {
            lo
        };
        if half != 0 {
            lemma_search_in_range(exidx, exidx_base, address, lo2, size - half);
        }
    }
}

/// Whether the function start addresses of the entries increase with the
/// entry number, as they do in a well-formed index table.
pub open spec fn starts_increasing(exidx: Seq<u8>, exidx_base: u32) -> bool {
    forall|i: int, j: int|
        0 <= i < j < entry_count(exidx) ==> #[trigger] function_start(exidx, exidx_base, i)
            < #[trigger] function_start(exidx, exidx_base, j)
}

proof fn lemma_search_from_sorted(exidx: Seq<u8>, exidx_base: u32, address: u32, lo: int, size: int)
    requires
        starts_increasing(exidx, exidx_base),
        0 <= lo,
        1 <= size,
        lo + size <= entry_count(exidx),
        lo == 0 || function_start(exidx, exidx_base, lo) < address,
        lo + size == entry_count(exidx) || address < function_start(exidx, exidx_base, lo + size),
    ensures
        match search_from(exidx, exidx_base, address, lo, size) {
            None => lo == 0 && address < function_start(exidx, exidx_base, 0),
            Some(i) => {
                &&& lo <= i < lo + size
                &&& function_start(exidx, exidx_base, i) <= address
                &&& (i + 1 < entry_count(exidx) ==> address < function_start(
                    exidx,
                    exidx_base,
                    i + 1,
                ))
            },
        },
    decreases size,
{
    let n = entry_count(exidx);
    let half = size / 2;
    let mid = lo + half;
    let start = function_start(exidx, exidx_base, mid);
    if address == start {
        if mid + 1 < n {
            assert(function_start(exidx, exidx_base, mid) < function_start(exidx, exidx_base, mid + 1));
        }
    } else {
        let lo2 = if address > start {
            mid
        } else {
            lo
        };
        if half == 0 {
        } else {
            let upper = lo2 + size - half;
            if upper < n && lo2 == lo {
                if mid < upper {
                    assert(function_start(exidx, exidx_base, mid) < function_start(
                        exidx,
                        exidx_base,
                        upper,
                    ));
                }
            }
            lemma_search_from_sorted(exidx, exidx_base, address, lo2, size - half);
        }
    }
}

/// In an index table whose function starts increase, the lookup finds the
/// last entry whose function starts at or below `address`; it finds none
/// exactly when `address` lies below the first function.
pub proof fn lemma_search_sorted(exidx: Seq<u8>, exidx_base: u32, address: u32)
    requires
        entry_count(exidx) >= 1,
        starts_increasing(exidx, exidx_base),
    ensures
        search_spec(exidx, exidx_base, address) is None <==> address < function_start(
            exidx,
            exidx_base,
            0,
        ),
        search_spec(exidx, exidx_base, address) matches Some(i) ==> {
            &&& 0 <= i < entry_count(exidx)
            &&& function_start(exidx, exidx_base, i) <= address
            &&& (i + 1 < entry_count(exidx) ==> address < function_start(exidx, exidx_base, i + 1))
        },
{
    lemma_search_from_sorted(exidx, exidx_base, address, 0, entry_count(exidx));
    if let Some(i) = search_spec(exidx, exidx_base, address) {
        if i > 0 {
            assert(function_start(exidx, exidx_base, 0) < function_start(exidx, exidx_base, i));
        }
    }
}

/// In an index table whose function starts increase, the entry found for
/// `address` is the one whose function range holds it.
pub proof fn lemma_find_entry_sorted(exidx: Seq<u8>, exidx_base: u32, address: u32)
    requires
        entry_count(exidx) >= 1,
        starts_increasing(exidx, exidx_base),
    ensures
        find_entry_spec(exidx, exidx_base, address) is None <==> address < function_start(
            exidx,
            exidx_base,
            0,
        ),
        find_entry_spec(exidx, exidx_base, address) matches Some((i, start, end)) ==> {
            &&& 0 <= i < entry_count(exidx)
            &&& start == function_start(exidx, exidx_base, i)
            &&& start <= address <= end
            &&& (i + 1 < entry_count(exidx) ==> address < end)
        },
{
    lemma_search_sorted(exidx, exidx_base, address);
}

} // verus!
