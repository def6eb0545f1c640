//! Reading fixed-width integers out of byte buffers.

use byteorder::{BigEndian, ByteOrder, LittleEndian};
use vstd::prelude::*;

verus! {

/// `x` reduced to 32 bits, as wrapping arithmetic on `u32` computes it.
pub open spec fn wrap_u32(x: int) -> u32 {
    (x % 0x1_0000_0000) as u32
}

/// Reducing to 32 bits before adding does not change the reduced sum.
pub proof fn lemma_wrap_u32_add(a: int, b: int)
    ensures
        wrap_u32(wrap_u32(a) + b) == wrap_u32(a + b),
{
    vstd::arithmetic::div_mod::lemma_add_mod_noop_right(b, a, 0x1_0000_0000);
    assert(wrap_u32(a) as int == a % 0x1_0000_0000);
}

/// A sum at most one turn out of range wraps around once.
pub proof fn lemma_wrap_u32_once(x: int)
    requires
        -0x1_0000_0000 <= x < 0x2_0000_0000,
    ensures
        wrap_u32(x) == (if x < 0 {
            x + 0x1_0000_0000
        } else if x >= 0x1_0000_0000 {
            x - 0x1_0000_0000
        } else {
            x
        }),
{
    let m: int = 0x1_0000_0000;
    if x < 0 {
        vstd::arithmetic::div_mod::lemma_mod_sub_multiples_vanish(x + m, m);
        vstd::arithmetic::div_mod::lemma_small_mod((x + m) as nat, m as nat);
    } else if x >= m {
        vstd::arithmetic::div_mod::lemma_mod_add_multiples_vanish(x - m, m);
        vstd::arithmetic::div_mod::lemma_small_mod((x - m) as nat, m as nat);
    } else {
        vstd::arithmetic::div_mod::lemma_small_mod(x as nat, m as nat);
    }
}

/// The big-endian value of the first four bytes of `b`.
pub open spec fn be_u32(b: Seq<u8>) -> u32 {
    ((b[0] as u32) << 24u32) | ((b[1] as u32) << 16u32) | ((b[2] as u32) << 8u32) | (b[3] as u32)
}

/// The little-endian value of the first four bytes of `b`.
pub open spec fn le_u32(b: Seq<u8>) -> u32 {
    ((b[3] as u32) << 24u32) | ((b[2] as u32) << 16u32) | ((b[1] as u32) << 8u32) | (b[0] as u32)
}

/// The value of `x` with its four bytes in reverse order.
pub open spec fn swapped_u32(x: u32) -> u32 {
    ((x & 0xffu32) << 24u32) | (((x >> 8u32) & 0xffu32) << 16u32) | (((x >> 16u32) & 0xffu32)
        << 8u32) | (x >> 24u32)
}

/// Calls `byteorder::BigEndian::read_u32`, which reads the first four bytes
/// of `buf` as a big-endian integer (and panics on fewer than four).
#[verifier::external_body]
pub(crate) fn read_u32_be(buf: &[u8]) -> (r: u32)
    requires
        buf@.len() >= 4,
    ensures
        r == be_u32(buf@),
{
    BigEndian::read_u32(buf)
}

/// Calls `byteorder::LittleEndian::read_u32`, which reads the first four
/// bytes of `buf` as a little-endian integer (and panics on fewer than four).
#[verifier::external_body]
pub(crate) fn read_u32_le(buf: &[u8]) -> (r: u32)
    requires
        buf@.len() >= 4,
    ensures
        r == le_u32(buf@),
{
    LittleEndian::read_u32(buf)
}

/// Calls `String::from_utf8`, which turns bytes that are valid UTF-8 into
/// a `String` of the characters they encode; each ASCII byte encodes the
/// character of the same number.
#[verifier::external_body]
pub(crate) fn ascii_string(bytes: Vec<u8>) -> (s: String)
    requires
        forall|i: int| 0 <= i < bytes@.len() ==> bytes@[i] < 128,
    ensures
        s@ == bytes@.map_values(|b: u8| b as char),
{
    match String::from_utf8(bytes) {
        Ok(s) => s,
        Err(_) => String::new(),
    }
}

/// Calls `u32::swap_bytes`, which reverses the byte order of `x`.
#[verifier::external_body]
pub(crate) fn swap_bytes_u32(x: u32) -> (r: u32)
    ensures
        r == swapped_u32(x),
{
    x.swap_bytes()
}

} // verus!
