//! Bit-level access to a byte string, read as one long array of bits.
//!
//! Bit `i` of the array lives in byte `i / 8`, at position `i % 8` counted
//! from the least significant bit. The two executable entry points hand the
//! work to the `bit_field` crate; their contracts are assumed, everything
//! else in this module is proved.

use bit_field::BitArray;
use vstd::prelude::*;

verus! {

/// Whether bit `k` of `byte` is set, bit 0 being the least significant.
pub open spec fn byte_bit(byte: u8, k: u8) -> bool {
    byte & (1u8 << k) != 0
}

/// `byte` with bit `k` forced to `value` and every other bit kept.
pub open spec fn byte_with_bit(byte: u8, k: u8, value: bool) -> u8 {
    if value {
        byte | (1u8 << k)
    } else {
        byte & !(1u8 << k)
    }
}

/// Bit `i` of the bit array stored in `bytes`.
pub open spec fn bit_at(bytes: Seq<u8>, i: int) -> bool {
    byte_bit(bytes[i / 8], (i % 8) as u8)
}

/// `bytes` with bit `i` of the bit array forced to `value`.
pub open spec fn with_bit(bytes: Seq<u8>, i: int, value: bool) -> Seq<u8> {
    bytes.update(i / 8, byte_with_bit(bytes[i / 8], (i % 8) as u8, value))
}

/// Reads one bit through `bit_field::BitArray::get_bit` on a byte slice.
///
/// Assumed, not proved: for an index inside the slice the call returns
/// whether byte `index / 8` has bit `index % 8` set. Indices past the end
/// make the call panic and are excluded.
#[verifier::external_body]
pub(crate) fn get_bit(bytes: &[u8], index: usize) -> (b: bool)
    requires
        index < bytes@.len() * 8,
    ensures
        b == bit_at(bytes@, index as int),
{
    bytes.get_bit(index)
}

/// Writes one bit through `bit_field::BitArray::set_bit` on a byte slice.
///
/// Assumed, not proved: for an index inside the slice the call rewrites byte
/// `index / 8` so that its bit `index % 8` equals `value`, and changes
/// nothing else. Indices past the end make the call panic and are excluded.
#[verifier::external_body]
pub(crate) fn set_bit(bytes: &mut [u8], index: usize, value: bool)
    requires
        index < old(bytes)@.len() * 8,
    ensures
        final(bytes)@ == with_bit(old(bytes)@, index as int, value),
{
    bytes.set_bit(index, value);
}

/// Within one byte, forcing bit `k` is seen at position `k` and nowhere else.
pub proof fn lemma_byte_with_bit(byte: u8, k: u8, value: bool, j: u8)
    requires
        k < 8,
        j < 8,
    ensures
        byte_bit(byte_with_bit(byte, k, value), j) == (if j == k {
            value
        } else {
            byte_bit(byte, j)
        }),
{
    assert((byte | (1u8 << k)) & (1u8 << j) != 0 <==> (j == k || byte & (1u8 << j) != 0))
        by (bit_vector)
        requires
            k < 8,
            j < 8,
    ;
    assert((byte & !(1u8 << k)) & (1u8 << j) != 0 <==> (j != k && byte & (1u8 << j) != 0))
        by (bit_vector)
        requires
            k < 8,
            j < 8,
    ;
}

/// No bit of a zero byte is set.
pub proof fn lemma_zero_byte(k: u8)
    ensures
        !byte_bit(0u8, k),
{
    assert(0u8 & (1u8 << k) == 0) by (bit_vector);
}

/// Forcing bit `i` of a bit array is seen at index `i` and nowhere else,
/// and keeps the length of the byte string.
pub proof fn lemma_with_bit(bytes: Seq<u8>, i: int, value: bool, j: int)
    requires
        0 <= i < bytes.len() * 8,
        0 <= j < bytes.len() * 8,
    ensures
        with_bit(bytes, i, value).len() == bytes.len(),
        bit_at(with_bit(bytes, i, value), j) == (if j == i {
            value
        } else {
            bit_at(bytes, j)
        }),
{
    if j / 8 == i / 8 {
        lemma_byte_with_bit(bytes[i / 8], (i % 8) as u8, value, (j % 8) as u8);
    }
}

} // verus!
