//! Little-endian fixed-width integers: what the bytes are, what they denote,
//! and the calls that write and read them.

use bytes::{BufMut, ByteOrder, LittleEndian};
use vstd::prelude::*;

verus! {

/// The `width` low-order bytes of `x`, least significant byte first.
pub open spec fn le_bytes(x: nat, width: nat) -> Seq<u8>
    decreases width,
{
    if width == 0 {
        Seq::empty()
    } else {
        seq![(x % 256) as u8] + le_bytes(x / 256, (width - 1) as nat)
    }
}

/// The number that a byte string denotes when read least significant byte first.
pub open spec fn le_value(s: Seq<u8>) -> nat
    decreases s.len(),
{
    if s.len() == 0 {
        0
    } else {
        s[0] as nat + 256 * le_value(s.subrange(1, s.len() as int))
    }
}

/// `256` to the power `width`: the number of values that `width` bytes can hold.
pub open spec fn radix(width: nat) -> nat
    decreases width,
{
    if width == 0 {
        1
    } else {
        256 * radix((width - 1) as nat)
    }
}

/// The unsigned 64-bit pattern of a signed value (two's complement).
pub open spec fn i64_bits(n: i64) -> nat {
    if n >= 0 {
        n as nat
    } else {
        (n + 0x1_0000_0000_0000_0000) as nat
    }
}

/// The signed value of an unsigned 64-bit pattern (two's complement).
pub open spec fn i64_of_bits(x: nat) -> int {
    if x < 0x8000_0000_0000_0000 {
        x as int
    } else {
        x - 0x1_0000_0000_0000_0000
    }
}

/// The unsigned number in the two bytes of `s` from position `at` on.
pub open spec fn u16_at(s: Seq<u8>, at: int) -> u16 {
    le_value(s.subrange(at, at + 2)) as u16
}

/// The unsigned number in the four bytes of `s` from position `at` on.
pub open spec fn u32_at(s: Seq<u8>, at: int) -> u32 {
    le_value(s.subrange(at, at + 4)) as u32
}

/// The unsigned number in the eight bytes of `s` from position `at` on.
pub open spec fn u64_at(s: Seq<u8>, at: int) -> u64 {
    le_value(s.subrange(at, at + 8)) as u64
}

/// The signed number in the eight bytes of `s` from position `at` on.
pub open spec fn i64_at(s: Seq<u8>, at: int) -> i64 {
    i64_of_bits(le_value(s.subrange(at, at + 8))) as i64
}

/// The number of values of one, two, four and eight bytes.
pub proof fn lemma_radix_values()
    ensures
        radix(1) == 0x100,
        radix(2) == 0x1_0000,
        radix(4) == 0x1_0000_0000,
        radix(8) == 0x1_0000_0000_0000_0000,
{
    reveal_with_fuel(radix, 9);
}

/// A number written in `width` bytes takes `width` bytes.
pub proof fn lemma_le_bytes_len(x: nat, width: nat)
    ensures
        le_bytes(x, width).len() == width,
    decreases width,
{
    if width > 0 {
        lemma_le_bytes_len(x / 256, (width - 1) as nat);
    }
}

/// What bytes denote is below the number of values that they can hold.
pub proof fn lemma_le_value_bound(s: Seq<u8>)
    ensures
        le_value(s) < radix(s.len()),
    decreases s.len(),
{
    if s.len() > 0 {
        lemma_le_value_bound(s.subrange(1, s.len() as int));
    }
}

/// Writing a number that fits and reading it back gives the number.
pub proof fn lemma_le_value_of_bytes(x: nat, width: nat)
    requires
        x < radix(width),
    ensures
        le_value(le_bytes(x, width)) == x,
    decreases width,
{
    lemma_le_bytes_len(x, width);
    if width > 0 {
        let rest = le_bytes(x / 256, (width - 1) as nat);
        lemma_le_bytes_len(x / 256, (width - 1) as nat);
        lemma_le_value_of_bytes(x / 256, (width - 1) as nat);
        let s = le_bytes(x, width);
        assert(s.subrange(1, s.len() as int) =~= rest);
    }
}

/// Reading bytes and writing the number back in the same width gives the bytes.
pub proof fn lemma_le_bytes_of_value(s: Seq<u8>)
    ensures
        le_bytes(le_value(s), s.len()) == s,
    decreases s.len(),
{
    if s.len() > 0 {
        let tail = s.subrange(1, s.len() as int);
        lemma_le_bytes_of_value(tail);
        assert(le_value(s) / 256 == le_value(tail));
        assert(le_value(s) % 256 == s[0] as nat);
        assert(le_bytes(le_value(s), s.len()) =~= s);
    } else {
        assert(le_bytes(le_value(s), s.len()) =~= s);
    }
}

/// A number written in two bytes behind `s` is read back at that position.
pub proof fn lemma_u16_round_trip(s: Seq<u8>, n: u16)
    ensures
        u16_at(s + le_bytes(n as nat, 2), s.len() as int) == n,
{
    lemma_le_bytes_len(n as nat, 2);
    lemma_radix_values();
    lemma_le_value_of_bytes(n as nat, 2);
    assert((s + le_bytes(n as nat, 2)).subrange(s.len() as int, s.len() as int + 2) =~= le_bytes(
        n as nat,
        2,
    ));
}

/// A number written in four bytes behind `s` is read back at that position.
pub proof fn lemma_u32_round_trip(s: Seq<u8>, n: u32)
    ensures
        u32_at(s + le_bytes(n as nat, 4), s.len() as int) == n,
{
    lemma_le_bytes_len(n as nat, 4);
    lemma_radix_values();
    lemma_le_value_of_bytes(n as nat, 4);
    assert((s + le_bytes(n as nat, 4)).subrange(s.len() as int, s.len() as int + 4) =~= le_bytes(
        n as nat,
        4,
    ));
}

/// A number written in eight bytes behind `s` is read back at that position.
pub proof fn lemma_u64_round_trip(s: Seq<u8>, n: u64)
    ensures
        u64_at(s + le_bytes(n as nat, 8), s.len() as int) == n,
{
    lemma_le_bytes_len(n as nat, 8);
    lemma_radix_values();
    lemma_le_value_of_bytes(n as nat, 8);
    assert((s + le_bytes(n as nat, 8)).subrange(s.len() as int, s.len() as int + 8) =~= le_bytes(
        n as nat,
        8,
    ));
}

/// A signed number written in eight bytes behind `s` is read back at that
/// position.
pub proof fn lemma_i64_round_trip(s: Seq<u8>, n: i64)
    ensures
        i64_at(s + le_bytes(i64_bits(n), 8), s.len() as int) == n,
{
    lemma_le_bytes_len(i64_bits(n), 8);
    lemma_radix_values();
    lemma_le_value_of_bytes(i64_bits(n), 8);
    assert((s + le_bytes(i64_bits(n), 8)).subrange(s.len() as int, s.len() as int + 8) =~= le_bytes(
        i64_bits(n),
        8,
    ));
}

/// `BufMut::put_u8` of the bytes crate on a `Vec<u8>`: the byte is appended.
/// The call panics when the vector cannot grow by one byte within `usize`.
#[verifier::external_body]
pub(crate) fn vec_put_u8(v: &mut Vec<u8>, n: u8)
    requires
        old(v).len() + 1 <= usize::MAX,
    ensures
        final(v)@ == old(v)@.push(n),
{
    v.put_u8(n);
}

/// `BufMut::put_u16_le` of the bytes crate on a `Vec<u8>`: the two bytes of `n`
/// are appended, low byte first. It panics when they do not fit within `usize`.
#[verifier::external_body]
pub(crate) fn vec_put_u16_le(v: &mut Vec<u8>, n: u16)
    requires
        old(v).len() + 2 <= usize::MAX,
    ensures
        final(v)@ == old(v)@ + le_bytes(n as nat, 2),
{
    v.put_u16_le(n);
}

/// `BufMut::put_u32_le` of the bytes crate on a `Vec<u8>`: the four bytes of `n`
/// are appended, low byte first. It panics when they do not fit within `usize`.
#[verifier::external_body]
pub(crate) fn vec_put_u32_le(v: &mut Vec<u8>, n: u32)
    requires
        old(v).len() + 4 <= usize::MAX,
    ensures
        final(v)@ == old(v)@ + le_bytes(n as nat, 4),
{
    v.put_u32_le(n);
}

/// `BufMut::put_u64_le` of the bytes crate on a `Vec<u8>`: the eight bytes of `n`
/// are appended, low byte first. It panics when they do not fit within `usize`.
#[verifier::external_body]
pub(crate) fn vec_put_u64_le(v: &mut Vec<u8>, n: u64)
    requires
        old(v).len() + 8 <= usize::MAX,
    ensures
        final(v)@ == old(v)@ + le_bytes(n as nat, 8),
{
    v.put_u64_le(n);
}

/// `BufMut::put_i64_le` of the bytes crate on a `Vec<u8>`: the eight bytes of the
/// two's complement pattern of `n` are appended, low byte first. It panics when
/// they do not fit within `usize`.
#[verifier::external_body]
pub(crate) fn vec_put_i64_le(v: &mut Vec<u8>, n: i64)
    requires
        old(v).len() + 8 <= usize::MAX,
    ensures
        final(v)@ == old(v)@ + le_bytes(i64_bits(n), 8),
{
    v.put_i64_le(n);
}

/// `BufMut::put_slice` of the bytes crate on a `Vec<u8>`: the bytes of `src` are
/// appended in order. It panics when they do not fit within `usize`.
#[verifier::external_body]
pub(crate) fn vec_put_slice(v: &mut Vec<u8>, src: &[u8])
    requires
        old(v).len() + src@.len() <= usize::MAX,
    ensures
        final(v)@ == old(v)@ + src@,
{
    v.put_slice(src);
}

/// `BufMut::put` of the bytes crate on a `Vec<u8>`, given a byte slice as the
/// source: every byte of `src` is appended in order. It panics when they do not
/// fit within `usize`.
#[verifier::external_body]
pub(crate) fn vec_put(v: &mut Vec<u8>, src: &[u8])
    requires
        old(v).len() + src@.len() <= usize::MAX,
    ensures
        final(v)@ == old(v)@ + src@,
{
    v.put(src);
}

/// `LittleEndian::read_u16`: the number that the first two bytes of `buf` denote,
/// low byte first. It panics on a shorter slice.
#[verifier::external_body]
pub(crate) fn le_read_u16(buf: &[u8]) -> (r: u16)
    requires
        buf@.len() >= 2,
    ensures
        r as nat == le_value(buf@.subrange(0, 2)),
{
    LittleEndian::read_u16(buf)
}

/// `LittleEndian::read_u32`: the number that the first four bytes of `buf`
/// denote, low byte first. It panics on a shorter slice.
#[verifier::external_body]
pub(crate) fn le_read_u32(buf: &[u8]) -> (r: u32)
    requires
        buf@.len() >= 4,
    ensures
        r as nat == le_value(buf@.subrange(0, 4)),
{
    LittleEndian::read_u32(buf)
}

/// `LittleEndian::read_u64`: the number that the first eight bytes of `buf`
/// denote, low byte first. It panics on a shorter slice.
#[verifier::external_body]
pub(crate) fn le_read_u64(buf: &[u8]) -> (r: u64)
    requires
        buf@.len() >= 8,
    ensures
        r as nat == le_value(buf@.subrange(0, 8)),
{
    LittleEndian::read_u64(buf)
}

/// `LittleEndian::read_i64`: the signed number whose two's complement pattern
/// the first eight bytes of `buf` hold, low byte first. It panics on a shorter
/// slice.
#[verifier::external_body]
pub(crate) fn le_read_i64(buf: &[u8]) -> (r: i64)
    requires
        buf@.len() >= 8,
    ensures
        r as int == i64_of_bits(le_value(buf@.subrange(0, 8))),
{
    LittleEndian::read_i64(buf)
}

} // verus!
