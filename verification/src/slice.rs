//! A growable byte buffer with little-endian fixed-width writes, reads at an
//! offset, and reads that consume from the front.

use crate::endian::{
    i64_at, i64_bits, le_bytes, le_read_i64, le_read_u16, le_read_u32, le_read_u64, u16_at, u32_at,
    u64_at, vec_put, vec_put_i64_le, vec_put_slice, vec_put_u16_le, vec_put_u32_le,
    vec_put_u64_le, vec_put_u8,
};
use crate::order::{
    bytes_equal, compare_bytes, lex_le, lex_lt, ordering_of, ordering_spec, precedes_at,
    relation,
};
use bytes::Bytes;
use core::cmp::Ordering;
use core::ops::{Index, Range};
use vstd::prelude::*;
use vstd::slice::{slice_subrange, slice_to_vec};
use vstd::std_specs::cmp::{PartialEqSpecImpl, PartialOrdSpecImpl};
use vstd::string::StringSliceAdditionalSpecFns;

verus! {

pub const U64_BYTE_SIZE: usize = 8;

pub const U32_BYTE_SIZE: usize = 4;

pub const U16_BYTE_SIZE: usize = 2;

pub const U8_BYTE_SIZE: usize = 1;

/// `bytes::Bytes`, the shared byte buffer of the bytes crate.
#[verifier::external_type_specification]
#[verifier::external_body]
pub struct ExBytes(Bytes);

/// The bytes that a `Bytes` holds, in order.
pub uninterp spec fn bytes_contents(bytes: Bytes) -> Seq<u8>;

/// `Bytes::as_ref` of the bytes crate: the bytes held, as a slice.
#[verifier::external_body]
fn bytes_as_slice(bytes: &Bytes) -> (r: &[u8])
    ensures
        r@ == bytes_contents(*bytes),
{
    bytes.as_ref()
}

/// `Bytes::from` of the bytes crate on a `Vec<u8>`: a `Bytes` that holds the
/// bytes of the vector.
#[verifier::external_body]
fn bytes_from_vec(v: Vec<u8>) -> (bytes: Bytes)
    ensures
        bytes_contents(bytes) == v@,
{
    Bytes::from(v)
}

/// A byte buffer. Its view is the sequence of bytes it holds.
#[derive(Debug)]
pub struct Slice {
    inner: Vec<u8>,
}

impl View for Slice {
    type V = Seq<u8>;

    closed spec fn view(&self) -> Seq<u8> {
        self.inner@
    }
}

impl Clone for Slice {
    fn clone(&self) -> (r: Self)
        ensures
            r@ == self@,
    {
        Slice { inner: self.inner.clone() }
    }
}

/// The position of the first byte of `s`, from `from` on, that is not `0xff`;
/// the length of `s` where there is none.
pub open spec fn first_below_max(s: Seq<u8>, from: int) -> int
    decreases s.len() - from,
{
    if from < 0 || from >= s.len() {
        s.len() as int
    } else if s[from] != 0xff {
        from
    } else {
        first_below_max(s, from + 1)
    }
}

/// The short successor of `s`: `s` cut off behind its first byte that is not
/// `0xff`, with that byte raised by one; `s` itself where every byte is `0xff`.
pub open spec fn short_successor_of(s: Seq<u8>) -> Seq<u8> {
    let i = first_below_max(s, 0);
    if i < s.len() {
        s.subrange(0, i).push((s[i] + 1) as u8)
    } else {
        s
    }
}

/// The first position from `from` on, within both strings, at which `key` and
/// `limit` differ and the byte of `key` is not `0xff`; `-1` where there is none.
pub open spec fn first_bumpable(key: Seq<u8>, limit: Seq<u8>, from: int) -> int
    decreases key.len() - from,
{
    if from < 0 || from >= key.len() || from >= limit.len() {
        -1
    } else if key[from] != limit[from] && key[from] != 0xff {
        from
    } else {
        first_bumpable(key, limit, from + 1)
    }
}

/// `key` with the byte at its first bumpable position against `limit` raised
/// by one; `key` itself where there is no such position.
pub open spec fn shortest_separator_of(key: Seq<u8>, limit: Seq<u8>) -> Seq<u8> {
    let i = first_bumpable(key, limit, 0);
    if i >= 0 {
        key.update(i, (key[i] + 1) as u8)
    } else {
        key
    }
}

pub proof fn lemma_first_below_max(s: Seq<u8>, from: int)
    requires
        0 <= from <= s.len(),
    ensures
        from <= first_below_max(s, from) <= s.len(),
        forall|j: int| from <= j < first_below_max(s, from) ==> s[j] == 0xff,
        first_below_max(s, from) < s.len() ==> s[first_below_max(s, from)] != 0xff,
    decreases s.len() - from,
{
    if from < s.len() && s[from] == 0xff {
        lemma_first_below_max(s, from + 1);
    }
}

/// The short successor is no longer than the string, and comes strictly after
/// it unless the string is empty or all `0xff`, in which case it is the string.
pub proof fn lemma_short_successor(s: Seq<u8>)
    ensures
        short_successor_of(s).len() <= s.len(),
        first_below_max(s, 0) < s.len() ==> lex_lt(s, short_successor_of(s)),
        first_below_max(s, 0) >= s.len() ==> short_successor_of(s) == s,
{
    lemma_first_below_max(s, 0);
    let i = first_below_max(s, 0);
    if i < s.len() {
        assert(precedes_at(s, short_successor_of(s), i));
    }
}

/// Of the strings that come after `s` and are no longer than its short
/// successor, the short successor is the first.
pub proof fn lemma_short_successor_is_least(s: Seq<u8>, t: Seq<u8>)
    requires
        first_below_max(s, 0) < s.len(),
        lex_lt(s, t),
        t.len() <= short_successor_of(s).len(),
    ensures
        lex_le(short_successor_of(s), t),
{
    lemma_first_below_max(s, 0);
    let i = first_below_max(s, 0);
    let next = short_successor_of(s);
    let j = choose|j: int| precedes_at(s, t, j);
    if j < i {
        assert(s[j] == 0xff);
    }
    if t[i] == s[i] + 1 {
        assert(t =~= next);
    } else {
        assert(precedes_at(next, t, i));
    }
}

/// Replaces `v` by its short successor.
pub fn short_successor(v: &mut Slice)
    ensures
        final(v)@ == short_successor_of(old(v)@),
{
    let l = v.inner.len();
    let mut i: usize = 0;
    while i < l
        invariant
            l == v.inner@.len(),
            v.inner@ == old(v).inner@,
            i <= l,
            first_below_max(v.inner@, 0) == first_below_max(v.inner@, i as int),
        decreases l - i,
    {
        let b = v.inner[i];
        if b != u8::MAX {
            v.inner.truncate(i);
            v.inner.push(b + 1);
            return ;
        }
        i += 1;
    }
}

/// Raises by one the first byte of `key` that differs from the byte of `limit`
/// at its position and is not `0xff`, if there is one.
pub fn shortest_separator(key: &mut Slice, limit: &Slice)
    ensures
        final(key)@ == shortest_separator_of(old(key)@, limit@),
{
    let min_size = if key.inner.len() < limit.inner.len() {
        key.inner.len()
    } else {
        limit.inner.len()
    };
    let mut i: usize = 0;
    while i < min_size
        invariant
            min_size <= key.inner@.len(),
            min_size <= limit.inner@.len(),
            min_size == key.inner@.len() || min_size == limit.inner@.len(),
            key.inner@ == old(key).inner@,
            i <= min_size,
            first_bumpable(key.inner@, limit.inner@, 0) == first_bumpable(
                key.inner@,
                limit.inner@,
                i as int,
            ),
        decreases min_size - i,
    {
        let b = key.inner[i];
        if b != limit.inner[i] && b != u8::MAX {
            key.inner.set(i, b + 1);
            return ;
        }
        i += 1;
    }
}

impl Slice {
    /// An empty buffer.
    pub fn new() -> (s: Self)
        ensures
            s@ == Seq::<u8>::empty(),
    {
        Self { inner: Vec::new() }
    }

    /// An empty buffer with room for `size` bytes.
    pub fn with_capacity(size: usize) -> (s: Self)
        ensures
            s@ == Seq::<u8>::empty(),
    {
        Self { inner: Vec::with_capacity(size) }
    }

    /// A buffer that holds a copy of `inner`.
    pub fn from(inner: &[u8]) -> (s: Self)
        ensures
            s@ == inner@,
    {
        Self { inner: slice_to_vec(inner) }
    }

    /// A buffer that holds a copy of the bytes of `bytes`.
    pub fn from_bytes(bytes: &Bytes) -> (s: Self)
        ensures
            s@ == bytes_contents(*bytes),
    {
        Self { inner: slice_to_vec(bytes_as_slice(bytes)) }
    }

    /// The bytes held, as a `Bytes`.
    pub fn to_bytes(self) -> (bytes: Bytes)
        ensures
            bytes_contents(bytes) == self@,
    {
        bytes_from_vec(self.inner)
    }

    /// A buffer holds no more bytes than `usize` counts.
    pub proof fn lemma_len_fits(&self)
        ensures
            self@.len() <= usize::MAX,
    {
        assert(self.inner.len() == self.inner@.len());
    }

    /// The number of bytes held.
    pub fn len(&self) -> (n: usize)
        ensures
            n == self@.len(),
    {
        self.inner.len()
    }

    /// The bytes held, as a slice.
    pub fn as_ref(&self) -> (r: &[u8])
        ensures
            r@ == self@,
    {
        self.inner.as_slice()
    }

    /// Appends one byte; returns the number of bytes written.
    pub fn put_u8(&mut self, n: u8) -> (written: usize)
        requires
            old(self)@.len() + 1 <= usize::MAX,
        ensures
            final(self)@ == old(self)@.push(n),
            written == 1,
    {
        vec_put_u8(&mut self.inner, n);
        U8_BYTE_SIZE
    }

    /// Appends `n` as two bytes, low byte first; returns the number of bytes written.
    pub fn put_u16(&mut self, n: u16) -> (written: usize)
        requires
            old(self)@.len() + 2 <= usize::MAX,
        ensures
            final(self)@ == old(self)@ + le_bytes(n as nat, 2),
            written == 2,
    {
        vec_put_u16_le(&mut self.inner, n);
        U16_BYTE_SIZE
    }

    /// Appends `n` as four bytes, low byte first; returns the number of bytes written.
    pub fn put_u32(&mut self, n: u32) -> (written: usize)
        requires
            old(self)@.len() + 4 <= usize::MAX,
        ensures
            final(self)@ == old(self)@ + le_bytes(n as nat, 4),
            written == 4,
    {
        vec_put_u32_le(&mut self.inner, n);
        U32_BYTE_SIZE
    }

    /// Appends `n` as eight bytes, low byte first; returns the number of bytes written.
    pub fn put_u64(&mut self, n: u64) -> (written: usize)
        requires
            old(self)@.len() + 8 <= usize::MAX,
        ensures
            final(self)@ == old(self)@ + le_bytes(n as nat, 8),
            written == 8,
    {
        vec_put_u64_le(&mut self.inner, n);
        U64_BYTE_SIZE
    }

    /// Appends the two's complement pattern of `n` as eight bytes, low byte
    /// first; returns the number of bytes written.
    pub fn put_i64(&mut self, n: i64) -> (written: usize)
        requires
            old(self)@.len() + 8 <= usize::MAX,
        ensures
            final(self)@ == old(self)@ + le_bytes(i64_bits(n), 8),
            written == 8,
    {
        vec_put_i64_le(&mut self.inner, n);
        U64_BYTE_SIZE
    }

    /// Appends the UTF-8 bytes of `n`; returns their number.
    pub fn put_str(&mut self, n: &str) -> (written: usize)
        requires
            old(self)@.len() + n.spec_bytes().len() <= usize::MAX,
        ensures
            final(self)@ == old(self)@ + n.spec_bytes(),
            written == n.spec_bytes().len(),
    {
        let s = n.len();
        vec_put_slice(&mut self.inner, n.as_bytes());
        s
    }

    /// Appends the bytes of another buffer; returns their number.
    pub fn put(&mut self, n: &Self) -> (written: usize)
        requires
            old(self)@.len() + n@.len() <= usize::MAX,
        ensures
            final(self)@ == old(self)@ + n@,
            written == n@.len(),
    {
        let s = n.len();
        vec_put(&mut self.inner, n.inner.as_slice());
        s
    }

    /// Appends the bytes of `n`; returns their number.
    pub fn put_slice(&mut self, n: &[u8]) -> (written: usize)
        requires
            old(self)@.len() + n@.len() <= usize::MAX,
        ensures
            final(self)@ == old(self)@ + n@,
            written == n@.len(),
    {
        let s = n.len();
        vec_put(&mut self.inner, n);
        s
    }

    /// The byte at `offset`, if there is one.
    pub fn get_u8(&self, offset: usize) -> (r: Option<u8>)
        ensures
            r == if offset < self@.len() {
                Some(self@[offset as int])
            } else {
                None
            },
    {
        if offset < self.inner.len() {
            Some(self.inner[offset])
        } else {
            None
        }
    }

    /// The two bytes from `offset` on as a number, low byte first; `None` where
    /// they would run past the end.
    pub fn get_u16(&self, offset: usize) -> (r: Option<u16>)
        ensures
            r == if offset + 2 <= self@.len() {
                Some(u16_at(self@, offset as int))
            } else {
                None
            },
    {
        if offset <= self.inner.len() && self.inner.len() - offset >= U16_BYTE_SIZE {
            let buf = slice_subrange(self.inner.as_slice(), offset, offset + U16_BYTE_SIZE);
            assert(buf@.subrange(0, 2) =~= buf@);
            Some(le_read_u16(buf))
        } else {
            None
        }
    }

    /// The four bytes from `offset` on as a number, low byte first; `None` where
    /// they would run past the end.
    pub fn get_u32(&self, offset: usize) -> (r: Option<u32>)
        ensures
            r == if offset + 4 <= self@.len() {
                Some(u32_at(self@, offset as int))
            } else {
                None
            },
    {
        if offset <= self.inner.len() && self.inner.len() - offset >= U32_BYTE_SIZE {
            let buf = slice_subrange(self.inner.as_slice(), offset, offset + U32_BYTE_SIZE);
            assert(buf@.subrange(0, 4) =~= buf@);
            Some(le_read_u32(buf))
        } else {
            None
        }
    }

    /// The eight bytes from `offset` on as a number, low byte first; `None` where
    /// they would run past the end.
    pub fn get_u64(&self, offset: usize) -> (r: Option<u64>)
        ensures
            r == if offset + 8 <= self@.len() {
                Some(u64_at(self@, offset as int))
            } else {
                None
            },
    {
        if offset <= self.inner.len() && self.inner.len() - offset >= U64_BYTE_SIZE {
            let buf = slice_subrange(self.inner.as_slice(), offset, offset + U64_BYTE_SIZE);
            assert(buf@.subrange(0, 8) =~= buf@);
            Some(le_read_u64(buf))
        } else {
            None
        }
    }

    /// The eight bytes from `offset` on as a signed number in two's complement,
    /// low byte first; `None` where they would run past the end.
    pub fn get_i64(&self, offset: usize) -> (r: Option<i64>)
        ensures
            r == if offset + 8 <= self@.len() {
                Some(i64_at(self@, offset as int))
            } else {
                None
            },
    {
        if offset <= self.inner.len() && self.inner.len() - offset >= U64_BYTE_SIZE {
            let buf = slice_subrange(self.inner.as_slice(), offset, offset + U64_BYTE_SIZE);
            assert(buf@.subrange(0, 8) =~= buf@);
            Some(le_read_i64(buf))
        } else {
            None
        }
    }

    /// Cuts the buffer to `size` bytes, or fills it up to `size` bytes with zeros.
    pub fn resize(&mut self, size: usize)
        ensures
            final(self)@.len() == size,
            forall|i: int|
                0 <= i < size ==> final(self)@[i] == if i < old(self)@.len() {
                    old(self)@[i]
                } else {
                    0u8
                },
    {
        self.inner.resize(size, 0);
        proof {
            if size > old(self).inner@.len() {
                assert forall|i: int| 0 <= i < old(self).inner@.len() implies self.inner@[i]
                    == old(self).inner@[i] by {
                    assert(self.inner@.subrange(0, old(self).inner@.len() as int)[i]
                        == self.inner@[i]);
                }
            }
        }
    }

    /// Removes the first `at` bytes and returns them.
    pub fn split_off(&mut self, at: usize) -> (head: Vec<u8>)
        requires
            at <= old(self)@.len(),
        ensures
            head@ == old(self)@.subrange(0, at as int),
            final(self)@ == old(self)@.subrange(at as int, old(self)@.len() as int),
    {
        let mut rest = self.inner.split_off(at);
        core::mem::swap(&mut self.inner, &mut rest);
        rest
    }

    /// Removes the first `i` bytes and returns them; `None`, and no change,
    /// where fewer are held.
    pub fn read(&mut self, i: usize) -> (r: Option<Vec<u8>>)
        ensures
            i <= old(self)@.len() ==> r is Some && r->0@ == old(self)@.subrange(0, i as int)
                && final(self)@ == old(self)@.subrange(i as int, old(self)@.len() as int),
            i > old(self)@.len() ==> r is None && final(self)@ == old(self)@,
    {
        let s = self.inner.len();
        if s >= i {
            Some(self.split_off(i))
        } else {
            None
        }
    }

    /// Removes the first byte and returns it; `None`, and no change, on an
    /// empty buffer.
    pub fn read_u8(&mut self) -> (r: Option<u8>)
        ensures
            old(self)@.len() >= 1 ==> r == Some(old(self)@[0]) && final(self)@ == old(
                self,
            )@.subrange(1, old(self)@.len() as int),
            old(self)@.len() < 1 ==> r is None && final(self)@ == old(self)@,
    {
        if self.inner.len() >= U8_BYTE_SIZE {
            let buf = self.split_off(U8_BYTE_SIZE);
            Some(buf[0])
        } else {
            None
        }
    }

    /// Removes the first two bytes and returns the number they denote, low byte
    /// first; `None`, and no change, where fewer are held.
    pub fn read_u16(&mut self) -> (r: Option<u16>)
        ensures
            old(self)@.len() >= 2 ==> r == Some(u16_at(old(self)@, 0)) && final(self)@ == old(
                self,
            )@.subrange(2, old(self)@.len() as int),
            old(self)@.len() < 2 ==> r is None && final(self)@ == old(self)@,
    {
        if self.inner.len() >= U16_BYTE_SIZE {
            let buf = self.split_off(U16_BYTE_SIZE);
            assert(buf@.subrange(0, 2) =~= buf@);
            Some(le_read_u16(buf.as_slice()))
        } else {
            None
        }
    }

    /// Removes the first four bytes and returns the number they denote, low
    /// byte first; `None`, and no change, where fewer are held.
    pub fn read_u32(&mut self) -> (r: Option<u32>)
        ensures
            old(self)@.len() >= 4 ==> r == Some(u32_at(old(self)@, 0)) && final(self)@ == old(
                self,
            )@.subrange(4, old(self)@.len() as int),
            old(self)@.len() < 4 ==> r is None && final(self)@ == old(self)@,
    {
        let s = self.inner.len();
        if s >= U32_BYTE_SIZE {
            let buf = self.split_off(U32_BYTE_SIZE);
            assert(buf@.subrange(0, 4) =~= buf@);
            Some(le_read_u32(buf.as_slice()))
        } else {
            None
        }
    }

    /// Removes the first eight bytes and returns the number they denote, low
    /// byte first; `None`, and no change, where fewer are held.
    pub fn read_u64(&mut self) -> (r: Option<u64>)
        ensures
            old(self)@.len() >= 8 ==> r == Some(u64_at(old(self)@, 0)) && final(self)@ == old(
                self,
            )@.subrange(8, old(self)@.len() as int),
            old(self)@.len() < 8 ==> r is None && final(self)@ == old(self)@,
    {
        let s = self.inner.len();
        if s >= U64_BYTE_SIZE {
            let buf = self.split_off(U64_BYTE_SIZE);
            assert(buf@.subrange(0, 8) =~= buf@);
            Some(le_read_u64(buf.as_slice()))
        } else {
            None
        }
    }

    /// Removes the first eight bytes and returns the signed number whose two's
    /// complement pattern they hold, low byte first; `None`, and no change,
    /// where fewer are held.
    pub fn read_i64(&mut self) -> (r: Option<i64>)
        ensures
            old(self)@.len() >= 8 ==> r == Some(i64_at(old(self)@, 0)) && final(self)@ == old(
                self,
            )@.subrange(8, old(self)@.len() as int),
            old(self)@.len() < 8 ==> r is None && final(self)@ == old(self)@,
    {
        let s = self.inner.len();
        if s >= U64_BYTE_SIZE {
            let buf = self.split_off(U64_BYTE_SIZE);
            assert(buf@.subrange(0, 8) =~= buf@);
            Some(le_read_i64(buf.as_slice()))
        } else {
            None
        }
    }
}

impl AsRef<[u8]> for Slice {
    fn as_ref(&self) -> (r: &[u8])
        ensures
            r@ == self@,
    {
        Slice::as_ref(self)
    }
}

impl Index<usize> for Slice {
    type Output = u8;

    fn index(&self, v: usize) -> (r: &u8)
        ensures
            *r == self@[v as int],
    {
        &self.inner[v]
    }
}

impl vstd::std_specs::core::IndexSpecImpl<usize> for Slice {
    open spec fn index_req(&self, index: &usize) -> bool {
        *index < self@.len()
    }
}

impl Index<Range<usize>> for Slice {
    type Output = [u8];

    fn index(&self, v: Range<usize>) -> (r: &[u8])
        ensures
            r@ == self@.subrange(v.start as int, v.end as int),
    {
        slice_subrange(self.inner.as_slice(), v.start, v.end)
    }
}

impl vstd::std_specs::core::IndexSpecImpl<Range<usize>> for Slice {
    open spec fn index_req(&self, index: &Range<usize>) -> bool {
        index.start <= index.end <= self@.len()
    }
}

impl Eq for Slice {

}

impl PartialEq for Slice {
    fn eq(&self, other: &Slice) -> (r: bool) {
        bytes_equal(self.inner.as_slice(), other.inner.as_slice())
    }
}

impl PartialEqSpecImpl for Slice {
    open spec fn obeys_eq_spec() -> bool {
        true
    }

    open spec fn eq_spec(&self, other: &Slice) -> bool {
        self@ == other@
    }
}

impl PartialOrd for Slice {
    fn partial_cmp(&self, other: &Slice) -> (r: Option<Ordering>) {
        Some(ordering_of(compare_bytes(self.inner.as_slice(), other.inner.as_slice())))
    }
}

impl PartialOrdSpecImpl for Slice {
    open spec fn obeys_partial_cmp_spec() -> bool {
        true
    }

    open spec fn partial_cmp_spec(&self, other: &Slice) -> Option<Ordering> {
        Some(ordering_spec(relation(self@, other@)))
    }
}

impl PartialEq<str> for Slice {
    fn eq(&self, other: &str) -> (r: bool) {
        bytes_equal(self.inner.as_slice(), other.as_bytes())
    }
}

impl PartialEqSpecImpl<str> for Slice {
    open spec fn obeys_eq_spec() -> bool {
        true
    }

    open spec fn eq_spec(&self, other: &str) -> bool {
        self@ == other.spec_bytes()
    }
}

impl PartialOrd<str> for Slice {
    fn partial_cmp(&self, other: &str) -> (r: Option<Ordering>) {
        Some(ordering_of(compare_bytes(self.inner.as_slice(), other.as_bytes())))
    }
}

impl PartialOrdSpecImpl<str> for Slice {
    open spec fn obeys_partial_cmp_spec() -> bool {
        true
    }

    open spec fn partial_cmp_spec(&self, other: &str) -> Option<Ordering> {
        Some(ordering_spec(relation(self@, other.spec_bytes())))
    }
}

impl PartialEq<[u8]> for Slice {
    fn eq(&self, other: &[u8]) -> (r: bool) {
        bytes_equal(self.inner.as_slice(), other)
    }
}

impl PartialEqSpecImpl<[u8]> for Slice {
    open spec fn obeys_eq_spec() -> bool {
        true
    }

    open spec fn eq_spec(&self, other: &[u8]) -> bool {
        self@ == other@
    }
}

impl PartialOrd<[u8]> for Slice {
    fn partial_cmp(&self, other: &[u8]) -> (r: Option<Ordering>) {
        Some(ordering_of(compare_bytes(self.inner.as_slice(), other)))
    }
}

impl PartialOrdSpecImpl<[u8]> for Slice {
    open spec fn obeys_partial_cmp_spec() -> bool {
        true
    }

    open spec fn partial_cmp_spec(&self, other: &[u8]) -> Option<Ordering> {
        Some(ordering_spec(relation(self@, other@)))
    }
}

impl PartialEq<Vec<u8>> for Slice {
    fn eq(&self, other: &Vec<u8>) -> (r: bool) {
        bytes_equal(self.inner.as_slice(), other.as_slice())
    }
}

impl PartialEqSpecImpl<Vec<u8>> for Slice {
    open spec fn obeys_eq_spec() -> bool {
        true
    }

    open spec fn eq_spec(&self, other: &Vec<u8>) -> bool {
        self@ == other@
    }
}

impl PartialOrd<Vec<u8>> for Slice {
    fn partial_cmp(&self, other: &Vec<u8>) -> (r: Option<Ordering>) {
        Some(ordering_of(compare_bytes(self.inner.as_slice(), other.as_slice())))
    }
}

impl PartialOrdSpecImpl<Vec<u8>> for Slice {
    open spec fn obeys_partial_cmp_spec() -> bool {
        true
    }

    open spec fn partial_cmp_spec(&self, other: &Vec<u8>) -> Option<Ordering> {
        Some(ordering_spec(relation(self@, other@)))
    }
}

impl PartialEq<Slice> for [u8] {
    fn eq(&self, other: &Slice) -> (r: bool) {
        bytes_equal(self, other.inner.as_slice())
    }
}

impl PartialEqSpecImpl<Slice> for [u8] {
    open spec fn obeys_eq_spec() -> bool {
        true
    }

    open spec fn eq_spec(&self, other: &Slice) -> bool {
        self@ == other@
    }
}

impl PartialOrd<Slice> for [u8] {
    fn partial_cmp(&self, other: &Slice) -> (r: Option<Ordering>) {
        Some(ordering_of(compare_bytes(self, other.inner.as_slice())))
    }
}

impl PartialOrdSpecImpl<Slice> for [u8] {
    open spec fn obeys_partial_cmp_spec() -> bool {
        true
    }

    open spec fn partial_cmp_spec(&self, other: &Slice) -> Option<Ordering> {
        Some(ordering_spec(relation(self@, other@)))
    }
}

impl PartialEq<Slice> for str {
    fn eq(&self, other: &Slice) -> (r: bool) {
        bytes_equal(self.as_bytes(), other.inner.as_slice())
    }
}

impl PartialEqSpecImpl<Slice> for str {
    open spec fn obeys_eq_spec() -> bool {
        true
    }

    open spec fn eq_spec(&self, other: &Slice) -> bool {
        self.spec_bytes() == other@
    }
}

impl PartialOrd<Slice> for str {
    fn partial_cmp(&self, other: &Slice) -> (r: Option<Ordering>) {
        Some(ordering_of(compare_bytes(self.as_bytes(), other.inner.as_slice())))
    }
}

impl PartialOrdSpecImpl<Slice> for str {
    open spec fn obeys_partial_cmp_spec() -> bool {
        true
    }

    open spec fn partial_cmp_spec(&self, other: &Slice) -> Option<Ordering> {
        Some(ordering_spec(relation(self.spec_bytes(), other@)))
    }
}

impl PartialEq<Slice> for Vec<u8> {
    fn eq(&self, other: &Slice) -> (r: bool) {
        bytes_equal(self.as_slice(), other.inner.as_slice())
    }
}

impl PartialEqSpecImpl<Slice> for Vec<u8> {
    open spec fn obeys_eq_spec() -> bool {
        true
    }

    open spec fn eq_spec(&self, other: &Slice) -> bool {
        self@ == other@
    }
}

impl PartialOrd<Slice> for Vec<u8> {
    fn partial_cmp(&self, other: &Slice) -> (r: Option<Ordering>) {
        Some(ordering_of(compare_bytes(self.as_slice(), other.inner.as_slice())))
    }
}

impl PartialOrdSpecImpl<Slice> for Vec<u8> {
    open spec fn obeys_partial_cmp_spec() -> bool {
        true
    }

    open spec fn partial_cmp_spec(&self, other: &Slice) -> Option<Ordering> {
        Some(ordering_spec(relation(self@, other@)))
    }
}

} // verus!
