//! Internal keys: a user key, a sequence number and a value-or-tombstone
//! marker in one byte string, ordered byte by byte.

use crate::endian::{
    le_bytes, le_value, lemma_le_bytes_len, lemma_le_value_bound, lemma_le_value_of_bytes,
    lemma_radix_values,
};
use crate::order::{
    bytes_equal, compare_bytes, lemma_lex_lt_equal_length_heads, lemma_lex_lt_irreflexive, lex_lt,
    ordering_of, ordering_spec, precedes_at, relation,
};
use crate::slice::Slice;
use core::cmp::Ordering;
use vstd::pervasive::unreached;
use vstd::prelude::*;
use vstd::slice::slice_subrange;
use vstd::std_specs::cmp::{PartialEqSpecImpl, PartialOrdSpecImpl};

verus! {

/// The width of the length prefix.
pub const UKEY_LENGTH: usize = 4;

/// The width of the packed sequence number and kind.
pub const SEQ_LENGTH: usize = 8;

/// The position at which the user key starts.
pub const UKEY_INDEX: usize = 4;

/// Sequence numbers are kept below this bound: 56 bits are stored.
pub const SEQ_MAX_NUMBER: u64 = 0x0100_0000_0000_0000;

/// Whether a key stands for a value or for a deletion.
#[derive(Debug, Clone, Copy, PartialEq, Eq, Structural)]
pub enum KeyKind {
    Value,
    Delete,
}

/// The byte that stands for a kind.
pub open spec fn kind_byte(kind: KeyKind) -> nat {
    match kind {
        KeyKind::Value => 0,
        KeyKind::Delete => 1,
    }
}

/// The kind that a byte stands for, if any.
pub open spec fn kind_of_byte(v: u8) -> Option<KeyKind> {
    if v == 0 {
        Some(KeyKind::Value)
    } else if v == 1 {
        Some(KeyKind::Delete)
    } else {
        None
    }
}

/// The low 56 bits of the sequence number above the kind byte.
pub open spec fn packed(seq: nat, kind: KeyKind) -> nat {
    (seq % 0x0100_0000_0000_0000) * 256 + kind_byte(kind)
}

/// The encoding of an internal key: the four-byte length of what follows, the
/// user key, and the packed sequence number and kind in eight bytes.
pub open spec fn internal_key_bytes(user_key: Seq<u8>, seq: nat, kind: KeyKind) -> Seq<u8> {
    le_bytes(user_key.len() + 8, 4) + user_key + le_bytes(packed(seq, kind), 8)
}

/// The bytes are an internal key: a prefix that counts what follows it, at
/// least the eight trailing bytes, and a kind byte that stands for a kind.
pub open spec fn key_well_formed(bytes: Seq<u8>) -> bool {
    &&& bytes.len() >= 12
    &&& le_value(bytes.subrange(0, 4)) + 4 == bytes.len()
    &&& bytes[bytes.len() - 8] <= 1
}

/// The user key inside an encoding.
pub open spec fn user_key_of(bytes: Seq<u8>) -> Seq<u8> {
    bytes.subrange(4, bytes.len() - 8)
}

/// The packed sequence number and kind inside an encoding.
pub open spec fn packed_of(bytes: Seq<u8>) -> nat {
    le_value(bytes.subrange(bytes.len() - 8, bytes.len() as int))
}

/// The sequence number inside an encoding.
pub open spec fn seq_of(bytes: Seq<u8>) -> nat {
    packed_of(bytes) / 256
}

/// The kind inside a well-formed encoding.
pub open spec fn kind_of(bytes: Seq<u8>) -> KeyKind {
    if bytes[bytes.len() - 8] == 0 {
        KeyKind::Value
    } else {
        KeyKind::Delete
    }
}

/// An encoding is well formed, and its fields are those it was made from.
pub proof fn lemma_fields_round_trip(user_key: Seq<u8>, seq: nat, kind: KeyKind)
    requires
        user_key.len() + 8 <= u32::MAX,
    ensures
        key_well_formed(internal_key_bytes(user_key, seq, kind)),
        internal_key_bytes(user_key, seq, kind).len() == user_key.len() + 12,
        user_key_of(internal_key_bytes(user_key, seq, kind)) == user_key,
        packed_of(internal_key_bytes(user_key, seq, kind)) == packed(seq, kind),
        seq_of(internal_key_bytes(user_key, seq, kind)) == seq % 0x0100_0000_0000_0000,
        kind_of(internal_key_bytes(user_key, seq, kind)) == kind,
{
    let prefix = le_bytes(user_key.len() + 8, 4);
    let trailer = le_bytes(packed(seq, kind), 8);
    let bytes = internal_key_bytes(user_key, seq, kind);
    lemma_le_bytes_len(user_key.len() + 8, 4);
    lemma_le_bytes_len(packed(seq, kind), 8);
    lemma_radix_values();
    lemma_le_value_of_bytes(user_key.len() + 8, 4);
    lemma_le_value_of_bytes(packed(seq, kind), 8);
    assert(bytes.subrange(0, 4) =~= prefix);
    assert(bytes.subrange(4, bytes.len() - 8) =~= user_key);
    assert(bytes.subrange(bytes.len() - 8, bytes.len() as int) =~= trailer);
    assert(trailer[0] == (packed(seq, kind) % 256) as u8);
    assert(bytes[bytes.len() - 8] == trailer[0]);
}

/// The order of two internal keys, field by field: the length prefixes decide
/// first, byte by byte; between user keys of one length the user keys decide;
/// between equal user keys the eight trailing bytes decide, the kind byte
/// first and then the sequence number from its low byte up.
pub proof fn lemma_internal_key_order(
    a: Seq<u8>,
    seq_a: nat,
    kind_a: KeyKind,
    b: Seq<u8>,
    seq_b: nat,
    kind_b: KeyKind,
)
    requires
        a.len() + 8 <= u32::MAX,
        b.len() + 8 <= u32::MAX,
    ensures
        lex_lt(internal_key_bytes(a, seq_a, kind_a), internal_key_bytes(b, seq_b, kind_b)) <==> {
            ||| lex_lt(le_bytes(a.len() + 8, 4), le_bytes(b.len() + 8, 4))
            ||| a.len() == b.len() && lex_lt(a, b)
            ||| a == b && lex_lt(
                le_bytes(packed(seq_a, kind_a), 8),
                le_bytes(packed(seq_b, kind_b), 8),
            )
        },
{
    let pa = le_bytes(a.len() + 8, 4);
    let pb = le_bytes(b.len() + 8, 4);
    let ta = le_bytes(packed(seq_a, kind_a), 8);
    let tb = le_bytes(packed(seq_b, kind_b), 8);
    lemma_le_bytes_len(a.len() + 8, 4);
    lemma_le_bytes_len(b.len() + 8, 4);
    assert(internal_key_bytes(a, seq_a, kind_a) =~= pa + (a + ta));
    assert(internal_key_bytes(b, seq_b, kind_b) =~= pb + (b + tb));
    // heads of four bytes each: the prefixes decide, then what follows them
    lemma_lex_lt_equal_length_heads(pa, a + ta, pb, b + tb);
    // the prefixes are equal exactly where the lengths are
    lemma_radix_values();
    lemma_le_value_of_bytes(a.len() + 8, 4);
    lemma_le_value_of_bytes(b.len() + 8, 4);
    lemma_lex_lt_irreflexive(pa);
    if a.len() == b.len() {
        lemma_lex_lt_equal_length_heads(a, ta, b, tb);
    }
}

/// Between user keys `a` before `b`, the key of `a` comes before the key of
/// `b` whatever the sequence numbers and kinds, where the two user keys have
/// one length or their length prefixes stand in that order too.
pub proof fn lemma_order_follows_user_key(
    a: Seq<u8>,
    seq_a: nat,
    kind_a: KeyKind,
    b: Seq<u8>,
    seq_b: nat,
    kind_b: KeyKind,
)
    requires
        a.len() + 8 <= u32::MAX,
        b.len() + 8 <= u32::MAX,
        lex_lt(a, b),
        a.len() == b.len() || lex_lt(le_bytes(a.len() + 8, 4), le_bytes(b.len() + 8, 4)),
    ensures
        lex_lt(internal_key_bytes(a, seq_a, kind_a), internal_key_bytes(b, seq_b, kind_b)),
{
    lemma_internal_key_order(a, seq_a, kind_a, b, seq_b, kind_b);
}

/// Between two keys of one user key with sequence numbers `seq_a < seq_b`,
/// the first comes before the second where their trailing bytes, kind byte
/// first and then the sequence number from its low byte up, stand in that
/// order.
pub proof fn lemma_order_follows_sequence(
    user_key: Seq<u8>,
    seq_a: nat,
    kind_a: KeyKind,
    seq_b: nat,
    kind_b: KeyKind,
)
    requires
        user_key.len() + 8 <= u32::MAX,
        seq_a < seq_b < 0x0100_0000_0000_0000,
        lex_lt(le_bytes(packed(seq_a, kind_a), 8), le_bytes(packed(seq_b, kind_b), 8)),
    ensures
        lex_lt(
            internal_key_bytes(user_key, seq_a, kind_a),
            internal_key_bytes(user_key, seq_b, kind_b),
        ),
{
    lemma_internal_key_order(user_key, seq_a, kind_a, user_key, seq_b, kind_b);
}

/// Keys of one user key and one kind, with sequence numbers below 256, come
/// in the order of their sequence numbers.
pub proof fn lemma_order_of_small_sequences(
    user_key: Seq<u8>,
    seq_a: nat,
    seq_b: nat,
    kind: KeyKind,
)
    requires
        user_key.len() + 8 <= u32::MAX,
        seq_a < seq_b < 256,
    ensures
        lex_lt(
            internal_key_bytes(user_key, seq_a, kind),
            internal_key_bytes(user_key, seq_b, kind),
        ),
{
    let ta = le_bytes(packed(seq_a, kind), 8);
    let tb = le_bytes(packed(seq_b, kind), 8);
    lemma_le_bytes_len(packed(seq_a, kind), 8);
    lemma_le_bytes_len(packed(seq_b, kind), 8);
    reveal_with_fuel(le_bytes, 3);
    assert(ta[0] == tb[0]);
    assert(ta[1] == seq_a as u8);
    assert(tb[1] == seq_b as u8);
    assert(precedes_at(ta, tb, 1));
    lemma_order_follows_sequence(user_key, seq_a, kind, seq_b, kind);
}

impl KeyKind {
    /// The kind that a byte stands for; `None` for a byte that stands for none.
    pub fn from(v: u8) -> (r: Option<KeyKind>)
        ensures
            r == kind_of_byte(v),
    {
        match v {
            0 => Some(KeyKind::Value),
            1 => Some(KeyKind::Delete),
            _ => None,
        }
    }
}

/// An internal key. Its view is its encoding.
#[derive(Debug)]
pub struct InternalKey {
    inner: Slice,
}

impl View for InternalKey {
    type V = Seq<u8>;

    closed spec fn view(&self) -> Seq<u8> {
        self.inner@
    }
}

impl Clone for InternalKey {
    fn clone(&self) -> (r: Self)
        ensures
            r@ == self@,
    {
        InternalKey { inner: self.inner.clone() }
    }
}

impl InternalKey {
    /// Whether the bytes held are the encoding of an internal key.
    pub open spec fn well_formed(&self) -> bool {
        key_well_formed(self@)
    }

    /// Takes the bytes as a key, unchecked.
    pub fn from(inner: Slice) -> (r: Self)
        ensures
            r@ == inner@,
    {
        InternalKey { inner }
    }

    /// The key of `user_key` at `seq`, of the given kind.
    pub fn new_with_kind(user_key: &[u8], seq: u64, kind: KeyKind) -> (r: Self)
        requires
            user_key@.len() + 8 <= u32::MAX,
            user_key@.len() + 12 <= usize::MAX,
        ensures
            r@ == internal_key_bytes(user_key@, seq as nat, kind),
            r.well_formed(),
    {
        proof {
            lemma_fields_round_trip(user_key@, seq as nat, kind);
        }
        InternalKey { inner: InternalKey::make_key(user_key, seq, kind) }
    }

    /// The key of a value of `user_key` at `seq`.
    pub fn new(user_key: &[u8], seq: u64) -> (r: Self)
        requires
            user_key@.len() + 8 <= u32::MAX,
            user_key@.len() + 12 <= usize::MAX,
        ensures
            r@ == internal_key_bytes(user_key@, seq as nat, KeyKind::Value),
            r.well_formed(),
    {
        proof {
            lemma_fields_round_trip(user_key@, seq as nat, KeyKind::Value);
        }
        InternalKey { inner: InternalKey::make_key(user_key, seq, KeyKind::Value) }
    }

    /// The key of a deletion of `user_key` at `seq`.
    pub fn new_delete_key(user_key: &[u8], seq: u64) -> (r: Self)
        requires
            user_key@.len() + 8 <= u32::MAX,
            user_key@.len() + 12 <= usize::MAX,
        ensures
            r@ == internal_key_bytes(user_key@, seq as nat, KeyKind::Delete),
            r.well_formed(),
    {
        proof {
            lemma_fields_round_trip(user_key@, seq as nat, KeyKind::Delete);
        }
        InternalKey { inner: InternalKey::make_key(user_key, seq, KeyKind::Delete) }
    }

    /// Whether the bytes held are the encoding of an internal key.
    pub fn is_valid(&self) -> (r: bool)
        ensures
            r == self.well_formed(),
    {
        let len = self.inner.len();
        if len < UKEY_LENGTH + SEQ_LENGTH {
            return false;
        }
        proof {
            lemma_le_value_bound(self@.subrange(0, 4));
            lemma_radix_values();
        }
        match (self.inner.get_u32(0), self.inner.get_u8(len - SEQ_LENGTH)) {
            (Some(size), Some(kind)) => size as u64 + 4 == len as u64 && kind <= 1,
            _ => false,
        }
    }

    /// A copy of the encoding.
    pub fn inner(&self) -> (r: Slice)
        ensures
            r@ == self@,
    {
        self.inner.clone()
    }

    /// The encoding, as a slice.
    pub fn as_ref(&self) -> (r: &[u8])
        ensures
            r@ == self@,
    {
        self.inner.as_ref()
    }

    /// The length of the encoding.
    pub fn len(&self) -> (n: usize)
        ensures
            n == self@.len(),
    {
        self.inner.len()
    }

    /// The user key.
    pub fn user_key(&self) -> (r: Slice)
        requires
            self.well_formed(),
        ensures
            r@ == user_key_of(self@),
    {
        let size = self.key_size();
        Slice::from(slice_subrange(self.inner.as_ref(), UKEY_LENGTH, UKEY_LENGTH + size - SEQ_LENGTH))
    }

    /// The key as the memtable holds it: the whole encoding.
    pub fn memtable_key(&self) -> (r: Slice)
        requires
            self.well_formed(),
        ensures
            r@ == self@,
    {
        let size = self.key_size();
        let all = slice_subrange(self.inner.as_ref(), 0, size + UKEY_LENGTH);
        assert(all@ =~= self@);
        Slice::from(all)
    }

    /// The sequence number.
    pub fn seq_number(&self) -> (r: u64)
        requires
            self.well_formed(),
        ensures
            r == seq_of(self@),
    {
        let v = self.compacted_seq_kind();
        assert(v >> 8 == v / 256) by (bit_vector);
        v >> 8
    }

    /// The kind.
    pub fn kind(&self) -> (r: KeyKind)
        requires
            self.well_formed(),
        ensures
            r == kind_of(self@),
    {
        let v = self.compacted_seq_kind();
        assert(v & 0xff == v % 256) by (bit_vector);
        match v & 0xff {
            0 => KeyKind::Value,
            1 => KeyKind::Delete,
            _ => unreached(),
        }
    }

    fn compacted_seq_kind(&self) -> (v: u64)
        requires
            self.well_formed(),
        ensures
            v == packed_of(self@),
            v % 256 == self@[self@.len() - 8],
    {
        let size = self.key_size();
        proof {
            let tail = self@.subrange(self@.len() - 8, self@.len() as int);
            lemma_le_value_bound(tail);
            lemma_radix_values();
            assert(tail[0] == self@[self@.len() - 8]);
        }
        match self.inner.get_u64(UKEY_INDEX + size - SEQ_LENGTH) {
            Some(v) => v,
            None => unreached(),
        }
    }

    fn key_size(&self) -> (n: usize)
        requires
            self.well_formed(),
        ensures
            n + 4 == self@.len(),
            n + 4 <= usize::MAX,
    {
        proof {
            self.inner.lemma_len_fits();
            lemma_le_value_bound(self@.subrange(0, 4));
            lemma_radix_values();
        }
        match self.inner.get_u32(0) {
            Some(v) => v as usize,
            None => unreached(),
        }
    }

    fn make_key(user_key: &[u8], seq: u64, kind: KeyKind) -> (r: Slice)
        requires
            user_key@.len() + 8 <= u32::MAX,
            user_key@.len() + 12 <= usize::MAX,
        ensures
            r@ == internal_key_bytes(user_key@, seq as nat, kind),
    {
        let key_size = user_key.len() + SEQ_LENGTH;
        let mut bytes = Slice::with_capacity(UKEY_LENGTH + key_size);
        bytes.put_u32(key_size as u32);
        proof {
            lemma_le_bytes_len(key_size as nat, 4);
        }
        bytes.put_slice(user_key);
        let k: u64 = match kind {
            KeyKind::Value => 0,
            KeyKind::Delete => 1,
        };
        assert((seq << 8 | k) == (seq % 0x0100_0000_0000_0000) * 256 + k) by (bit_vector)
            requires
                k <= 1,
        ;
        bytes.put_u64(seq << 8 | k);
        bytes
    }
}

impl Eq for InternalKey {

}

impl AsRef<[u8]> for InternalKey {
    fn as_ref(&self) -> (r: &[u8])
        ensures
            r@ == self@,
    {
        InternalKey::as_ref(self)
    }
}

impl PartialEq for InternalKey {
    fn eq(&self, other: &InternalKey) -> (r: bool) {
        bytes_equal(self.inner.as_ref(), other.inner.as_ref())
    }
}

impl PartialEqSpecImpl for InternalKey {
    open spec fn obeys_eq_spec() -> bool {
        true
    }

    open spec fn eq_spec(&self, other: &InternalKey) -> bool {
        self@ == other@
    }
}

impl PartialOrd for InternalKey {
    fn partial_cmp(&self, other: &InternalKey) -> (r: Option<Ordering>) {
        Some(ordering_of(compare_bytes(self.inner.as_ref(), other.inner.as_ref())))
    }
}

impl PartialOrdSpecImpl for InternalKey {
    open spec fn obeys_partial_cmp_spec() -> bool {
        true
    }

    open spec fn partial_cmp_spec(&self, other: &InternalKey) -> Option<Ordering> {
        Some(ordering_spec(relation(self@, other@)))
    }
}

impl PartialEq<Slice> for InternalKey {
    fn eq(&self, other: &Slice) -> (r: bool) {
        bytes_equal(self.inner.as_ref(), other.as_ref())
    }
}

impl PartialEqSpecImpl<Slice> for InternalKey {
    open spec fn obeys_eq_spec() -> bool {
        true
    }

    open spec fn eq_spec(&self, other: &Slice) -> bool {
        self@ == other@
    }
}

impl PartialOrd<Slice> for InternalKey {
    fn partial_cmp(&self, other: &Slice) -> (r: Option<Ordering>) {
        Some(ordering_of(compare_bytes(self.inner.as_ref(), other.as_ref())))
    }
}

impl PartialOrdSpecImpl<Slice> for InternalKey {
    open spec fn obeys_partial_cmp_spec() -> bool {
        true
    }

    open spec fn partial_cmp_spec(&self, other: &Slice) -> Option<Ordering> {
        Some(ordering_spec(relation(self@, other@)))
    }
}

impl PartialEq<InternalKey> for Slice {
    fn eq(&self, other: &InternalKey) -> (r: bool) {
        bytes_equal(self.as_ref(), other.inner.as_ref())
    }
}

impl PartialEqSpecImpl<InternalKey> for Slice {
    open spec fn obeys_eq_spec() -> bool {
        true
    }

    open spec fn eq_spec(&self, other: &InternalKey) -> bool {
        self@ == other@
    }
}

impl PartialOrd<InternalKey> for Slice {
    fn partial_cmp(&self, other: &InternalKey) -> (r: Option<Ordering>) {
        Some(ordering_of(compare_bytes(self.as_ref(), other.inner.as_ref())))
    }
}

impl PartialOrdSpecImpl<InternalKey> for Slice {
    open spec fn obeys_partial_cmp_spec() -> bool {
        true
    }

    open spec fn partial_cmp_spec(&self, other: &InternalKey) -> Option<Ordering> {
        Some(ordering_spec(relation(self@, other@)))
    }
}

} // verus!
