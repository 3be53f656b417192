//! A block as it was read back from a table file, and the entries in it.

use super::block_builder::{entry_bytes, lemma_entry_len};
use crate::endian::{
    le_bytes, le_read_u64, le_value, lemma_le_bytes_len, lemma_le_value_of_bytes,
    lemma_radix_values,
};
use crate::slice::Slice;
use vstd::prelude::*;
use vstd::slice::slice_subrange;

verus! {

/// The content of a block that holds `entries`, one after the other.
pub open spec fn entries_bytes(entries: Seq<(Seq<u8>, Seq<u8>)>) -> Seq<u8>
    decreases entries.len(),
{
    if entries.len() == 0 {
        Seq::empty()
    } else {
        entry_bytes(entries[0].0, entries[0].1) + entries_bytes(
            entries.subrange(1, entries.len() as int),
        )
    }
}

/// The entries that a block's content holds: each entry gives the lengths of
/// its key and value and then both. `None` where the content ends inside an
/// entry.
pub open spec fn parsed_entries(content: Seq<u8>) -> Option<Seq<(Seq<u8>, Seq<u8>)>>
    decreases content.len(),
{
    if content.len() == 0 {
        Some(Seq::empty())
    } else if content.len() < 16 {
        None
    } else {
        let key_len = le_value(content.subrange(0, 8)) as int;
        let value_len = le_value(content.subrange(8, 16)) as int;
        if 16 + key_len + value_len > content.len() {
            None
        } else {
            let key = content.subrange(16, 16 + key_len);
            let value = content.subrange(16 + key_len, 16 + key_len + value_len);
            match parsed_entries(
                content.subrange(16 + key_len + value_len, content.len() as int),
            ) {
                Some(rest) => Some(seq![(key, value)] + rest),
                None => None,
            }
        }
    }
}

/// The lengths of every key and value fit in eight bytes.
pub open spec fn lengths_fit(entries: Seq<(Seq<u8>, Seq<u8>)>) -> bool {
    forall|i: int|
        0 <= i < entries.len() ==> (#[trigger] entries[i]).0.len() <= u64::MAX
            && entries[i].1.len() <= u64::MAX
}

/// An entry added at the end of a block stands at the end of its content.
pub proof fn lemma_entries_bytes_push(
    entries: Seq<(Seq<u8>, Seq<u8>)>,
    key: Seq<u8>,
    value: Seq<u8>,
)
    ensures
        entries_bytes(entries.push((key, value))) == entries_bytes(entries) + entry_bytes(
            key,
            value,
        ),
    decreases entries.len(),
{
    let longer = entries.push((key, value));
    if entries.len() == 0 {
        let none = longer.subrange(1, longer.len() as int);
        assert(none =~= Seq::empty());
        assert(entries_bytes(none) =~= Seq::<u8>::empty());
        assert(longer[0] == (key, value));
        assert(entries_bytes(longer) =~= entry_bytes(key, value));
        assert(entries_bytes(entries) + entry_bytes(key, value) =~= entry_bytes(key, value));
    } else {
        let tail = entries.subrange(1, entries.len() as int);
        lemma_entries_bytes_push(tail, key, value);
        assert(longer.subrange(1, longer.len() as int) =~= tail.push((key, value)));
        assert(entries_bytes(longer) =~= entries_bytes(entries) + entry_bytes(key, value));
    }
}

/// The content that holds some entries is read back as those entries.
pub proof fn lemma_entries_round_trip(entries: Seq<(Seq<u8>, Seq<u8>)>)
    requires
        lengths_fit(entries),
    ensures
        parsed_entries(entries_bytes(entries)) == Some(entries),
    decreases entries.len(),
{
    if entries.len() > 0 {
        let key = entries[0].0;
        let value = entries[0].1;
        let tail = entries.subrange(1, entries.len() as int);
        let first = entry_bytes(key, value);
        let content = entries_bytes(entries);
        assert(lengths_fit(tail)) by {
            assert forall|i: int| 0 <= i < tail.len() implies (#[trigger] tail[i]).0.len()
                <= u64::MAX && tail[i].1.len() <= u64::MAX by {
                assert(tail[i] == entries[i + 1]);
            }
        }
        lemma_entries_round_trip(tail);
        lemma_entry_len(key, value);
        lemma_le_bytes_len(key.len(), 8);
        lemma_le_bytes_len(value.len(), 8);
        lemma_radix_values();
        lemma_le_value_of_bytes(key.len(), 8);
        lemma_le_value_of_bytes(value.len(), 8);
        assert(content.subrange(0, 8) =~= le_bytes(key.len(), 8));
        assert(content.subrange(8, 16) =~= le_bytes(value.len(), 8));
        let key_end = 16 + key.len() as int;
        let value_end = key_end + value.len() as int;
        assert(content.subrange(16, key_end) =~= key);
        assert(content.subrange(key_end, value_end) =~= value);
        assert(content.subrange(value_end, content.len() as int) =~= entries_bytes(tail));
        assert(seq![(key, value)] + tail =~= entries);
    }
}

/// The content of one block, its trailer checked and taken off. Its view is
/// the content bytes.
#[derive(Debug)]
pub struct Block {
    content: Slice,
}

impl View for Block {
    type V = Seq<u8>;

    closed spec fn view(&self) -> Seq<u8> {
        self.content@
    }
}

/// The keys and values of entries, as byte strings.
pub open spec fn pairs_view(entries: Seq<(Slice, Slice)>) -> Seq<(Seq<u8>, Seq<u8>)> {
    Seq::new(entries.len(), |i: int| (entries[i].0@, entries[i].1@))
}

impl Block {
    /// A block of the given content.
    pub fn new(content: Slice) -> (r: Self)
        ensures
            r@ == content@,
    {
        Block { content }
    }

    /// The content bytes.
    pub fn as_ref(&self) -> (r: &[u8])
        ensures
            r@ == self@,
    {
        self.content.as_ref()
    }

    /// The number of content bytes.
    pub fn len(&self) -> (n: usize)
        ensures
            n == self@.len(),
    {
        self.content.len()
    }

    /// The entries in the block, in their order; `None` where the content
    /// ends inside an entry.
    pub fn entries(&self) -> (r: Option<Vec<(Slice, Slice)>>)
        ensures
            match r {
                Some(entries) => parsed_entries(self@) == Some(pairs_view(entries@)),
                None => parsed_entries(self@) is None,
            },
    {
        let bytes = self.content.as_ref();
        let len = bytes.len();
        let mut entries: Vec<(Slice, Slice)> = Vec::new();
        let mut at: usize = 0;
        proof {
            assert(self@.subrange(0, len as int) =~= self@);
            match parsed_entries(self@) {
                Some(rest) => {
                    assert(pairs_view(entries@) + rest =~= rest);
                },
                None => {},
            }
        }
        while at < len
            invariant
                bytes@ == self@,
                len == bytes@.len(),
                at <= len,
                parsed_entries(self@) == match parsed_entries(
                    self@.subrange(at as int, len as int),
                ) {
                    Some(rest) => Some(pairs_view(entries@) + rest),
                    None => None,
                },
            decreases len - at,
        {
            let ghost rest = self@.subrange(at as int, len as int);
            if len - at < 16 {
                return None;
            }
            let key_len = le_read_u64(slice_subrange(bytes, at, at + 8));
            let value_len = le_read_u64(slice_subrange(bytes, at + 8, at + 16));
            proof {
                assert(bytes@.subrange(at as int, at + 8).subrange(0, 8) =~= rest.subrange(0, 8));
                assert(bytes@.subrange(at + 8, at + 16).subrange(0, 8) =~= rest.subrange(8, 16));
            }
            let room = (len - at - 16) as u64;
            if key_len > room || value_len > room - key_len {
                return None;
            }
            let key_start = at + 16;
            let value_start = key_start + key_len as usize;
            let end = value_start + value_len as usize;
            let key = Slice::from(slice_subrange(bytes, key_start, value_start));
            let value = Slice::from(slice_subrange(bytes, value_start, end));
            proof {
                assert(key@ =~= rest.subrange(16, 16 + key_len));
                assert(value@ =~= rest.subrange(16 + key_len, 16 + key_len + value_len));
                assert(self@.subrange(end as int, len as int) =~= rest.subrange(
                    16 + key_len + value_len,
                    rest.len() as int,
                ));
                let ghost before = pairs_view(entries@);
                let ghost after = pairs_view(entries@.push((key, value)));
                assert(after =~= before + seq![(key@, value@)]);
                match parsed_entries(self@.subrange(end as int, len as int)) {
                    Some(tail) => {
                        assert(before + (seq![(key@, value@)] + tail) =~= after + tail);
                    },
                    None => {},
                }
            }
            entries.push((key, value));
            at = end;
        }
        proof {
            assert(pairs_view(entries@) + Seq::<(Seq<u8>, Seq<u8>)>::empty() =~= pairs_view(
                entries@,
            ));
        }
        Some(entries)
    }
}

} // verus!
