//! Gathers key/value entries into the content of one block.

use crate::endian::{le_bytes, lemma_le_bytes_len};
use crate::slice::Slice;
use vstd::prelude::*;

verus! {

/// One entry of a block: the lengths of key and value in eight bytes each, low
/// bytes first, then the key and the value.
pub open spec fn entry_bytes(key: Seq<u8>, value: Seq<u8>) -> Seq<u8> {
    le_bytes(key.len(), 8) + le_bytes(value.len(), 8) + key + value
}

/// An entry is sixteen bytes longer than its key and value together.
pub proof fn lemma_entry_len(key: Seq<u8>, value: Seq<u8>)
    ensures
        entry_bytes(key, value).len() == 16 + key.len() + value.len(),
{
    lemma_le_bytes_len(key.len(), 8);
    lemma_le_bytes_len(value.len(), 8);
}

/// A block in the making. Its view is the content gathered so far: the
/// entries in the order in which they were added.
#[derive(Debug)]
pub struct BlockBuilder {
    buffer: Slice,
}

impl View for BlockBuilder {
    type V = Seq<u8>;

    closed spec fn view(&self) -> Seq<u8> {
        self.buffer@
    }
}

impl BlockBuilder {
    /// A builder that holds no entry.
    pub fn new() -> (r: Self)
        ensures
            r@ == Seq::<u8>::empty(),
    {
        BlockBuilder { buffer: Slice::new() }
    }

    /// Appends an entry.
    pub fn add(&mut self, key: &Slice, value: &Slice)
        requires
            old(self)@.len() + 16 + key@.len() + value@.len() <= usize::MAX,
        ensures
            final(self)@ == old(self)@ + entry_bytes(key@, value@),
    {
        proof {
            lemma_le_bytes_len(key@.len(), 8);
            lemma_le_bytes_len(value@.len(), 8);
        }
        self.buffer.put_u64(key.len() as u64);
        self.buffer.put_u64(value.len() as u64);
        self.buffer.put(key);
        self.buffer.put(value);
        assert(self.buffer@ =~= old(self).buffer@ + entry_bytes(key@, value@));
    }

    /// The size that the block would have if it were built now.
    pub fn estimated_current_size(&self) -> (n: usize)
        ensures
            n == self@.len(),
    {
        self.buffer.len()
    }

    /// Whether no entry was added since the builder was made or last built.
    pub fn empty(&self) -> (r: bool)
        ensures
            r == (self@.len() == 0),
    {
        self.buffer.len() == 0
    }

    /// Hands out the content gathered and starts over with none.
    pub fn build(&mut self) -> (r: Slice)
        ensures
            r@ == old(self)@,
            final(self)@ == Seq::<u8>::empty(),
    {
        let mut content = Slice::new();
        core::mem::swap(&mut self.buffer, &mut content);
        content
    }
}

} // verus!
