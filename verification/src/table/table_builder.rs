//! Builds a table file: data blocks as they fill up, then the metaindex
//! block, the index block and the footer.

use super::block_builder::{entry_bytes, lemma_entry_len, BlockBuilder};
use super::format::{
    block_image, block_read, encode_trailer, footer_bytes, footer_decoded, handle_bytes,
    lemma_block_reads_back,
    lemma_footer_round_trip, magic_bytes, BlockHandle, Footer, FOOTER_MAX_LENGTH,
    TABLE_MAGIC_NUMBER, TRAILER_SIZE,
};
use super::{Compression, TableError};
use crate::checksum::{block_checksum, crc32_ieee};
use crate::endian::{i64_bits, lemma_le_bytes_len};
use crate::slice::{short_successor, short_successor_of, Slice};
use vstd::prelude::*;

verus! {

/// The size at which a data block is written out, unless another is asked for.
pub const DEFAULT_BLOCK_SIZE: usize = 1024;

/// The sink of a table builder: it counts every byte written and holds those
/// that nobody has taken yet.
pub struct TableWriter {
    buffer: Vec<u8>,
    offset: usize,
    history: Ghost<Seq<u8>>,
}

impl TableWriter {
    /// Every byte written so far, taken or not.
    pub closed spec fn written(&self) -> Seq<u8> {
        self.history@
    }

    /// The bytes written and not yet taken.
    pub closed spec fn pending(&self) -> Seq<u8> {
        self.buffer@
    }

    /// The count is that of the bytes written, and the bytes held are the
    /// last ones written.
    pub closed spec fn wf(&self) -> bool {
        &&& self.offset == self.history@.len()
        &&& self.buffer@.len() <= self.history@.len()
        &&& self.buffer@ == self.history@.subrange(
            self.history@.len() - self.buffer@.len(),
            self.history@.len() as int,
        )
    }

    /// What is held is the end of what was written.
    pub proof fn lemma_pending_is_suffix(&self)
        requires
            self.wf(),
        ensures
            self.pending().len() <= self.written().len() <= usize::MAX,
            self.pending() == self.written().subrange(
                self.written().len() - self.pending().len(),
                self.written().len() as int,
            ),
    {
    }

    /// A writer to which nothing was written.
    pub fn new() -> (w: TableWriter)
        ensures
            w.wf(),
            w.written() == Seq::<u8>::empty(),
            w.pending() == Seq::<u8>::empty(),
    {
        let w = TableWriter { buffer: Vec::new(), offset: 0, history: Ghost(Seq::empty()) };
        assert(w.buffer@ =~= w.history@.subrange(0, 0));
        w
    }

    /// Writes `content`; returns the number of bytes written.
    pub fn write(&mut self, content: &[u8]) -> (n: usize)
        requires
            old(self).wf(),
            old(self).written().len() + content@.len() <= usize::MAX,
        ensures
            final(self).wf(),
            final(self).written() == old(self).written() + content@,
            final(self).pending() == old(self).pending() + content@,
            n == content@.len(),
    {
        self.offset += content.len();
        self.buffer.extend_from_slice(content);
        proof {
            self.history@ = self.history@ + content@;
            assert(self.buffer@ =~= old(self).buffer@ + content@);
            assert(self.buffer@ =~= self.history@.subrange(
                self.history@.len() - self.buffer@.len(),
                self.history@.len() as int,
            ));
        }
        content.len()
    }

    /// The number of bytes written so far.
    pub fn offset(&self) -> (n: u64)
        requires
            self.wf(),
        ensures
            n == self.written().len(),
    {
        self.offset as u64
    }

    /// Hands out the bytes written and not yet taken.
    pub fn take(&mut self) -> (bytes: Vec<u8>)
        requires
            old(self).wf(),
        ensures
            final(self).wf(),
            bytes@ == old(self).pending(),
            final(self).pending() == Seq::<u8>::empty(),
            final(self).written() == old(self).written(),
    {
        let mut bytes = Vec::new();
        core::mem::swap(&mut self.buffer, &mut bytes);
        assert(self.buffer@ =~= self.history@.subrange(
            self.history@.len() - self.buffer@.len(),
            self.history@.len() as int,
        ));
        bytes
    }
}

/// The state of a table in the making.
pub struct TableModel {
    /// Every byte written to the file so far.
    pub written: Seq<u8>,
    /// The content of the data block that is being filled.
    pub data: Seq<u8>,
    /// The content of the index block so far.
    pub index: Seq<u8>,
    /// Size and offset of the data block that was written last, as long as
    /// the index has no entry for it.
    pub pending: Option<(nat, nat)>,
    /// The key that was added last.
    pub last_key: Seq<u8>,
    /// The size at which a data block is written out.
    pub block_size: nat,
}

impl TableModel {
    /// A table to which nothing was added, after `written` in its file.
    pub open spec fn start(written: Seq<u8>, block_size: nat) -> TableModel {
        TableModel {
            written,
            data: Seq::empty(),
            index: Seq::empty(),
            pending: None,
            last_key: Seq::empty(),
            block_size,
        }
    }

    /// A data block that awaits its index entry leaves no entry buffered.
    pub open spec fn wf(self) -> bool {
        self.pending is Some ==> self.data.len() == 0
    }

    /// The bytes written and those held in the two blocks.
    pub open spec fn load(self) -> nat {
        self.written.len() + self.data.len() + self.index.len()
    }

    /// Gives the data block that was written last, if it still awaits one,
    /// its index entry: the short successor of `key` with the block's handle.
    pub open spec fn with_index_entry(self, key: Seq<u8>) -> TableModel {
        match self.pending {
            Some((size, offset)) => TableModel {
                index: self.index + entry_bytes(
                    short_successor_of(key),
                    handle_bytes(size, offset),
                ),
                pending: None,
                ..self
            },
            None => self,
        }
    }

    /// Writes the data block out with its trailer, unless it is empty.
    pub open spec fn flush(self) -> TableModel {
        if self.data.len() == 0 {
            self
        } else {
            TableModel {
                written: self.written + block_image(self.data, 0),
                data: Seq::empty(),
                pending: Some((self.data.len(), self.written.len())),
                ..self
            }
        }
    }

    /// Adds an entry: the index entry that is due is made from `key`, the
    /// entry joins the data block, and a data block that has reached the
    /// block size is written out.
    pub open spec fn add(self, key: Seq<u8>, value: Seq<u8>) -> TableModel {
        let indexed = self.with_index_entry(key);
        let grown = TableModel {
            data: indexed.data + entry_bytes(key, value),
            last_key: key,
            ..indexed
        };
        if grown.data.len() >= grown.block_size {
            grown.flush()
        } else {
            grown
        }
    }

    /// Completes the file: the data block, an empty metaindex block, the
    /// index block with the entry that is due made from the last key, and the
    /// footer.
    pub open spec fn finish(self) -> TableModel {
        let flushed = self.flush();
        let meta_offset = flushed.written.len();
        let with_meta = flushed.written + block_image(Seq::empty(), 0);
        let indexed = flushed.with_index_entry(flushed.last_key);
        let index_offset = with_meta.len();
        let with_index = with_meta + block_image(indexed.index, 0);
        TableModel {
            written: with_index + handle_bytes(indexed.index.len(), index_offset) + handle_bytes(
                0,
                meta_offset,
            ) + magic_bytes(),
            data: Seq::empty(),
            index: Seq::empty(),
            pending: None,
            ..indexed
        }
    }

    /// The state after the entries were added one after the other.
    pub open spec fn add_all(self, entries: Seq<(Seq<u8>, Seq<u8>)>) -> TableModel
        decreases entries.len(),
    {
        if entries.len() == 0 {
            self
        } else {
            self.add_all(entries.drop_last()).add(entries.last().0, entries.last().1)
        }
    }
}

/// The bytes of the table file that holds `entries`, built with data blocks
/// of `block_size`.
pub open spec fn table_image(entries: Seq<(Seq<u8>, Seq<u8>)>, block_size: nat) -> Seq<u8> {
    TableModel::start(Seq::empty(), block_size).add_all(entries).finish().written
}

/// A block with its trailer is five bytes longer than its content.
pub proof fn lemma_block_image_len(content: Seq<u8>, kind: u8)
    ensures
        block_image(content, kind).len() == content.len() + 5,
{
    lemma_le_bytes_len(crc32_ieee(content.push(kind)) as nat, 4);
}

/// Adding an entry keeps what was written, and the load does not shrink.
pub proof fn lemma_add_grows(s: TableModel, key: Seq<u8>, value: Seq<u8>)
    requires
        s.wf(),
    ensures
        s.add(key, value).wf(),
        s.add(key, value).load() >= s.load(),
        s.add(key, value).written.len() >= s.written.len(),
        s.add(key, value).written.subrange(0, s.written.len() as int) == s.written,
        s.add(key, value).block_size == s.block_size,
{
    let indexed = s.with_index_entry(key);
    let grown = TableModel {
        data: indexed.data + entry_bytes(key, value),
        last_key: key,
        ..indexed
    };
    lemma_entry_len(key, value);
    lemma_block_image_len(grown.data, 0);
    assert(s.add(key, value).written.subrange(0, s.written.len() as int) =~= s.written);
}

/// Completing the file keeps what was written, and the file is no shorter
/// than the load.
pub proof fn lemma_finish_grows(s: TableModel)
    requires
        s.wf(),
    ensures
        s.finish().written.len() >= s.load() + 50,
        s.finish().written.subrange(0, s.written.len() as int) == s.written,
{
    let flushed = s.flush();
    let indexed = flushed.with_index_entry(flushed.last_key);
    lemma_block_image_len(s.data, 0);
    lemma_block_image_len(Seq::empty(), 0);
    lemma_block_image_len(indexed.index, 0);
    lemma_le_bytes_len(indexed.index.len(), 8);
    lemma_le_bytes_len((flushed.written.len() + 5) as nat, 8);
    lemma_le_bytes_len(0, 8);
    lemma_le_bytes_len(flushed.written.len(), 8);
    lemma_le_bytes_len(i64_bits(TABLE_MAGIC_NUMBER), 8);
    assert(s.finish().written.subrange(0, s.written.len() as int) =~= s.written);
}

/// Adding entries keeps the state sound and the block size, and the load
/// does not shrink.
pub proof fn lemma_add_all_grows(s: TableModel, entries: Seq<(Seq<u8>, Seq<u8>)>)
    requires
        s.wf(),
    ensures
        s.add_all(entries).wf(),
        s.add_all(entries).load() >= s.load(),
        s.add_all(entries).block_size == s.block_size,
    decreases entries.len(),
{
    if entries.len() > 0 {
        lemma_add_all_grows(s, entries.drop_last());
        lemma_add_grows(s.add_all(entries.drop_last()), entries.last().0, entries.last().1);
    }
}

/// The load after some of the entries is no more than the load after all.
pub proof fn lemma_add_all_prefix(s: TableModel, entries: Seq<(Seq<u8>, Seq<u8>)>, i: int)
    requires
        s.wf(),
        0 <= i <= entries.len(),
    ensures
        s.add_all(entries.take(i)).load() <= s.add_all(entries).load(),
    decreases entries.len(),
{
    if i == entries.len() {
        assert(entries.take(i) =~= entries);
    } else {
        lemma_add_all_prefix(s, entries.drop_last(), i);
        assert(entries.drop_last().take(i) =~= entries.take(i));
        lemma_add_all_grows(s, entries.drop_last());
        lemma_add_grows(s.add_all(entries.drop_last()), entries.last().0, entries.last().1);
    }
}

/// Adding the entry behind the first `i` gives the state after the first
/// `i + 1`.
pub proof fn lemma_add_all_step(s: TableModel, entries: Seq<(Seq<u8>, Seq<u8>)>, i: int)
    requires
        0 <= i < entries.len(),
    ensures
        s.add_all(entries.take(i + 1)) == s.add_all(entries.take(i)).add(
            entries[i].0,
            entries[i].1,
        ),
{
    assert(entries.take(i + 1).drop_last() =~= entries.take(i));
}

/// A data block that was written out reads back, by the handle that awaits
/// its index entry, as the entries that were gathered.
pub proof fn lemma_flushed_block_reads_back(s: TableModel)
    requires
        s.data.len() > 0,
        s.flush().written.len() <= u64::MAX,
    ensures
        s.flush().pending == Some((s.data.len(), s.written.len())),
        block_read(s.flush().written, s.data.len() as u64, s.written.len() as u64) == Ok::<
            Seq<u8>,
            TableError,
        >(s.data),
{
    let file = s.flush().written;
    lemma_block_image_len(s.data, 0);
    assert(file.subrange(s.written.len() as int, (s.written.len() + s.data.len() + 5) as int)
        =~= block_image(s.data, 0));
    lemma_block_reads_back(file, s.data, s.written.len() as u64);
}

/// The last forty bytes of a finished file are a footer, and the blocks that
/// it points to read back as the index block and the empty metaindex block.
pub proof fn lemma_finished_table_reads_back(s: TableModel)
    requires
        s.wf(),
        s.finish().written.len() <= u64::MAX,
    ensures
        ({
            let file = s.finish().written;
            let flushed = s.flush();
            let index = flushed.with_index_entry(flushed.last_key).index;
            let meta_offset = flushed.written.len();
            let index_offset = meta_offset + 5;
            &&& file.len() == index_offset + index.len() + 5 + 40
            &&& footer_decoded(file.subrange(file.len() - 40, file.len() as int)) == Ok::<
                Footer,
                TableError,
            >(
                Footer {
                    index_block_handle: BlockHandle {
                        size: Some(index.len() as u64),
                        offset: Some(index_offset as u64),
                    },
                    metaindex_block_handle: BlockHandle {
                        size: Some(0),
                        offset: Some(meta_offset as u64),
                    },
                },
            )
            &&& block_read(file, index.len() as u64, index_offset as u64) == Ok::<
                Seq<u8>,
                TableError,
            >(index)
            &&& block_read(file, 0, meta_offset as u64) == Ok::<Seq<u8>, TableError>(
                Seq::<u8>::empty(),
            )
        }),
{
    let file = s.finish().written;
    let flushed = s.flush();
    let index = flushed.with_index_entry(flushed.last_key).index;
    let meta_offset = flushed.written.len();
    let index_offset = meta_offset + 5;
    let footer = Footer {
        index_block_handle: BlockHandle {
            size: Some(index.len() as u64),
            offset: Some(index_offset as u64),
        },
        metaindex_block_handle: BlockHandle { size: Some(0), offset: Some(meta_offset as u64) },
    };
    lemma_block_image_len(Seq::empty(), 0);
    lemma_block_image_len(index, 0);
    lemma_footer_round_trip(footer);
    assert(file.subrange(file.len() - 40, file.len() as int) =~= footer_bytes(footer));
    assert(file.subrange(meta_offset as int, meta_offset + 5 as int) =~= block_image(
        Seq::empty(),
        0,
    ));
    lemma_block_reads_back(file, Seq::empty(), meta_offset as u64);
    assert(file.subrange(index_offset as int, index_offset + index.len() + 5 as int) =~= block_image(
        index,
        0,
    ));
    lemma_block_reads_back(file, index, index_offset as u64);
}

/// The same entries and the same block size give the same file, byte for
/// byte.
pub proof fn lemma_build_is_deterministic(
    first: Seq<(Seq<u8>, Seq<u8>)>,
    second: Seq<(Seq<u8>, Seq<u8>)>,
    block_size: nat,
)
    requires
        first.len() == second.len(),
        forall|i: int| 0 <= i < first.len() ==> first[i] == second[i],
    ensures
        table_image(first, block_size) == table_image(second, block_size),
{
    assert(first =~= second);
}

/// A table builder. Its view is the state of the table.
pub struct TableBuilder {
    writer: TableWriter,
    data_block: BlockBuilder,
    index_block: BlockBuilder,
    pending_handle: BlockHandle,
    pending_index_entry: bool,
    last_key: Slice,
    block_size: usize,
}

impl View for TableBuilder {
    type V = TableModel;

    closed spec fn view(&self) -> TableModel {
        TableModel {
            written: self.writer.written(),
            data: self.data_block@,
            index: self.index_block@,
            pending: if self.pending_index_entry {
                Some((self.pending_handle.size->0 as nat, self.pending_handle.offset->0 as nat))
            } else {
                None
            },
            last_key: self.last_key@,
            block_size: self.block_size as nat,
        }
    }
}

impl TableBuilder {
    /// The writer is sound, and so is the state of the table.
    pub closed spec fn wf(&self) -> bool {
        &&& self.writer.wf()
        &&& self@.wf()
        &&& self.pending_index_entry ==> self.pending_handle.is_set()
    }

    /// The bytes written and not yet taken.
    pub closed spec fn output(&self) -> Seq<u8> {
        self.writer.pending()
    }

    /// The state of a sound builder is sound, what it holds back is the end
    /// of what was written, and the bytes written can be counted.
    pub proof fn lemma_wf_state(&self)
        requires
            self.wf(),
        ensures
            self@.wf(),
            self@.written.len() <= usize::MAX,
            self.output().len() <= self@.written.len(),
            self.output() == self@.written.subrange(
                self@.written.len() - self.output().len(),
                self@.written.len() as int,
            ),
    {
        self.writer.lemma_pending_is_suffix();
    }

    /// A builder that writes to `w`, with data blocks of the default size.
    pub fn new(w: TableWriter) -> (r: Self)
        requires
            w.wf(),
        ensures
            r.wf(),
            r@ == TableModel::start(w.written(), DEFAULT_BLOCK_SIZE as nat),
            r.output() == w.pending(),
    {
        TableBuilder::with_block_size(w, DEFAULT_BLOCK_SIZE)
    }

    /// A builder that writes to `w`, with data blocks of `block_size`.
    pub fn with_block_size(w: TableWriter, block_size: usize) -> (r: Self)
        requires
            w.wf(),
        ensures
            r.wf(),
            r@ == TableModel::start(w.written(), block_size as nat),
            r.output() == w.pending(),
    {
        Self {
            writer: w,
            data_block: BlockBuilder::new(),
            index_block: BlockBuilder::new(),
            pending_handle: BlockHandle::new(),
            pending_index_entry: false,
            last_key: Slice::new(),
            block_size,
        }
    }

    /// Whether there is room to add the entry: whether the bytes written and
    /// held after it can still be counted.
    pub fn can_add(&self, key: &Slice, value: &Slice) -> (r: bool)
        requires
            self.wf(),
        ensures
            r == (self@.add(key@, value@).load() <= usize::MAX),
    {
        proof {
            let indexed = self@.with_index_entry(key@);
            let grown = TableModel {
                data: indexed.data + entry_bytes(key@, value@),
                last_key: key@,
                ..indexed
            };
            lemma_entry_len(key@, value@);
            lemma_block_image_len(grown.data, 0);
            if let Some((size, offset)) = self@.pending {
                lemma_entry_len(short_successor_of(key@), handle_bytes(size, offset));
                lemma_le_bytes_len(size, 8);
                lemma_le_bytes_len(offset, 8);
            }
        }
        let mut total: u128 = self.writer.offset() as u128;
        total += self.index_block.estimated_current_size() as u128;
        if self.pending_index_entry {
            let mut k = key.clone();
            short_successor(&mut k);
            total += 32 + k.len() as u128;
        }
        let data: u128 = self.data_block.estimated_current_size() as u128 + 16 + key.len() as u128
            + value.len() as u128;
        total += data;
        if data >= self.block_size as u128 {
            total += TRAILER_SIZE as u128;
        }
        total <= usize::MAX as u128
    }

    /// Whether there is room to write the data block out.
    pub fn can_flush(&self) -> (r: bool)
        requires
            self.wf(),
        ensures
            r == (self@.flush().written.len() <= usize::MAX),
    {
        proof {
            lemma_block_image_len(self@.data, 0);
        }
        let data = self.data_block.estimated_current_size();
        data == 0 || self.writer.offset() as u128 + data as u128 + TRAILER_SIZE as u128
            <= usize::MAX as u128
    }

    /// Whether there is room to complete the file.
    pub fn can_build(&self) -> (r: bool)
        requires
            self.wf(),
        ensures
            r == (self@.finish().written.len() <= usize::MAX),
    {
        proof {
            let flushed = self@.flush();
            let indexed = flushed.with_index_entry(flushed.last_key);
            lemma_block_image_len(self@.data, 0);
            lemma_block_image_len(Seq::empty(), 0);
            lemma_block_image_len(indexed.index, 0);
            if let Some((size, offset)) = flushed.pending {
                lemma_entry_len(short_successor_of(flushed.last_key), handle_bytes(size, offset));
                lemma_le_bytes_len(size, 8);
                lemma_le_bytes_len(offset, 8);
            }
            lemma_le_bytes_len(indexed.index.len(), 8);
            lemma_le_bytes_len((flushed.written.len() + 5) as nat, 8);
            lemma_le_bytes_len(0, 8);
            lemma_le_bytes_len(flushed.written.len(), 8);
            lemma_le_bytes_len(i64_bits(TABLE_MAGIC_NUMBER), 8);
        }
        let data = self.data_block.estimated_current_size();
        let mut total: u128 = self.writer.offset() as u128;
        total += self.index_block.estimated_current_size() as u128;
        if data > 0 {
            total += data as u128 + TRAILER_SIZE as u128;
        }
        if self.pending_index_entry || data > 0 {
            let mut k = self.last_key.clone();
            short_successor(&mut k);
            total += 32 + k.len() as u128;
        }
        total += 2 * TRAILER_SIZE as u128 + FOOTER_MAX_LENGTH as u128;
        total <= usize::MAX as u128
    }

    /// Adds an entry. Keys are to come in ascending order.
    pub fn add(&mut self, key: &Slice, value: &Slice)
        requires
            old(self).wf(),
            old(self)@.add(key@, value@).load() <= usize::MAX,
        ensures
            final(self).wf(),
            final(self)@ == old(self)@.add(key@, value@),
            final(self).output() == old(self).output() + final(self)@.written.subrange(
                old(self)@.written.len() as int,
                final(self)@.written.len() as int,
            ),
    {
        proof {
            let indexed = old(self)@.with_index_entry(key@);
            let grown = TableModel {
                data: indexed.data + entry_bytes(key@, value@),
                last_key: key@,
                ..indexed
            };
            lemma_entry_len(key@, value@);
            lemma_block_image_len(grown.data, 0);
            self.writer.lemma_pending_is_suffix();
            if let Some((size, offset)) = old(self)@.pending {
                lemma_entry_len(short_successor_of(key@), handle_bytes(size, offset));
            }
        }
        if self.pending_index_entry {
            let mut k = key.clone();
            short_successor(&mut k);
            let content = self.pending_handle.encode();
            self.index_block.add(&k, &content);
            self.pending_index_entry = false;
        }
        self.data_block.add(key, value);
        self.last_key = key.clone();
        assert(self.output() =~= old(self).output() + self@.written.subrange(
            old(self)@.written.len() as int,
            self@.written.len() as int,
        ));
        if self.data_block.estimated_current_size() >= self.block_size {
            self.flush();
        }
    }

    /// Writes the data block out, unless it is empty.
    pub fn flush(&mut self)
        requires
            old(self).wf(),
            old(self)@.flush().written.len() <= usize::MAX,
        ensures
            final(self).wf(),
            final(self)@ == old(self)@.flush(),
            final(self).output() == old(self).output() + final(self)@.written.subrange(
                old(self)@.written.len() as int,
                final(self)@.written.len() as int,
            ),
    {
        proof {
            self.writer.lemma_pending_is_suffix();
            lemma_block_image_len(self@.data, 0);
        }
        if self.data_block.empty() {
            assert(self.output() =~= old(self).output() + self@.written.subrange(
                old(self)@.written.len() as int,
                self@.written.len() as int,
            ));
            return ;
        }
        let content = self.data_block.build();
        self.pending_handle = self.write_block(&content);
        self.pending_index_entry = true;
    }

    /// Completes the file and hands back the writer.
    pub fn build(self) -> (w: TableWriter)
        requires
            self.wf(),
            self@.finish().written.len() <= usize::MAX,
        ensures
            w.wf(),
            w.written() == self@.finish().written,
            w.pending() == self.output() + w.written().subrange(
                self@.written.len() as int,
                w.written().len() as int,
            ),
    {
        let mut this = self;
        proof {
            lemma_finish_grows(this@);
            let flushed = this@.flush();
            let indexed = flushed.with_index_entry(flushed.last_key);
            lemma_block_image_len(this@.data, 0);
            lemma_block_image_len(Seq::empty(), 0);
            lemma_block_image_len(indexed.index, 0);
            if let Some((size, offset)) = flushed.pending {
                lemma_entry_len(short_successor_of(flushed.last_key), handle_bytes(size, offset));
            }
            lemma_le_bytes_len(indexed.index.len(), 8);
            lemma_le_bytes_len((flushed.written.len() + 5) as nat, 8);
            lemma_le_bytes_len(0, 8);
            lemma_le_bytes_len(flushed.written.len(), 8);
            lemma_le_bytes_len(i64_bits(TABLE_MAGIC_NUMBER), 8);
        }
        this.flush();
        let metaindex_block_handle = {
            let mut meta_index_block = BlockBuilder::new();
            let content = meta_index_block.build();
            this.write_block(&content)
        };
        let index_block_handle = {
            if this.pending_index_entry {
                short_successor(&mut this.last_key);
                let content = this.pending_handle.encode();
                this.index_block.add(&this.last_key, &content);
                this.pending_index_entry = false;
            }
            let content = this.index_block.build();
            this.write_block(&content)
        };
        let footer = Footer::new(index_block_handle, metaindex_block_handle);
        let content = footer.encode();
        this.writer.write(content.as_ref());
        proof {
            let w = this.writer;
            assert(w.written() =~= self@.finish().written);
            self.writer.lemma_pending_is_suffix();
            assert(w.pending() =~= self.output() + w.written().subrange(
                self@.written.len() as int,
                w.written().len() as int,
            ));
        }
        this.writer
    }

    /// The number of bytes written so far.
    pub fn size(&self) -> (n: usize)
        requires
            self.wf(),
        ensures
            n == self@.written.len(),
    {
        self.writer.offset() as usize
    }

    /// Hands out the bytes written and not yet taken.
    pub fn take_output(&mut self) -> (bytes: Vec<u8>)
        requires
            old(self).wf(),
        ensures
            final(self).wf(),
            final(self)@ == old(self)@,
            bytes@ == old(self).output(),
            final(self).output() == Seq::<u8>::empty(),
    {
        self.writer.take()
    }

    fn write_block(&mut self, content: &Slice) -> (bh: BlockHandle)
        requires
            old(self).writer.wf(),
            old(self).writer.written().len() + content@.len() + 5 <= usize::MAX,
        ensures
            final(self).writer.wf(),
            final(self).writer.written() == old(self).writer.written() + block_image(content@, 0),
            final(self).writer.pending() == old(self).writer.pending() + block_image(content@, 0),
            bh.size == Some(content@.len() as u64),
            bh.offset == Some(old(self).writer.written().len() as u64),
            final(self).data_block == old(self).data_block,
            final(self).index_block == old(self).index_block,
            final(self).pending_handle == old(self).pending_handle,
            final(self).pending_index_entry == old(self).pending_index_entry,
            final(self).last_key == old(self).last_key,
            final(self).block_size == old(self).block_size,
    {
        let kind = Compression::No;
        self.write_raw_block(content, kind)
    }

    fn write_raw_block(&mut self, content: &Slice, kindt: Compression) -> (bh: BlockHandle)
        requires
            old(self).writer.wf(),
            old(self).writer.written().len() + content@.len() + 5 <= usize::MAX,
        ensures
            final(self).writer.wf(),
            final(self).writer.written() == old(self).writer.written() + block_image(
                content@,
                kindt.byte(),
            ),
            final(self).writer.pending() == old(self).writer.pending() + block_image(
                content@,
                kindt.byte(),
            ),
            bh.size == Some(content@.len() as u64),
            bh.offset == Some(old(self).writer.written().len() as u64),
            final(self).data_block == old(self).data_block,
            final(self).index_block == old(self).index_block,
            final(self).pending_handle == old(self).pending_handle,
            final(self).pending_index_entry == old(self).pending_index_entry,
            final(self).last_key == old(self).last_key,
            final(self).block_size == old(self).block_size,
    {
        // the offset is taken before anything is written
        let bh = BlockHandle::from(content.len() as u64, self.writer.offset());
        let kind = kindt.as_u8();
        let content_slice = content.as_ref();
        self.writer.write(content_slice);
        let crc = block_checksum(content_slice, kind);
        let trailer = encode_trailer(kindt, crc);
        self.writer.write(trailer.as_ref());
        proof {
            assert(self.writer.written() =~= old(self).writer.written() + block_image(
                content@,
                kindt.byte(),
            ));
            assert(self.writer.pending() =~= old(self).writer.pending() + block_image(
                content@,
                kindt.byte(),
            ));
        }
        bh
    }
}

} // verus!
