//! Block handles, the footer, and the check of a block against its trailer.

use super::block::Block;
use super::{compression_of_byte, Compression, TableError};
use crate::checksum::{block_checksum, crc32_ieee};
use crate::endian::{
    i64_at, i64_bits, le_bytes, lemma_le_bytes_len, lemma_le_bytes_of_value,
    lemma_le_value_bound, lemma_le_value_of_bytes, lemma_radix_values, u32_at, u64_at,
};
use crate::slice::Slice;
use vstd::pervasive::unreached;
use vstd::prelude::*;
use vstd::slice::slice_subrange;

verus! {

/// The length of a footer: two block handles and the magic number.
pub const FOOTER_MAX_LENGTH: usize = 40;

/// The length of an encoded block handle.
pub const BLOCK_HANDLE_LENGTH: usize = 16;

/// The length of the trailer behind each block: the compression kind and the
/// checksum.
pub const TRAILER_SIZE: usize = 5;

/// The number that ends every table file: the leading 64 bits of the SHA-1 of
/// `http://code.google.com/p/leveldb/`, read as a signed number.
pub const TABLE_MAGIC_NUMBER: i64 = -2646017456237118633;

/// Where a block lies in a table file. Both fields are unset until given.
#[derive(Debug, Clone, Copy, PartialEq, Eq, Structural)]
pub struct BlockHandle {
    pub size: Option<u64>,
    pub offset: Option<u64>,
}

/// The sixteen bytes of a block handle: size, then offset, low bytes first.
pub open spec fn handle_bytes(size: nat, offset: nat) -> Seq<u8> {
    le_bytes(size, 8) + le_bytes(offset, 8)
}

/// The handle read from the front of `s`: size and offset from its first
/// sixteen bytes; the unset handle where `s` holds fewer.
pub open spec fn decoded_handle(s: Seq<u8>) -> BlockHandle {
    if s.len() >= 16 {
        BlockHandle { size: Some(u64_at(s, 0)), offset: Some(u64_at(s, 8)) }
    } else {
        BlockHandle { size: None, offset: None }
    }
}

/// What is left of `s` once a handle was read from its front: `s` without
/// its first sixteen bytes; all of `s` where it holds fewer.
pub open spec fn after_handle(s: Seq<u8>) -> Seq<u8> {
    if s.len() >= 16 {
        s.subrange(16, s.len() as int)
    } else {
        s
    }
}

/// Decoding the encoding of a handle gives the handle back and uses up all
/// sixteen bytes.
pub proof fn lemma_handle_round_trip(size: u64, offset: u64)
    ensures
        handle_bytes(size as nat, offset as nat).len() == 16,
        decoded_handle(handle_bytes(size as nat, offset as nat)) == (BlockHandle {
            size: Some(size),
            offset: Some(offset),
        }),
        after_handle(handle_bytes(size as nat, offset as nat)) == Seq::<u8>::empty(),
{
    let s = handle_bytes(size as nat, offset as nat);
    lemma_le_bytes_len(size as nat, 8);
    lemma_le_bytes_len(offset as nat, 8);
    lemma_radix_values();
    lemma_le_value_of_bytes(size as nat, 8);
    lemma_le_value_of_bytes(offset as nat, 8);
    assert(s.subrange(0, 8) =~= le_bytes(size as nat, 8));
    assert(s.subrange(8, 16) =~= le_bytes(offset as nat, 8));
    assert(after_handle(s) =~= Seq::<u8>::empty());
}

impl BlockHandle {
    /// Both fields are set.
    pub open spec fn is_set(&self) -> bool {
        self.size is Some && self.offset is Some
    }

    /// The encoding of a handle whose fields are set.
    pub open spec fn bytes(&self) -> Seq<u8> {
        handle_bytes(self.size->0 as nat, self.offset->0 as nat)
    }

    /// A handle with both fields unset.
    pub fn new() -> (r: Self)
        ensures
            r.size is None,
            r.offset is None,
    {
        Self { size: None, offset: None }
    }

    /// A handle with both fields set.
    pub fn from(size: u64, offset: u64) -> (r: Self)
        ensures
            r.size == Some(size),
            r.offset == Some(offset),
    {
        Self { size: Some(size), offset: Some(offset) }
    }

    /// Reads a handle from the first sixteen bytes of `input` and removes
    /// them. Where `input` holds fewer, the handle comes back unset and
    /// `input` stays as it is.
    pub fn decode_from(input: &mut Slice) -> (r: Self)
        ensures
            r == decoded_handle(old(input)@),
            final(input)@ == after_handle(old(input)@),
    {
        if input.len() < BLOCK_HANDLE_LENGTH {
            return Self::new();
        }
        let size = input.read_u64();
        let offset = input.read_u64();
        proof {
            let s = old(input)@;
            if s.len() >= 16 {
                let rest = s.subrange(8, s.len() as int);
                assert(rest.subrange(0, 8) =~= s.subrange(8, 16));
                assert(rest.subrange(8, rest.len() as int) =~= s.subrange(16, s.len() as int));
            }
        }
        Self { size, offset }
    }

    /// Sets the size.
    pub fn set_size(&mut self, v: u64)
        ensures
            final(self).size == Some(v),
            final(self).offset == old(self).offset,
    {
        self.size = Some(v)
    }

    /// Sets the offset.
    pub fn set_offset(&mut self, v: u64)
        ensures
            final(self).offset == Some(v),
            final(self).size == old(self).size,
    {
        self.offset = Some(v)
    }

    /// The offset, which must be set.
    pub fn offset(&self) -> (r: u64)
        requires
            self.offset is Some,
        ensures
            Some(r) == self.offset,
    {
        match self.offset {
            Some(v) => v,
            None => unreached(),
        }
    }

    /// The size, which must be set.
    pub fn size(&self) -> (r: u64)
        requires
            self.size is Some,
        ensures
            Some(r) == self.size,
    {
        match self.size {
            Some(v) => v,
            None => unreached(),
        }
    }

    /// The sixteen bytes of a handle whose fields are set.
    pub fn encode(&self) -> (r: Slice)
        requires
            self.is_set(),
        ensures
            r@ == self.bytes(),
            r@.len() == 16,
    {
        let mut slice = Slice::with_capacity(BLOCK_HANDLE_LENGTH);
        let size = self.size();
        slice.put_u64(size);
        proof {
            lemma_le_bytes_len(size as nat, 8);
            lemma_le_bytes_len(self.offset->0 as nat, 8);
        }
        let offset = self.offset();
        slice.put_u64(offset);
        slice
    }
}

/// The end of a table file: where its index block and its metaindex block lie.
#[derive(Debug, Clone, Copy, PartialEq, Eq, Structural)]
pub struct Footer {
    pub index_block_handle: BlockHandle,
    pub metaindex_block_handle: BlockHandle,
}

/// The eight bytes of the magic number.
pub open spec fn magic_bytes() -> Seq<u8> {
    le_bytes(i64_bits(TABLE_MAGIC_NUMBER), 8)
}

/// The forty bytes of a footer: the index handle, the metaindex handle, the
/// magic number.
pub open spec fn footer_bytes(footer: Footer) -> Seq<u8> {
    footer.index_block_handle.bytes() + footer.metaindex_block_handle.bytes() + magic_bytes()
}

/// What decoding `input` as a footer gives.
pub open spec fn footer_decoded(input: Seq<u8>) -> Result<Footer, TableError> {
    if input.len() != 40 {
        Err(TableError::BadFooterLength)
    } else if i64_at(input, 32) != TABLE_MAGIC_NUMBER {
        Err(TableError::BadMagic)
    } else {
        Ok(
            Footer {
                index_block_handle: BlockHandle {
                    size: Some(u64_at(input, 0)),
                    offset: Some(u64_at(input, 8)),
                },
                metaindex_block_handle: BlockHandle {
                    size: Some(u64_at(input, 16)),
                    offset: Some(u64_at(input, 24)),
                },
            },
        )
    }
}

/// Decoding the encoding of a footer gives the footer back.
pub proof fn lemma_footer_round_trip(footer: Footer)
    requires
        footer.index_block_handle.is_set(),
        footer.metaindex_block_handle.is_set(),
    ensures
        footer_bytes(footer).len() == 40,
        footer_decoded(footer_bytes(footer)) == Ok::<Footer, TableError>(footer),
{
    let s = footer_bytes(footer);
    let i = footer.index_block_handle;
    let m = footer.metaindex_block_handle;
    lemma_handle_round_trip(i.size->0, i.offset->0);
    lemma_handle_round_trip(m.size->0, m.offset->0);
    lemma_le_bytes_len(i64_bits(TABLE_MAGIC_NUMBER), 8);
    lemma_radix_values();
    lemma_le_value_of_bytes(i64_bits(TABLE_MAGIC_NUMBER), 8);
    assert(s.subrange(0, 8) =~= i.bytes().subrange(0, 8));
    assert(s.subrange(8, 16) =~= i.bytes().subrange(8, 16));
    assert(s.subrange(16, 24) =~= m.bytes().subrange(0, 8));
    assert(s.subrange(24, 32) =~= m.bytes().subrange(8, 16));
    assert(s.subrange(32, 40) =~= magic_bytes());
}

/// Forty bytes whose last eight are not those of the magic number are no
/// footer.
pub proof fn lemma_footer_needs_magic(input: Seq<u8>)
    requires
        input.len() == 40,
        input.subrange(32, 40) != magic_bytes(),
    ensures
        footer_decoded(input) == Err::<Footer, TableError>(TableError::BadMagic),
{
    let tail = input.subrange(32, 40);
    lemma_le_bytes_of_value(tail);
    lemma_le_value_bound(tail);
    lemma_radix_values();
}

impl Footer {
    /// The footer of a table with the given index and metaindex blocks.
    pub fn new(ibh: BlockHandle, mbh: BlockHandle) -> (r: Self)
        ensures
            r.index_block_handle == ibh,
            r.metaindex_block_handle == mbh,
    {
        Self { index_block_handle: ibh, metaindex_block_handle: mbh }
    }

    /// Reads a footer from exactly forty bytes that end in the magic number.
    pub fn decode(input: &[u8]) -> (r: Result<Self, TableError>)
        ensures
            r == footer_decoded(input@),
    {
        if input.len() != FOOTER_MAX_LENGTH {
            return Err(TableError::BadFooterLength);
        }
        let mut slice = Slice::from(input);
        let index_block_handle = BlockHandle::decode_from(&mut slice);
        let ghost mid = slice@;
        let metaindex_block_handle = BlockHandle::decode_from(&mut slice);
        proof {
            let s = input@;
            assert(mid.subrange(0, 8) =~= s.subrange(16, 24));
            assert(mid.subrange(8, 16) =~= s.subrange(24, 32));
            assert(slice@.subrange(0, 8) =~= s.subrange(32, 40));
        }
        if let Some(magic) = slice.read_i64() {
            if magic == TABLE_MAGIC_NUMBER {
                return Ok(Self { index_block_handle, metaindex_block_handle });
            }
        }
        Err(TableError::BadMagic)
    }

    /// The forty bytes of a footer whose handles are set.
    pub fn encode(&self) -> (r: Slice)
        requires
            self.index_block_handle.is_set(),
            self.metaindex_block_handle.is_set(),
        ensures
            r@ == footer_bytes(*self),
            r@.len() == 40,
    {
        let mut slice = Slice::with_capacity(FOOTER_MAX_LENGTH);
        slice.put(&self.index_block_handle.encode());
        slice.put(&self.metaindex_block_handle.encode());
        proof {
            lemma_le_bytes_len(i64_bits(TABLE_MAGIC_NUMBER), 8);
        }
        slice.put_i64(TABLE_MAGIC_NUMBER);
        slice
    }
}

/// The trailer of a block: the byte of the compression kind and the checksum
/// in four bytes, low byte first.
pub open spec fn trailer_bytes(kind: u8, checksum: u32) -> Seq<u8> {
    seq![kind] + le_bytes(checksum as nat, 4)
}

/// The block with its trailer as it stands in a file: the content, the byte of
/// the compression kind, and the checksum of both in four bytes.
pub open spec fn block_image(content: Seq<u8>, kind: u8) -> Seq<u8> {
    content + trailer_bytes(kind, crc32_ieee(content.push(kind)))
}

/// What a block's content is taken for, given its kind byte, the checksum
/// that its trailer holds and the checksum of what was read: the content,
/// where the two checksums agree and the kind is one that is implemented.
pub open spec fn block_accepted(content: Seq<u8>, kind: u8, stored: u32, computed: u32) -> Result<
    Seq<u8>,
    TableError,
> {
    if stored != computed {
        Err(TableError::ChecksumMismatch)
    } else if compression_of_byte(kind) is None {
        Err(TableError::UnsupportedCompression)
    } else {
        Ok(content)
    }
}

/// What reading the block of `size` bytes at `offset` from `data` gives: the
/// content, where the block with its trailer lies within `data`, the stored
/// checksum is that of the content and the kind byte, and the kind is one
/// that is implemented.
pub open spec fn block_read(data: Seq<u8>, size: u64, offset: u64) -> Result<Seq<u8>, TableError> {
    if offset + size + 5 > data.len() {
        Err(TableError::TruncatedBlock)
    } else {
        let content = data.subrange(offset as int, offset + size);
        let kind = data[offset + size];
        block_accepted(
            content,
            kind,
            u32_at(data, offset + size + 1),
            crc32_ieee(content.push(kind)),
        )
    }
}

/// The five bytes of a block's trailer.
pub fn encode_trailer(kind: Compression, checksum: u32) -> (r: Slice)
    ensures
        r@ == trailer_bytes(kind.byte(), checksum),
        r@.len() == 5,
{
    let mut trailer = Slice::with_capacity(TRAILER_SIZE);
    trailer.put_u8(kind.as_u8());
    proof {
        lemma_le_bytes_len(checksum as nat, 4);
    }
    trailer.put_u32(checksum);
    trailer
}

/// Takes `content` for a block if the checksum `stored` in its trailer is the
/// checksum `computed` of what was read, and its kind is one that is
/// implemented.
pub fn accept_block(content: Slice, kind: u8, stored: u32, computed: u32) -> (r: Result<
    Block,
    TableError,
>)
    ensures
        match r {
            Ok(block) => block_accepted(content@, kind, stored, computed) == Ok::<
                Seq<u8>,
                TableError,
            >(block@),
            Err(e) => block_accepted(content@, kind, stored, computed) == Err::<
                Seq<u8>,
                TableError,
            >(e),
        },
{
    if stored != computed {
        return Err(TableError::ChecksumMismatch);
    }
    match Compression::from(kind) {
        Some(Compression::No) => Ok(Block::new(content)),
        None => Err(TableError::UnsupportedCompression),
    }
}

/// A block that stands in `data` as it was written reads back as its content.
pub proof fn lemma_block_reads_back(data: Seq<u8>, content: Seq<u8>, offset: u64)
    requires
        content.len() <= u64::MAX,
        offset + content.len() + 5 <= data.len(),
        data.subrange(offset as int, offset + content.len() + 5) == block_image(content, 0),
    ensures
        block_read(data, content.len() as u64, offset) == Ok::<Seq<u8>, TableError>(content),
{
    let size = content.len() as int;
    let image = block_image(content, 0);
    let crc = crc32_ieee(content.push(0));
    lemma_le_bytes_len(crc as nat, 4);
    lemma_radix_values();
    lemma_le_value_of_bytes(crc as nat, 4);
    assert(data.subrange(offset as int, offset + size) =~= image.subrange(0, size));
    assert(image.subrange(0, size) =~= content);
    assert(data[offset + size] == image[size]);
    assert(data.subrange(offset + size + 1, offset + size + 1 + 4) =~= image.subrange(
        size + 1,
        size + 5,
    ));
    assert(image.subrange(size + 1, size + 5) =~= le_bytes(crc as nat, 4));
}

/// A block whose content was altered after it was written, trailer untouched,
/// reads back as a checksum failure, provided that the checksum tells the
/// altered content from the content as it was written.
pub proof fn lemma_altered_block_is_reported(
    data: Seq<u8>,
    content: Seq<u8>,
    altered: Seq<u8>,
    offset: u64,
)
    requires
        content.len() <= u64::MAX,
        altered.len() == content.len(),
        offset + content.len() + 5 <= data.len(),
        data.subrange(offset as int, offset + content.len() + 5) == altered + trailer_bytes(
            0,
            crc32_ieee(content.push(0)),
        ),
        crc32_ieee(altered.push(0)) != crc32_ieee(content.push(0)),
    ensures
        block_read(data, content.len() as u64, offset) == Err::<Seq<u8>, TableError>(
            TableError::ChecksumMismatch,
        ),
{
    let size = content.len() as int;
    let crc = crc32_ieee(content.push(0));
    let image = altered + trailer_bytes(0, crc);
    lemma_le_bytes_len(crc as nat, 4);
    lemma_radix_values();
    lemma_le_value_of_bytes(crc as nat, 4);
    assert(data.subrange(offset as int, offset + size) =~= image.subrange(0, size));
    assert(image.subrange(0, size) =~= altered);
    assert(data[offset + size] == image[size]);
    assert(data.subrange(offset + size + 1, offset + size + 1 + 4) =~= image.subrange(
        size + 1,
        size + 5,
    ));
    assert(image.subrange(size + 1, size + 5) =~= le_bytes(crc as nat, 4));
}

/// What is read from a block does not change when bytes are added behind it.
pub proof fn lemma_block_read_ignores_what_follows(
    data: Seq<u8>,
    more: Seq<u8>,
    size: u64,
    offset: u64,
)
    requires
        offset + size + 5 <= data.len(),
    ensures
        block_read(data + more, size, offset) == block_read(data, size, offset),
{
    let longer = data + more;
    assert(longer.subrange(offset as int, offset + size) =~= data.subrange(
        offset as int,
        offset + size,
    ));
    assert(longer.subrange(offset + size + 1, offset + size + 1 + 4) =~= data.subrange(
        offset + size + 1,
        offset + size + 1 + 4,
    ));
}

/// Reads the block that `block_handle` points to out of the bytes of a table
/// file, and checks it against its trailer.
pub fn read_block(data: &[u8], block_handle: &BlockHandle) -> (r: Result<Block, TableError>)
    requires
        block_handle.is_set(),
    ensures
        match r {
            Ok(block) => block_read(data@, block_handle.size->0, block_handle.offset->0) == Ok::<
                Seq<u8>,
                TableError,
            >(block@),
            Err(e) => block_read(data@, block_handle.size->0, block_handle.offset->0) == Err::<
                Seq<u8>,
                TableError,
            >(e),
        },
{
    let offset = block_handle.offset();
    let size = block_handle.size();
    let len = data.len() as u64;
    if offset > len || size > len - offset || len - offset - size < TRAILER_SIZE as u64 {
        return Err(TableError::TruncatedBlock);
    }
    let start = offset as usize;
    let block_size = size as usize;
    let buff = slice_subrange(data, start, start + block_size + TRAILER_SIZE);
    let mut slice = Slice::from(buff);
    let content = slice.split_off(block_size);
    let kind = match slice.read_u8() {
        Some(v) => v,
        None => unreached(),
    };
    let stored = match slice.read_u32() {
        Some(v) => v,
        None => unreached(),
    };
    proof {
        let d = data@;
        assert(content@ =~= d.subrange(offset as int, offset + size));
        assert(buff@.subrange(size as int, buff@.len() as int).subrange(
            1,
            5,
        ).subrange(0, 4) =~= d.subrange(offset + size + 1, offset + size + 1 + 4));
    }
    let computed = block_checksum(content.as_slice(), kind);
    accept_block(Slice::from(content.as_slice()), kind, stored, computed)
}

} // verus!
