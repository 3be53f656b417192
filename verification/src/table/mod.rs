//! The table file: blocks with checksum trailers, an index over them, and a
//! footer that anchors the file.

pub mod block;
pub mod block_builder;
pub mod format;
pub mod table_builder;
pub mod table_cache;

use self::block::pairs_view;
use self::table_builder::{
    lemma_add_all_grows, lemma_add_all_prefix, lemma_add_all_step, lemma_finish_grows,
    table_image, TableBuilder, TableModel, TableWriter, DEFAULT_BLOCK_SIZE,
};
use crate::filename::{table_path, FileType};
use crate::ikey::InternalKey;
use crate::slice::Slice;
use crate::version::{FileMetaData, FileMetaDataBuilder};
use vstd::prelude::*;

verus! {

/// What can be wrong with the bytes of a table, or with a request to build one.
#[derive(Debug, Clone, Copy, PartialEq, Eq, Structural)]
pub enum TableError {
    /// The footer is not of the fixed footer length.
    BadFooterLength,
    /// The footer does not end in the magic number.
    BadMagic,
    /// A block handle points past the end of the bytes.
    TruncatedBlock,
    /// A block's stored checksum is not the checksum of its bytes.
    ChecksumMismatch,
    /// A block's compression kind is none that is implemented.
    UnsupportedCompression,
    /// The metadata of a table lacks a field: a table of no entries has no
    /// smallest key.
    IncompleteMetaData,
    /// The bytes of the table cannot be counted in a `usize`.
    TooLarge,
}

/// How a block's content is compressed.
#[derive(Debug, Clone, Copy, PartialEq, Eq, Structural)]
pub enum Compression {
    No,
}

/// The compression kind that a byte stands for, if any.
pub open spec fn compression_of_byte(v: u8) -> Option<Compression> {
    if v == 0 {
        Some(Compression::No)
    } else {
        None
    }
}

impl Compression {
    /// The compression kind that a byte stands for; `None` for a byte that
    /// stands for none.
    pub fn from(v: u8) -> (r: Option<Compression>)
        ensures
            r == compression_of_byte(v),
    {
        match v {
            0 => Some(Compression::No),
            _ => None,
        }
    }

    /// The byte that stands for this kind.
    pub open spec fn byte(&self) -> u8 {
        0
    }

    /// The byte that stands for this kind.
    pub fn as_u8(&self) -> (r: u8)
        ensures
            r == self.byte(),
            compression_of_byte(r) == Some(*self),
    {
        match self {
            Compression::No => 0,
        }
    }
}

/// A table that was built: what the catalogue records of it, the path of
/// its file, and the bytes of the file.
#[derive(Debug)]
pub struct BuiltTable {
    pub meta: FileMetaData,
    pub file_name: String,
    pub bytes: Vec<u8>,
}

/// Builds the table file number `num` of the database `dbname` from entries
/// that come in the order of their internal keys. The first key is recorded
/// as the smallest and the last one as the largest. From no entries no table
/// is built, nor where the file's bytes could not be counted in a `usize`.
pub fn bulid(dbname: &str, entries: &Vec<(Slice, Slice)>, num: u64) -> (r: Result<
    BuiltTable,
    TableError,
>)
    ensures
        match r {
            Ok(built) => {
                &&& entries@.len() > 0
                &&& built.bytes@ == table_image(pairs_view(entries@), DEFAULT_BLOCK_SIZE as nat)
                &&& built.file_name@ == table_path(dbname@, num)
                &&& built.meta.file_num == num
                &&& built.meta.smallest@ == entries@[0].0@
                &&& built.meta.largest@ == entries@[entries@.len() - 1].0@
                &&& built.meta.file_size == built.bytes@.len()
            },
            Err(e) => if table_image(pairs_view(entries@), DEFAULT_BLOCK_SIZE as nat).len()
                > usize::MAX {
                e == TableError::TooLarge
            } else {
                e == TableError::IncompleteMetaData && entries@.len() == 0
            },
        },
{
    let mut meta_builder = FileMetaDataBuilder::new();
    meta_builder.file_num(num);

    let fname = FileType::Table(dbname, num).filename();
    let mut builder = TableBuilder::new(TableWriter::new());
    let mut largest = Slice::new();
    let ghost all = pairs_view(entries@);
    let ghost start = TableModel::start(Seq::empty(), DEFAULT_BLOCK_SIZE as nat);

    let mut i: usize = 0;
    while i < entries.len()
        invariant
            i <= entries@.len(),
            all == pairs_view(entries@),
            start == TableModel::start(Seq::empty(), DEFAULT_BLOCK_SIZE as nat),
            builder.wf(),
            builder@ == start.add_all(all.take(i as int)),
            builder.output() == builder@.written,
            meta_builder.file_num == Some(num),
            meta_builder.file_size is None,
            meta_builder.largest is None,
            i == 0 ==> meta_builder.smallest is None,
            i > 0 ==> meta_builder.smallest is Some && meta_builder.smallest->0@
                == entries@[0].0@ && largest@ == entries@[i - 1].0@,
        decreases entries@.len() - i,
    {
        let entry = &entries[i];
        if i == 0 {
            meta_builder.smallest(InternalKey::from(entry.0.clone()));
        }
        largest = entry.0.clone();
        proof {
            lemma_add_all_step(start, all, i as int);
            lemma_add_all_prefix(start, all, i + 1);
            lemma_add_all_grows(start, all);
            lemma_finish_grows(start.add_all(all));
        }
        if !builder.can_add(&entry.0, &entry.1) {
            return Err(TableError::TooLarge);
        }
        builder.add(&entry.0, &entry.1);
        i += 1;
    }

    meta_builder.largest(InternalKey::from(largest));
    proof {
        assert(all.take(i as int) =~= all);
    }
    if !builder.can_build() {
        return Err(TableError::TooLarge);
    }
    let mut writer = builder.build();

    meta_builder.file_size(writer.offset());
    let bytes = writer.take();
    match meta_builder.build() {
        Ok(meta) => Ok(BuiltTable { meta, file_name: fname, bytes }),
        Err(e) => Err(e),
    }
}

} // verus!
