use lsm_table::ikey::{InternalKey, KeyKind};
use lsm_table::slice::Slice;
use lsm_table::table::block::Block;
use lsm_table::table::block_builder::BlockBuilder;
use lsm_table::table::bulid;
use lsm_table::table::format::{read_block, BlockHandle, Footer, FOOTER_MAX_LENGTH};
use lsm_table::table::table_builder::{TableBuilder, TableWriter, DEFAULT_BLOCK_SIZE};
use lsm_table::table::TableError;
use lsm_table::version::FileMetaDataBuilder;

fn crc32(data: &[u8]) -> u32 {
    let mut crc = 0xffff_ffff_u32;
    for byte in data {
        crc ^= *byte as u32;
        for _ in 0..8 {
            crc = if crc & 1 == 1 { (crc >> 1) ^ 0xedb8_8320 } else { crc >> 1 };
        }
    }
    !crc
}

fn entry(key: &[u8], value: &[u8]) -> Vec<u8> {
    let mut bytes = (key.len() as u64).to_le_bytes().to_vec();
    bytes.extend_from_slice(&(value.len() as u64).to_le_bytes());
    bytes.extend_from_slice(key);
    bytes.extend_from_slice(value);
    bytes
}

fn with_trailer(content: &[u8]) -> Vec<u8> {
    let mut bytes = content.to_vec();
    bytes.push(0);
    let crc = crc32(&bytes);
    bytes.extend_from_slice(&crc.to_le_bytes());
    bytes
}

fn handle(size: u64, offset: u64) -> Vec<u8> {
    let mut bytes = size.to_le_bytes().to_vec();
    bytes.extend_from_slice(&offset.to_le_bytes());
    bytes
}

const MAGIC: [u8; 8] = [0x57, 0xfb, 0x80, 0x8b, 0x24, 0x75, 0x47, 0xdb];

fn build_all(entries: &[(&[u8], &[u8])], block_size: usize) -> Vec<u8> {
    let mut builder = TableBuilder::with_block_size(TableWriter::new(), block_size);
    for (key, value) in entries {
        builder.add(&Slice::from(key), &Slice::from(value));
    }
    let mut writer = builder.build();
    let bytes = writer.take();
    assert_eq!(writer.offset(), bytes.len() as u64);
    bytes
}

#[test]
fn block_builder_lays_entries_end_to_end() {
    let mut block = BlockBuilder::new();
    assert!(block.empty());
    assert_eq!(block.estimated_current_size(), 0);
    block.add(&Slice::from(b"k1"), &Slice::from(b"value"));
    assert!(!block.empty());
    assert_eq!(block.estimated_current_size(), 16 + 2 + 5);
    block.add(&Slice::from(b""), &Slice::from(b""));
    assert_eq!(block.estimated_current_size(), 16 + 2 + 5 + 16);
    let content = block.build();
    let mut expected = entry(b"k1", b"value");
    expected.extend_from_slice(&entry(b"", b""));
    assert_eq!(content.as_ref(), &expected[..]);
    assert!(block.empty());
    assert_eq!(block.build().len(), 0);
}

#[test]
fn table_writer_counts_and_hands_out() {
    let mut writer = TableWriter::new();
    assert_eq!(writer.offset(), 0);
    assert_eq!(writer.write(b"abc"), 3);
    assert_eq!(writer.write(b""), 0);
    assert_eq!(writer.offset(), 3);
    assert_eq!(writer.take(), b"abc".to_vec());
    assert_eq!(writer.take(), Vec::<u8>::new());
    assert_eq!(writer.write(b"de"), 2);
    assert_eq!(writer.offset(), 5);
    assert_eq!(writer.take(), b"de".to_vec());
}

#[test]
fn empty_table_is_two_empty_blocks_and_a_footer() {
    let bytes = build_all(&[], DEFAULT_BLOCK_SIZE);
    let mut expected = with_trailer(b"");
    expected.extend_from_slice(&with_trailer(b""));
    expected.extend_from_slice(&handle(0, 5));
    expected.extend_from_slice(&handle(0, 0));
    expected.extend_from_slice(&MAGIC);
    assert_eq!(bytes, expected);
    // the trailer of an empty block: kind 0 and the CRC-32 of one zero byte
    assert_eq!(&bytes[..5], &[0u8, 0x8d, 0xef, 0x02, 0xd2][..]);
}

#[test]
fn one_block_table_layout() {
    let bytes = build_all(&[(b"apple", b"1"), (b"banana", b"22")], DEFAULT_BLOCK_SIZE);

    let mut data = entry(b"apple", b"1");
    data.extend_from_slice(&entry(b"banana", b"22"));
    let mut expected = with_trailer(&data);
    let meta_offset = expected.len() as u64;
    expected.extend_from_slice(&with_trailer(b""));
    // at the end the separator is the short successor of the last key
    let index = entry(b"c", &handle(data.len() as u64, 0));
    let index_offset = expected.len() as u64;
    expected.extend_from_slice(&with_trailer(&index));
    expected.extend_from_slice(&handle(index.len() as u64, index_offset));
    expected.extend_from_slice(&handle(0, meta_offset));
    expected.extend_from_slice(&MAGIC);
    assert_eq!(bytes, expected);
}

#[test]
fn full_blocks_are_flushed_and_indexed_by_the_next_key() {
    // every entry fills a block of 20 bytes
    let bytes = build_all(&[(b"apple", b"1"), (b"banana", b"22"), (b"cherry", b"")], 20);

    let first = entry(b"apple", b"1");
    let second = entry(b"banana", b"22");
    let third = entry(b"cherry", b"");
    let mut expected = with_trailer(&first);
    let second_offset = expected.len() as u64;
    expected.extend_from_slice(&with_trailer(&second));
    let third_offset = expected.len() as u64;
    expected.extend_from_slice(&with_trailer(&third));
    let meta_offset = expected.len() as u64;
    expected.extend_from_slice(&with_trailer(b""));
    let mut index = entry(b"c", &handle(first.len() as u64, 0));
    index.extend_from_slice(&entry(b"d", &handle(second.len() as u64, second_offset)));
    index.extend_from_slice(&entry(b"d", &handle(third.len() as u64, third_offset)));
    let index_offset = expected.len() as u64;
    expected.extend_from_slice(&with_trailer(&index));
    expected.extend_from_slice(&handle(index.len() as u64, index_offset));
    expected.extend_from_slice(&handle(0, meta_offset));
    expected.extend_from_slice(&MAGIC);
    assert_eq!(bytes, expected);
}

#[test]
fn a_full_block_is_written_once_and_only_the_end_holds_a_footer() {
    let mut builder = TableBuilder::with_block_size(TableWriter::new(), 20);
    builder.add(&Slice::from(b"apple"), &Slice::from(b"1"));
    let first = with_trailer(&entry(b"apple", b"1"));
    assert_eq!(builder.size(), first.len());
    assert_eq!(builder.take_output(), first);
    assert_eq!(builder.take_output(), Vec::<u8>::new());
    builder.add(&Slice::from(b"banana"), &Slice::from(b"22"));
    let second = builder.take_output();
    assert_eq!(second, with_trailer(&entry(b"banana", b"22")));
    assert_eq!(builder.size(), first.len() + second.len());
    let mut writer = builder.build();
    let rest = writer.take();
    let mut whole = first.clone();
    whole.extend_from_slice(&second);
    whole.extend_from_slice(&rest);
    assert_eq!(whole, build_all(&[(b"apple", b"1"), (b"banana", b"22")], 20));
    assert_eq!(writer.offset(), whole.len() as u64);
}

#[test]
fn flush_writes_the_block_early() {
    let mut builder = TableBuilder::new(TableWriter::new());
    builder.flush();
    assert_eq!(builder.size(), 0);
    builder.add(&Slice::from(b"apple"), &Slice::from(b"1"));
    assert_eq!(builder.size(), 0);
    builder.flush();
    let block = with_trailer(&entry(b"apple", b"1"));
    assert_eq!(builder.size(), block.len());
    builder.flush();
    assert_eq!(builder.size(), block.len());
    assert_eq!(builder.take_output(), block);
}

#[test]
fn building_twice_gives_the_same_bytes() {
    let entries: [(&[u8], &[u8]); 4] =
        [(b"a", b"one"), (b"b", b"two"), (b"c", b"three"), (b"d", b"")];
    for block_size in [0, 1, 20, 40, DEFAULT_BLOCK_SIZE] {
        let first = build_all(&entries, block_size);
        let second = build_all(&entries, block_size);
        assert_eq!(first, second);
    }
    assert_ne!(build_all(&entries, 20), build_all(&entries, DEFAULT_BLOCK_SIZE));
}

#[test]
fn written_blocks_read_back() {
    let bytes = build_all(&[(b"apple", b"1"), (b"banana", b"22")], 20);
    let first = entry(b"apple", b"1");
    let second = entry(b"banana", b"22");
    let block = read_block(&bytes, &BlockHandle::from(first.len() as u64, 0)).unwrap();
    assert_eq!(block.as_ref(), &first[..]);
    let block = read_block(
        &bytes,
        &BlockHandle::from(second.len() as u64, first.len() as u64 + 5),
    )
    .unwrap();
    assert_eq!(block.as_ref(), &second[..]);

    let footer = Footer::decode(&bytes[bytes.len() - FOOTER_MAX_LENGTH..]).unwrap();
    let meta = read_block(&bytes, &footer.metaindex_block_handle).unwrap();
    assert_eq!(meta.len(), 0);
    let index = read_block(&bytes, &footer.index_block_handle).unwrap();
    let mut expected = entry(b"c", &handle(first.len() as u64, 0));
    expected.extend_from_slice(&entry(
        b"c",
        &handle(second.len() as u64, first.len() as u64 + 5),
    ));
    assert_eq!(index.as_ref(), &expected[..]);
}

#[test]
fn a_flipped_bit_in_a_written_block_is_reported() {
    let bytes = build_all(&[(b"apple", b"1"), (b"banana", b"22")], DEFAULT_BLOCK_SIZE);
    let size = (entry(b"apple", b"1").len() + entry(b"banana", b"22").len()) as u64;
    let handle = BlockHandle::from(size, 0);
    assert!(read_block(&bytes, &handle).is_ok());
    for position in 0..size as usize {
        for bit in 0..8 {
            let mut corrupt = bytes.clone();
            corrupt[position] ^= 1 << bit;
            assert_eq!(read_block(&corrupt, &handle).err(), Some(TableError::ChecksumMismatch));
        }
    }
}

#[test]
fn end_to_end() {
    let entries = vec![
        (InternalKey::new(b"a", 2).inner(), Slice::from(b"v1")),
        (InternalKey::new(b"b", 3).inner(), Slice::from(b"v2")),
        (InternalKey::new_delete_key(b"b", 4).inner(), Slice::from(b"")),
    ];
    let built = bulid("testdb", &entries, 7).unwrap();
    assert_eq!(built.meta.file_num, 7);
    assert_eq!(built.meta.smallest, InternalKey::new_with_kind(b"a", 2, KeyKind::Value));
    assert_eq!(built.meta.largest, InternalKey::new_with_kind(b"b", 4, KeyKind::Delete));
    assert_eq!(built.meta.file_size, built.bytes.len() as u64);
    assert_eq!(built.file_name, "testdb/0000007.ldb");

    let footer = Footer::decode(&built.bytes[built.bytes.len() - FOOTER_MAX_LENGTH..]).unwrap();
    assert_eq!(
        &built.bytes[built.bytes.len() - 8..],
        &[0x57, 0xfb, 0x80, 0x8b, 0x24, 0x75, 0x47, 0xdb][..]
    );
    let index = read_block(&built.bytes, &footer.index_block_handle).unwrap();
    let mut index_bytes = Slice::from(index.as_ref());
    assert_eq!(index_bytes.read_u64(), Some(1));
    assert_eq!(index_bytes.read_u64(), Some(16));
    // the separator: the short successor of the last key's bytes
    assert_eq!(index_bytes.read(1), Some(vec![10]));
    let data_handle = BlockHandle::decode_from(&mut index_bytes);
    assert_eq!(data_handle.offset, Some(0));
    let data = read_block(&built.bytes, &data_handle).unwrap();
    let mut expected = Vec::new();
    for (key, value) in &entries {
        expected.extend_from_slice(&entry(key.as_ref(), value.as_ref()));
    }
    assert_eq!(data.as_ref(), &expected[..]);

    let same: Vec<(&[u8], &[u8])> =
        entries.iter().map(|(key, value)| (key.as_ref(), value.as_ref())).collect();
    assert_eq!(built.bytes, build_all(&same, DEFAULT_BLOCK_SIZE));
}

#[test]
fn no_entries_no_table() {
    assert_eq!(bulid("testdb", &Vec::new(), 1).err(), Some(TableError::IncompleteMetaData));
}

#[test]
fn metadata_needs_every_field() {
    let mut builder = FileMetaDataBuilder::new();
    builder.file_num(3);
    builder.smallest(InternalKey::new(b"a", 1));
    builder.file_size(10);
    assert_eq!(builder.build().err(), Some(TableError::IncompleteMetaData));

    let mut builder = FileMetaDataBuilder::new();
    builder.file_num(3);
    builder.smallest(InternalKey::new(b"a", 1));
    builder.largest(InternalKey::new(b"b", 2));
    builder.file_size(10);
    let meta = builder.build().unwrap();
    assert_eq!(meta.file_num, 3);
    assert_eq!(meta.smallest, InternalKey::new(b"a", 1));
    assert_eq!(meta.largest, InternalKey::new(b"b", 2));
    assert_eq!(meta.file_size, 10);
}

#[test]
fn entries_of_a_block_come_back_in_order() {
    let mut builder = BlockBuilder::new();
    builder.add(&Slice::from(b"k1"), &Slice::from(b"value"));
    builder.add(&Slice::from(b""), &Slice::from(b""));
    builder.add(&Slice::from(b"k3"), &Slice::from(b""));
    let block = Block::new(builder.build());
    let entries = block.entries().unwrap();
    assert_eq!(entries.len(), 3);
    assert_eq!(entries[0], (Slice::from(b"k1"), Slice::from(b"value")));
    assert_eq!(entries[1], (Slice::new(), Slice::new()));
    assert_eq!(entries[2], (Slice::from(b"k3"), Slice::new()));
    assert_eq!(Block::new(Slice::new()).entries(), Some(vec![]));
}

#[test]
fn a_block_that_ends_inside_an_entry_has_no_entries() {
    let whole = entry(b"key", b"value");
    for cut in 1..whole.len() {
        assert_eq!(Block::new(Slice::from(&whole[..cut])).entries(), None);
    }
    let mut two = whole.clone();
    two.extend_from_slice(&whole[..20]);
    assert_eq!(Block::new(Slice::from(&two)).entries(), None);
    // lengths that reach past any buffer
    let mut huge = vec![0xffu8; 16];
    huge.extend_from_slice(b"abc");
    assert_eq!(Block::new(Slice::from(&huge)).entries(), None);
}

#[test]
fn index_entries_lead_to_the_data_blocks() {
    let source: [(&[u8], &[u8]); 3] = [(b"apple", b"1"), (b"banana", b"22"), (b"cherry", b"")];
    let bytes = build_all(&source, 20);
    let footer = Footer::decode(&bytes[bytes.len() - FOOTER_MAX_LENGTH..]).unwrap();
    let index = read_block(&bytes, &footer.index_block_handle).unwrap();
    let index_entries = index.entries().unwrap();
    assert_eq!(index_entries.len(), 3);
    for (i, (_, value)) in index_entries.iter().enumerate() {
        let handle = BlockHandle::decode_from(&mut value.clone());
        let data = read_block(&bytes, &handle).unwrap().entries().unwrap();
        assert_eq!(data, vec![(Slice::from(source[i].0), Slice::from(source[i].1))]);
    }
}
