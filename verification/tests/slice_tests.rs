use bytes::Bytes;
use lsm_table::slice::{short_successor, shortest_separator, Slice};

#[test]
fn read_and_write_slice_test() {
    let mut slice = Slice::with_capacity(100);
    slice.put_u8(1);
    assert_eq!(slice.len(), 1);
    slice.put_u16(2);
    assert_eq!(slice.len(), 1 + 2);

    slice.put_u32(3);
    assert_eq!(slice.len(), 1 + 2 + 4);
    slice.put_u64(4);
    assert_eq!(slice.len(), 1 + 2 + 4 + 8);

    assert_eq!(slice.read_u8(), Some(1));
    assert_eq!(slice.len(), 2 + 4 + 8);
    assert_eq!(slice.read_u16(), Some(2));
    assert_eq!(slice.len(), 4 + 8);
    assert_eq!(slice.read_u32(), Some(3));
    assert_eq!(slice.len(), 8);
    assert_eq!(slice.read_u64(), Some(4));
    assert_eq!(slice.len(), 0);
}

#[test]
fn slice_ord_test() {
    let slice = Slice::from(b"bbb");
    let slice2 = Slice::from(b"bba");
    let slice3 = Slice::from(b"baa");

    assert!(slice == slice);
    assert!(slice > slice2);
    assert!(slice3 < slice2);

    assert!(&slice > "bba");
    assert!(&slice > "baa");
    assert!(&slice > "baa");

    assert!(slice > b"bba".to_vec());
    assert!(slice > b"baa".to_vec());
    assert!(slice > b"baa".to_vec());
}

#[test]
fn slice_order_is_lexicographic() {
    let empty = Slice::new();
    let a = Slice::from(b"a");
    let ab = Slice::from(b"ab");
    let b = Slice::from(b"b");
    assert!(empty < a);
    assert!(a < ab);
    assert!(ab < b);
    assert!(a < b);
    assert!(!(b < ab));
    assert!(ab != a);
    assert!(ab == Slice::from(b"ab"));
    assert!(Slice::from(&[0xffu8][..]) > Slice::from(&[0x7fu8, 0xff][..]));
}

#[test]
fn slice_compares_with_plain_bytes_both_ways() {
    let slice = Slice::from(b"bbb");
    assert!(slice == *"bbb");
    assert!(slice == b"bbb".to_vec());
    assert!(slice == b"bbb"[..]);
    assert!(*"bba" < slice);
    assert!(b"bbc".to_vec() > slice);
    assert!(b"bb"[..] < slice);
    assert!(*"bbb" == slice);
}

#[test]
fn put_writes_little_endian() {
    let mut slice = Slice::new();
    assert_eq!(slice.put_u8(0xab), 1);
    assert_eq!(slice.put_u16(0x0102), 2);
    assert_eq!(slice.put_u32(0x03040506), 4);
    assert_eq!(slice.put_u64(0x0708090a0b0c0d0e), 8);
    assert_eq!(
        slice.as_ref(),
        &[0xab, 0x02, 0x01, 0x06, 0x05, 0x04, 0x03, 0x0e, 0x0d, 0x0c, 0x0b, 0x0a, 0x09, 0x08, 0x07][..]
    );
}

#[test]
fn put_i64_writes_twos_complement_and_counts_eight_bytes() {
    let mut slice = Slice::new();
    assert_eq!(slice.put_i64(-2), 8);
    assert_eq!(slice.as_ref(), &[0xfe, 0xff, 0xff, 0xff, 0xff, 0xff, 0xff, 0xff][..]);
    assert_eq!(slice.read_i64(), Some(-2));
    assert_eq!(slice.len(), 0);

    let mut slice = Slice::new();
    slice.put_i64(i64::MIN);
    slice.put_i64(i64::MAX);
    slice.put_i64(1);
    assert_eq!(slice.read_i64(), Some(i64::MIN));
    assert_eq!(slice.read_i64(), Some(i64::MAX));
    assert_eq!(slice.read_i64(), Some(1));
    assert_eq!(slice.read_i64(), None);
}

#[test]
fn put_str_and_slices_append_in_order() {
    let mut slice = Slice::from(b"ab");
    assert_eq!(slice.put_str("cd\u{e9}"), 4);
    assert_eq!(slice.put_slice(b"ef"), 2);
    let other = Slice::from(b"gh");
    assert_eq!(slice.put(&other), 2);
    assert_eq!(slice.put(&Slice::new()), 0);
    assert_eq!(slice.as_ref(), &b"abcd\xc3\xa9efgh"[..]);
    assert_eq!(other.as_ref(), &b"gh"[..]);
}

#[test]
fn get_reads_at_an_offset_and_stops_at_the_end() {
    let slice = Slice::from(&[1u8, 2, 3, 4, 5, 6, 7, 8, 9][..]);
    assert_eq!(slice.get_u8(0), Some(1));
    assert_eq!(slice.get_u8(8), Some(9));
    assert_eq!(slice.get_u8(9), None);
    assert_eq!(slice.get_u16(0), Some(0x0201));
    assert_eq!(slice.get_u16(7), Some(0x0908));
    assert_eq!(slice.get_u16(8), None);
    assert_eq!(slice.get_u32(5), Some(0x09080706));
    assert_eq!(slice.get_u32(6), None);
    assert_eq!(slice.get_u64(1), Some(0x0908070605040302));
    assert_eq!(slice.get_u64(2), None);
    assert_eq!(slice.get_u64(usize::MAX), None);
    assert_eq!(slice.get_u16(usize::MAX), None);
    assert_eq!(slice.len(), 9);
}

#[test]
fn read_leaves_a_short_buffer_alone() {
    let mut slice = Slice::from(&[1u8, 2, 3][..]);
    assert_eq!(slice.read_u32(), None);
    assert_eq!(slice.read_u64(), None);
    assert_eq!(slice.read_i64(), None);
    assert_eq!(slice.read(4), None);
    assert_eq!(slice.len(), 3);
    assert_eq!(slice.read(2), Some(vec![1, 2]));
    assert_eq!(slice.read_u16(), None);
    assert_eq!(slice.read_u8(), Some(3));
    assert_eq!(slice.read_u8(), None);
    assert_eq!(slice.read(0), Some(vec![]));
}

#[test]
fn split_off_takes_the_front() {
    let mut slice = Slice::from(b"hello world");
    let head = slice.split_off(6);
    assert_eq!(head, b"hello ".to_vec());
    assert_eq!(slice.as_ref(), &b"world"[..]);
    let all = slice.split_off(5);
    assert_eq!(all, b"world".to_vec());
    assert_eq!(slice.len(), 0);
}

#[test]
fn resize_cuts_or_pads_with_zeros() {
    let mut slice = Slice::from(b"abc");
    slice.resize(5);
    assert_eq!(slice.as_ref(), &b"abc\0\0"[..]);
    slice.resize(2);
    assert_eq!(slice.as_ref(), &b"ab"[..]);
    slice.resize(0);
    assert_eq!(slice.len(), 0);
}

#[test]
fn clone_is_a_copy() {
    let slice = Slice::from(b"abc");
    let mut copy = slice.clone();
    copy.put_u8(b'd');
    assert_eq!(slice.as_ref(), &b"abc"[..]);
    assert_eq!(copy.as_ref(), &b"abcd"[..]);
}

#[test]
fn short_successor_bumps_and_cuts() {
    let mut s = Slice::from(b"abc");
    short_successor(&mut s);
    assert_eq!(s.as_ref(), &b"b"[..]);

    let mut s = Slice::from(&[0xffu8, 0xff, 0x01, 0x02][..]);
    short_successor(&mut s);
    assert_eq!(s.as_ref(), &[0xffu8, 0xff, 0x02][..]);

    let mut s = Slice::from(&[0xffu8, 0xfe][..]);
    short_successor(&mut s);
    assert_eq!(s.as_ref(), &[0xffu8, 0xff][..]);
}

#[test]
fn short_successor_leaves_all_max_and_empty_alone() {
    let mut s = Slice::from(&[0xffu8, 0xff][..]);
    short_successor(&mut s);
    assert_eq!(s.as_ref(), &[0xffu8, 0xff][..]);

    let mut s = Slice::new();
    short_successor(&mut s);
    assert_eq!(s.len(), 0);
}

#[test]
fn short_successor_comes_after_its_input() {
    for input in [&b"a"[..], &b"hello"[..], &[0u8][..], &[0xffu8, 0x00, 0xff][..], &[0xfeu8][..]] {
        let before = Slice::from(input);
        let mut after = before.clone();
        short_successor(&mut after);
        assert!(after > before);
        assert!(after.len() <= before.len());
    }
}

#[test]
fn shortest_separator_bumps_the_first_byte_that_differs() {
    let mut key = Slice::from(b"abcd");
    shortest_separator(&mut key, &Slice::from(b"abzz"));
    assert_eq!(key.as_ref(), &b"abdd"[..]);

    let mut key = Slice::from(b"abcd");
    shortest_separator(&mut key, &Slice::from(b"abcd"));
    assert_eq!(key.as_ref(), &b"abcd"[..]);

    let mut key = Slice::from(b"abcd");
    shortest_separator(&mut key, &Slice::from(b"ab"));
    assert_eq!(key.as_ref(), &b"abcd"[..]);

    let mut key = Slice::from(b"ab");
    shortest_separator(&mut key, &Slice::new());
    assert_eq!(key.as_ref(), &b"ab"[..]);
}

#[test]
fn shortest_separator_passes_over_a_max_byte() {
    let mut key = Slice::from(&[1u8, 0xff, 3, 4][..]);
    shortest_separator(&mut key, &Slice::from(&[1u8, 2, 9, 4][..]));
    assert_eq!(key.as_ref(), &[1u8, 0xff, 4, 4][..]);

    let mut key = Slice::from(&[0xffu8, 0xff][..]);
    shortest_separator(&mut key, &Slice::from(&[0u8, 0][..]));
    assert_eq!(key.as_ref(), &[0xffu8, 0xff][..]);
}

#[test]
fn bytes_go_in_and_out() {
    let bytes = Bytes::from(&b"abc"[..]);
    let mut slice = Slice::from_bytes(&bytes);
    assert_eq!(slice.as_ref(), &b"abc"[..]);
    slice.put_u8(b'd');
    assert_eq!(slice.to_bytes(), Bytes::from(&b"abcd"[..]));
    assert_eq!(bytes, Bytes::from(&b"abc"[..]));
    assert_eq!(Slice::from_bytes(&Bytes::new()).len(), 0);
    assert_eq!(Slice::new().to_bytes().len(), 0);
}

#[test]
fn get_i64_reads_a_signed_number_at_an_offset() {
    let mut slice = Slice::from(b"ab");
    slice.put_i64(-3);
    slice.put_i64(5);
    assert_eq!(slice.get_i64(2), Some(-3));
    assert_eq!(slice.get_i64(10), Some(5));
    assert_eq!(slice.get_i64(11), None);
    assert_eq!(slice.get_u64(2), Some(u64::MAX - 2));
}

#[test]
fn slices_index_like_byte_strings() {
    let slice = Slice::from(b"hello");
    assert_eq!(slice[0], b'h');
    assert_eq!(slice[4], b'o');
    assert_eq!(&slice[1..3], &b"el"[..]);
    assert_eq!(&slice[5..5], &b""[..]);
    let bytes: &[u8] = AsRef::<[u8]>::as_ref(&slice);
    assert_eq!(bytes, &b"hello"[..]);
}
