use lsm_table::ikey::{InternalKey, KeyKind};
use lsm_table::slice::Slice;

#[test]
fn internal_key() {
    let ikey = InternalKey::new(b"hoge", 2);
    assert_eq!(&ikey.user_key(), "hoge");
    assert_eq!(
        ikey.memtable_key(),
        Slice::from(b"\x0c\0\0\0hoge\0\x02\0\0\0\0\0\0")
    );
    assert_eq!(ikey.seq_number(), 2);
    assert_eq!(ikey.kind(), KeyKind::Value);
}

#[test]
fn internal_key_bytes_are_prefix_key_and_trailer() {
    let key = InternalKey::new_with_kind(b"k", 0x0102030405, KeyKind::Delete);
    assert_eq!(
        key.as_ref(),
        &[9u8, 0, 0, 0, b'k', 1, 0x05, 0x04, 0x03, 0x02, 0x01, 0, 0][..]
    );
    assert_eq!(key.len(), 13);
    assert!(key.is_valid());
    assert_eq!(key.inner().as_ref(), key.as_ref());
}

#[test]
fn delete_key_fields_come_back() {
    let key = InternalKey::new_delete_key(b"", 7);
    assert_eq!(key.user_key().len(), 0);
    assert_eq!(key.seq_number(), 7);
    assert_eq!(key.kind(), KeyKind::Delete);
    assert_eq!(key.as_ref(), &[8u8, 0, 0, 0, 1, 7, 0, 0, 0, 0, 0, 0][..]);
}

#[test]
fn fields_round_trip_on_many_keys() {
    let keys: [&[u8]; 4] = [b"", b"a", b"hoge", &[0xff, 0x00, 0xff]];
    let seqs = [0u64, 1, 255, 256, 65535, (1 << 56) - 1];
    for user_key in keys {
        for seq in seqs {
            for kind in [KeyKind::Value, KeyKind::Delete] {
                let key = InternalKey::new_with_kind(user_key, seq, kind);
                assert!(key.is_valid());
                assert_eq!(key.user_key().as_ref(), user_key);
                assert_eq!(key.seq_number(), seq);
                assert_eq!(key.kind(), kind);
                assert_eq!(key.memtable_key().as_ref(), key.as_ref());
            }
        }
    }
}

#[test]
fn sequence_number_keeps_its_low_56_bits() {
    let key = InternalKey::new(b"k", (1 << 56) + 5);
    assert_eq!(key.seq_number(), 5);
    let key = InternalKey::new(b"k", u64::MAX);
    assert_eq!(key.seq_number(), (1 << 56) - 1);
    assert_eq!(key.kind(), KeyKind::Value);
}

#[test]
fn key_kind_from_byte() {
    assert_eq!(KeyKind::from(0), Some(KeyKind::Value));
    assert_eq!(KeyKind::from(1), Some(KeyKind::Delete));
    assert_eq!(KeyKind::from(2), None);
    assert_eq!(KeyKind::from(255), None);
}

#[test]
fn from_takes_bytes_unchecked_and_is_valid_tells() {
    let good = InternalKey::from(Slice::from(b"\x0c\0\0\0hoge\0\x02\0\0\0\0\0\0"));
    assert!(good.is_valid());
    assert_eq!(good, InternalKey::new(b"hoge", 2));

    assert!(!InternalKey::from(Slice::new()).is_valid());
    // too short for the trailer
    assert!(!InternalKey::from(Slice::from(b"\x07\0\0\0abcdefg")).is_valid());
    // the prefix does not count what follows
    assert!(!InternalKey::from(Slice::from(b"\x0d\0\0\0hoge\0\x02\0\0\0\0\0\0")).is_valid());
    // no kind is 2
    assert!(!InternalKey::from(Slice::from(b"\x0c\0\0\0hoge\x02\x02\0\0\0\0\0\0")).is_valid());
}

#[test]
fn keys_of_one_length_order_by_user_key() {
    let a = InternalKey::new(b"aaa", 900);
    let b = InternalKey::new_delete_key(b"aab", 1);
    let c = InternalKey::new(b"baa", 0);
    assert!(a < b);
    assert!(b < c);
    assert!(a < c);
    assert!(!(c < a));
}

#[test]
fn equal_user_keys_order_by_sequence_below_256() {
    let first = InternalKey::new(b"k", 1);
    let second = InternalKey::new(b"k", 2);
    let third = InternalKey::new(b"k", 255);
    assert!(first < second);
    assert!(second < third);
    assert!(first == InternalKey::new(b"k", 1));
}

#[test]
fn byte_order_is_not_numeric_order_of_sequences() {
    // the trailer is compared from its low byte up
    let low = InternalKey::new(b"k", 1);
    let high = InternalKey::new(b"k", 256);
    assert!(high < low);
    // the kind byte comes first
    let value = InternalKey::new(b"k", 2);
    let delete = InternalKey::new_delete_key(b"k", 1);
    assert!(value < delete);
}

#[test]
fn length_prefix_decides_between_keys_of_different_length() {
    let longer = InternalKey::new(b"ab", 1);
    let shorter = InternalKey::new(b"b", 1);
    assert!(shorter < longer);
}

#[test]
fn internal_key_compares_with_buffers() {
    let key = InternalKey::new(b"hoge", 2);
    let same = Slice::from(b"\x0c\0\0\0hoge\0\x02\0\0\0\0\0\0");
    let later = Slice::from(b"\x0c\0\0\0hoge\0\x03\0\0\0\0\0\0");
    assert!(key == same);
    assert!(same == key);
    assert!(key < later);
    assert!(later > key);
}

#[test]
fn internal_key_is_a_byte_string() {
    let key = InternalKey::new(b"hoge", 2);
    let bytes: &[u8] = AsRef::<[u8]>::as_ref(&key);
    assert_eq!(bytes, &b"\x0c\0\0\0hoge\0\x02\0\0\0\0\0\0"[..]);
}
