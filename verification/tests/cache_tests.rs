use lsm_table::filename::FileType;
use lsm_table::table::table_cache::{TableCache, DEFAULT_CAPACITY};

#[test]
fn file_names() {
    assert_eq!(FileType::Log("db", 12).filename(), "db/0000012.log");
    assert_eq!(FileType::Current("db").filename(), "db/CURRENT");
    assert_eq!(FileType::Table("db", 12).filename(), "db/0000012.ldb");
    assert_eq!(FileType::Table("some/dir", 0).filename(), "some/dir/0000000.ldb");
    assert_eq!(FileType::Table("db", 1234567).filename(), "db/1234567.ldb");
    assert_eq!(FileType::Table("db", 12345678).filename(), "db/12345678.ldb");
    assert_eq!(FileType::Log("", u64::MAX).filename(), "/18446744073709551615.log");
}

#[test]
fn is_logfile_tells_log_files() {
    assert!(FileType::Log("db", 1).is_logfile());
    assert!(!FileType::Current("db").is_logfile());
    assert!(!FileType::Table("db", 1).is_logfile());
}

#[test]
fn parse_name_finds_the_kind() {
    match FileType::parse_name("db/CURRENT") {
        Some(FileType::Current(name)) => assert_eq!(name, "db/CURRENT"),
        other => panic!("{:?}", other),
    }
    match FileType::parse_name("/var/data/db/0000012.log") {
        Some(FileType::Log(name, num)) => {
            assert_eq!(name, "db/0000012.log");
            assert_eq!(num, 0);
        }
        other => panic!("{:?}", other),
    }
    match FileType::parse_name("db/0000012.ldb") {
        Some(FileType::Table(name, num)) => {
            assert_eq!(name, "db/0000012.ldb");
            assert_eq!(num, 0);
        }
        other => panic!("{:?}", other),
    }
    assert!(FileType::parse_name("db/LOCK").is_none());
    assert!(FileType::parse_name("db/12.ldb").is_none());
    assert!(FileType::parse_name("").is_none());
    assert!(FileType::parse_name("/CURRENT").is_none());
}

#[test]
fn a_miss_asks_to_open_the_table_file() {
    let mut cache: TableCache<String> = TableCache::new("db");
    assert_eq!(cache.len(), 0);
    let request = cache.get(5, 4096).unwrap_err();
    assert_eq!(request.file_number, 5);
    assert_eq!(request.size, 4096);
    assert_eq!(request.file_name, "db/0000005.ldb");
    assert_eq!(cache.len(), 0);
}

#[test]
fn a_hit_hands_out_the_table() {
    let mut cache: TableCache<String> = TableCache::new("db");
    assert_eq!(cache.insert(5, "five".to_string()), None);
    assert_eq!(cache.insert(6, "six".to_string()), None);
    assert_eq!(cache.get(5, 0).unwrap(), "five");
    assert_eq!(cache.get(6, 0).unwrap(), "six");
    assert_eq!(cache.get(5, 0).unwrap(), "five");
    assert!(cache.get(7, 0).is_err());
    assert_eq!(cache.len(), 2);
}

#[test]
fn the_table_used_longest_ago_leaves() {
    let mut cache: TableCache<&str> = TableCache::with_capacity("db", 2);
    assert_eq!(cache.insert(1, "one"), None);
    assert_eq!(cache.insert(2, "two"), None);
    // 1 becomes the one used last
    assert_eq!(cache.get(1, 0).ok(), Some(&"one"));
    assert_eq!(cache.insert(3, "three"), Some((2, "two")));
    assert_eq!(cache.len(), 2);
    assert!(cache.get(2, 0).is_err());
    assert_eq!(cache.get(1, 0).ok(), Some(&"one"));
    assert_eq!(cache.insert(4, "four"), Some((3, "three")));
    assert_eq!(cache.get(4, 0).ok(), Some(&"four"));
}

#[test]
fn inserting_again_replaces_the_table() {
    let mut cache: TableCache<&str> = TableCache::with_capacity("db", 2);
    assert_eq!(cache.insert(1, "one"), None);
    assert_eq!(cache.insert(2, "two"), None);
    assert_eq!(cache.insert(1, "uno"), Some((1, "one")));
    assert_eq!(cache.len(), 2);
    assert_eq!(cache.get(1, 0).ok(), Some(&"uno"));
    // 2 is now the oldest
    assert_eq!(cache.insert(3, "three"), Some((2, "two")));
}

#[test]
fn a_cache_of_one() {
    let mut cache: TableCache<u8> = TableCache::with_capacity("db", 1);
    assert_eq!(cache.insert(1, 10), None);
    assert_eq!(cache.insert(2, 20), Some((1, 10)));
    assert_eq!(cache.get(2, 0).ok(), Some(&20));
    assert!(cache.get(1, 0).is_err());
    assert_eq!(cache.len(), 1);
}

#[test]
fn default_capacity_bounds_the_cache() {
    let mut cache: TableCache<u64> = TableCache::new("db");
    for n in 0..DEFAULT_CAPACITY as u64 {
        assert_eq!(cache.insert(n, n), None);
    }
    assert_eq!(cache.len(), DEFAULT_CAPACITY);
    assert_eq!(cache.insert(u64::MAX, 0), Some((0, 0)));
    assert_eq!(cache.len(), DEFAULT_CAPACITY);
}

#[test]
fn the_first_pattern_that_matches_decides() {
    match FileType::classify(Some("a"), Some("b"), Some("c")) {
        Some(FileType::Current(name)) => assert_eq!(name, "a"),
        other => panic!("{:?}", other),
    }
    match FileType::classify(None, Some("b"), Some("c")) {
        Some(FileType::Log(name, num)) => {
            assert_eq!(name, "b");
            assert_eq!(num, 0);
        }
        other => panic!("{:?}", other),
    }
    match FileType::classify(None, None, Some("c")) {
        Some(FileType::Table(name, num)) => {
            assert_eq!(name, "c");
            assert_eq!(num, 0);
        }
        other => panic!("{:?}", other),
    }
    assert!(FileType::classify(None, None, None).is_none());
}
