use rust_disk_cache::codec::{compress, decompress, hash_value};
use rust_disk_cache::errors::CacheError;
use rust_disk_cache::stored_entry::StoredEntry;

#[test]
fn compress_then_decompress_round_trips() {
    let data = b"some cache snapshot {\"k\":\"v\"} repeated repeated repeated".to_vec();
    let packed = compress(&data).unwrap();
    assert_ne!(packed, data);
    assert_eq!(&packed[..2], &[0x1f, 0x8b]);
    assert_eq!(decompress(&packed), Ok(data));
    assert_eq!(decompress(&compress(&[]).unwrap()), Ok(Vec::new()));
}

#[test]
fn decompress_of_garbage_is_io_error() {
    assert!(matches!(decompress(b"not gzip"), Err(CacheError::IoError(_))));
}

#[test]
fn hash_value_is_lowercase_hex_sha256() {
    assert_eq!(
        hash_value("hello"),
        "2cf24dba5fb0a30e26e83b2ac5b9e29e1b161e5c1fa7425e73043362938b9824"
    );
    assert_eq!(
        hash_value(""),
        "e3b0c44298fc1c149afbf4c8996fb92427ae41e4649b934ca495991b7852b855"
    );
}

#[test]
fn stored_entry_reads_back_until_expiry() {
    let e = StoredEntry::new_at("payload", Some(10), 100, None);
    assert_eq!(e.expiry, Some(110));
    assert_eq!(e.checksum, hash_value("payload"));
    assert_eq!(e.read("k", 109), Ok(Some("payload".to_string())));
    assert_eq!(e.read("k", 110), Ok(None));
    let forever = StoredEntry::new("x", None, Some(vec![1, 2, 3]));
    assert_eq!(forever.expiry, None);
    assert_eq!(forever.nonce, Some(vec![1, 2, 3]));
    assert!(!forever.is_expired());
    assert_eq!(forever.read("k", i64::MAX), Ok(Some("x".to_string())));
}

#[test]
fn stored_entry_with_bad_checksum_is_reported() {
    let mut e = StoredEntry::new_at("payload", None, 0, None);
    e.value = "altered".to_string();
    assert_eq!(
        e.read("key1", 0),
        Err(CacheError::DecompressionError("Checksum mismatch for key key1".to_string()))
    );
    assert!(e.is_expired_at(i64::MIN) == false);
}

#[test]
fn stored_entry_expiry_follows_the_clock() {
    let before = chrono::Utc::now().timestamp_millis();
    let e = StoredEntry::new("v", Some(1000), None);
    let after = chrono::Utc::now().timestamp_millis();
    let t = e.expiry.unwrap();
    assert!(before + 1000 <= t && t <= after + 1000);
    assert!(!e.is_expired());
}
