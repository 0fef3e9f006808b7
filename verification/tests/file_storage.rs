use storage::events::StorageEvent;
use storage::FileStorage;
use storage::StorageError;
use storage::DEFAULT_FILE_SIZE_LIMIT;

fn blake2b_hex(bytes: &[u8]) -> String {
    scrypto::crypto::hash(bytes).to_string()
}

#[test]
fn test_store_and_get() {
    let mut store = FileStorage::instantiate();
    let bytes = b"<svg></svg>".to_vec();

    let file_hash = store
        .store_file(bytes.clone(), "icon_stored.svg".to_string())
        .expect("store within the limit must succeed");

    let (file_name, file) = store
        .get_file(file_hash)
        .expect("a stored hash must be retrievable");

    assert_eq!(file_name, "icon_stored.svg");
    assert_eq!(file, bytes);
}

#[test]
fn test_cannot_store_same_file() {
    let mut store = FileStorage::instantiate();
    let bytes = b"<svg></svg>".to_vec();

    let file_hash = store
        .store_file(bytes.clone(), "icon_stored.svg".to_string())
        .expect("first store must succeed");

    let second = store.store_file(bytes.clone(), "icon_stored2.svg".to_string());
    assert!(second.is_err());
    assert_eq!(second.unwrap_err(), StorageError::DuplicateContent);

    // The retrievable content for that hash remains the first submission's.
    let (file_name, file) = store.get_file(file_hash).unwrap();
    assert_eq!(file_name, "icon_stored.svg");
    assert_eq!(file, bytes);
}

#[test]
fn test_digest_known_value() {
    let mut store = FileStorage::instantiate();
    let file_hash = store
        .store_file(b"Hello Radix".to_vec(), "greeting.txt".to_string())
        .unwrap();
    assert_eq!(
        file_hash,
        "48f1bd08444b5e713db9e14caac2faae71836786ac94d645b00679728202a935"
    );
}

#[test]
fn test_digest_matches_direct_hash() {
    let mut store = FileStorage::instantiate();
    let bytes = b"some file content".to_vec();
    let file_hash = store
        .store_file(bytes.clone(), "file.bin".to_string())
        .unwrap();
    assert_eq!(file_hash, blake2b_hex(&bytes));
    assert_eq!(file_hash.len(), 64);
    assert!(file_hash.chars().all(|c| c.is_ascii_hexdigit()));
}

#[test]
fn test_hash_deterministic_across_stores() {
    let bytes = b"identical payload".to_vec();
    let mut store1 = FileStorage::instantiate();
    let mut store2 = FileStorage::instantiate();
    let h1 = store1.store_file(bytes.clone(), "one.txt".to_string()).unwrap();
    let h2 = store2.store_file(bytes, "two.txt".to_string()).unwrap();
    assert_eq!(h1, h2);
}

#[test]
fn test_size_boundary() {
    let mut store = FileStorage::instantiate_with_limit(10);

    let exactly = vec![7u8; 10];
    assert!(store.store_file(exactly, "fits.bin".to_string()).is_ok());

    let over = vec![7u8; 11];
    let rejected = store.store_file(over, "toobig.bin".to_string());
    assert_eq!(
        rejected.unwrap_err(),
        StorageError::PayloadTooLarge { limit: 10 }
    );
}

#[test]
fn test_unknown_hash_not_found() {
    let mut store = FileStorage::instantiate();
    let never_stored = blake2b_hex(b"never stored");
    let result = store.get_file(never_stored);
    assert_eq!(result.unwrap_err(), StorageError::NotFound);
}

#[test]
fn test_retrieve_repeatable() {
    let mut store = FileStorage::instantiate();
    let bytes = b"read me thrice".to_vec();
    let file_hash = store
        .store_file(bytes.clone(), "again.txt".to_string())
        .unwrap();

    let first = store.get_file(file_hash.clone()).unwrap();
    let second = store.get_file(file_hash.clone()).unwrap();
    let third = store.get_file(file_hash).unwrap();

    assert_eq!(first, second);
    assert_eq!(second, third);
    assert_eq!(first.0, "again.txt");
    assert_eq!(first.1, bytes);

    // One Stored event plus one Retrieved event per call.
    assert_eq!(store.event_count(), 4);
}

#[test]
fn test_scenario_hello() {
    let mut store = FileStorage::instantiate_with_limit(10);

    let hello = b"hello".to_vec();
    let file_hash = store
        .store_file(hello.clone(), "a.txt".to_string())
        .expect("5 bytes under a 10-byte limit must be stored");
    assert_eq!(file_hash, blake2b_hex(b"hello"));

    let (file_name, file) = store.get_file(file_hash).unwrap();
    assert_eq!(file_name, "a.txt");
    assert_eq!(file, hello);

    let duplicate = store.store_file(hello, "b.txt".to_string());
    assert_eq!(duplicate.unwrap_err(), StorageError::DuplicateContent);

    let eleven = vec![0u8; 11];
    let too_large = store.store_file(eleven, "c.txt".to_string());
    assert_eq!(
        too_large.unwrap_err(),
        StorageError::PayloadTooLarge { limit: 10 }
    );
}

#[test]
fn test_events_logged() {
    let mut store = FileStorage::instantiate();
    assert_eq!(store.event_count(), 0);

    let bytes = b"observed".to_vec();
    let file_hash = store
        .store_file(bytes, "watched.txt".to_string())
        .unwrap();
    assert_eq!(store.event_count(), 1);

    let _ = store.get_file(file_hash.clone()).unwrap();
    assert_eq!(store.event_count(), 2);

    match store.event_at(0) {
        StorageEvent::Stored(e) => {
            assert_eq!(e.file_hash, file_hash);
            assert_eq!(e.file_name, "watched.txt");
        }
        StorageEvent::Retrieved(_) => panic!("first event must report the store"),
    }
    match store.event_at(1) {
        StorageEvent::Retrieved(e) => {
            assert_eq!(e.file_hash, file_hash);
            assert_eq!(e.file_name, "watched.txt");
        }
        StorageEvent::Stored(_) => panic!("second event must report the retrieval"),
    }

    // A failed operation logs nothing.
    let _ = store.get_file("0000".to_string());
    assert_eq!(store.event_count(), 2);
}

#[test]
fn test_default_limit() {
    let store = FileStorage::instantiate();
    assert_eq!(store.size_limit_bytes(), DEFAULT_FILE_SIZE_LIMIT);
    assert_eq!(store.size_limit_bytes(), 512000);
    assert_eq!(store.event_count(), 0);
}
