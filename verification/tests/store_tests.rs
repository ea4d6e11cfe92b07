use discmon::codec::Profile;
use discmon::store::{Data, Store, StoreError};

#[test]
fn save_then_load_round_trip() {
    let mut store = Store::new();
    let record = Data::new(
        String::from("users"),
        String::from("42"),
        Profile::new(String::from("Ash")),
    );
    record.res_save(&mut store).unwrap();
    let loaded = Data::<Profile>::load(&store, "users", "42").unwrap();
    assert_eq!(loaded.value().name().as_str(), "Ash");
}

#[test]
fn u64_payload_round_trip() {
    let mut store = Store::new();
    let record = Data::new(String::from("counters"), String::from("hits"), 7u64);
    record.res_save(&mut store).unwrap();
    let loaded = Data::<u64>::load(&store, "counters", "hits").unwrap();
    assert_eq!(*loaded.value(), 7u64);
}

#[test]
fn delete_returns_salvage_and_forgets() {
    let mut store = Store::new();
    let record = Data::new(
        String::from("users"),
        String::from("42"),
        Profile::new(String::from("Ash")),
    );
    record.res_save(&mut store).unwrap();
    let reloaded = Data::<Profile>::load(&store, "users", "42").unwrap();
    let salvage = reloaded.res_delete(&mut store).unwrap();
    assert_eq!(salvage.name().as_str(), "Ash");
    let after = Data::<Profile>::load(&store, "users", "42");
    assert!(matches!(after, Err(StoreError::NotFound)));
}

#[test]
fn rename_moves_never_duplicates() {
    let mut store = Store::new();
    let mut record = Data::new(
        String::from("users"),
        String::from("42"),
        Profile::new(String::from("Ash")),
    );
    record.res_save(&mut store).unwrap();
    record.res_rename(&mut store, "trainers", "1").unwrap();
    let old = Data::<Profile>::load(&store, "users", "42");
    assert!(matches!(old, Err(StoreError::NotFound)));
    let moved = Data::<Profile>::load(&store, "trainers", "1").unwrap();
    assert_eq!(moved.value().name().as_str(), "Ash");
}

#[test]
fn clone_preserves_original() {
    let mut store = Store::new();
    let record = Data::new(
        String::from("users"),
        String::from("42"),
        Profile::new(String::from("Ash")),
    );
    record.res_save(&mut store).unwrap();
    let copy = record.res_clone(&mut store, "backup", "42").unwrap();
    assert_eq!(copy.value().name().as_str(), "Ash");
    let original = Data::<Profile>::load(&store, "users", "42").unwrap();
    let duplicate = Data::<Profile>::load(&store, "backup", "42").unwrap();
    assert_eq!(original.value().name().as_str(), duplicate.value().name().as_str());
}

#[test]
fn load_missing_is_not_found() {
    let store = Store::new();
    let missing = Data::<Profile>::load(&store, "users", "nobody");
    assert!(matches!(missing, Err(StoreError::NotFound)));
}

#[test]
fn load_garbage_is_decode_error() {
    let mut store = Store::new();
    store.write("users", "42", vec![0xff, 0xfe, 0xfd]);
    let bad = Data::<Profile>::load(&store, "users", "42");
    assert!(matches!(bad, Err(StoreError::DecodeError)));
}

#[test]
fn traversal_namespace_is_path_error() {
    let store = Store::new();
    let bad = Data::<Profile>::load(&store, "..", "42");
    assert!(matches!(bad, Err(StoreError::PathError)));
    let mut store = Store::new();
    let record = Data::new(
        String::from("a/b"),
        String::from("42"),
        Profile::new(String::from("Ash")),
    );
    assert!(matches!(record.res_save(&mut store), Err(StoreError::PathError)));
}

#[test]
fn delete_missing_is_io_error() {
    let mut store = Store::new();
    let record = Data::new(
        String::from("users"),
        String::from("42"),
        Profile::new(String::from("Ash")),
    );
    let gone = record.res_delete(&mut store);
    assert!(matches!(gone, Err(StoreError::IoError)));
}

#[test]
fn rename_to_invalid_identity_loses_record() {
    let mut store = Store::new();
    let mut record = Data::new(
        String::from("users"),
        String::from("42"),
        Profile::new(String::from("Ash")),
    );
    record.res_save(&mut store).unwrap();
    let failed = record.res_rename(&mut store, "bad/ns", "42");
    assert!(matches!(failed, Err(StoreError::PathError)));
    let old = Data::<Profile>::load(&store, "users", "42");
    assert!(matches!(old, Err(StoreError::NotFound)));
}

#[test]
fn paths_are_deterministic() {
    let root = Data::<u64>::root();
    assert_eq!(root.as_str(), "res");
    let dir = Data::<u64>::dir_from("users").unwrap();
    assert_eq!(dir.as_str(), "res/users");
    let path = Data::<u64>::path_from("users", "42").unwrap();
    assert_eq!(path.as_str(), "res/users/42.rmp");
    let record = Data::new(String::from("users"), String::from("42"), 1u64);
    assert_eq!(record.dir().unwrap().as_str(), "res/users");
    assert_eq!(record.path().unwrap().as_str(), "res/users/42.rmp");
    assert!(matches!(Data::<u64>::path_from("users", "a/b"), Err(StoreError::PathError)));
}

#[test]
fn raw_bytes_can_be_read_back() {
    let mut store = Store::new();
    assert!(store.read("users", "42").is_none());
    store.write("users", "42", vec![1, 2, 3]);
    assert_eq!(store.read("users", "42").unwrap().as_slice(), &[1, 2, 3]);
    store.write("users", "42", vec![9]);
    assert_eq!(store.read("users", "42").unwrap().as_slice(), &[9]);
    assert!(store.erase("users", "42").is_some());
    assert!(store.read("users", "42").is_none());
}

#[test]
fn dot_segments_and_separators_are_rejected() {
    assert!(matches!(Data::<u64>::dir_from("."), Err(StoreError::PathError)));
    assert!(matches!(Data::<u64>::dir_from(".."), Err(StoreError::PathError)));
    assert!(matches!(Data::<u64>::dir_from(""), Err(StoreError::PathError)));
    assert!(matches!(Data::<u64>::dir_from("a\\b"), Err(StoreError::PathError)));
    assert!(matches!(Data::<u64>::dir_from("a\u{0}b"), Err(StoreError::PathError)));
    assert!(Data::<u64>::dir_from("a.b").is_ok());
    assert!(Data::<u64>::dir_from("...").is_ok());
}

#[test]
fn unwrap_and_value_mut() {
    let mut record = Data::new(String::from("users"), String::from("42"), 5u64);
    *record.value_mut() = 6u64;
    assert_eq!(*record.value(), 6u64);
    assert_eq!(record.res_unwrap(), 6u64);
}
