use std::collections::HashMap;

use kvs::actions::QueueAction;
use kvs::error::StoreError;
use kvs::file_store::{FileStore, FileWork};
use kvs::json_store::JsonStore;
use kvs::service::{Backend, GetOutcome};
use kvs::validation::Validator;

fn validator() -> Validator {
    Validator::new()
}

/// Files of the file backend, by name.
type Disk = HashMap<String, String>;

fn apply(backend: &mut Backend, disk: &mut Disk, action: QueueAction) -> Result<(), StoreError> {
    match backend {
        Backend::Json(s) => s.handle_action(action),
        Backend::File(s) => {
            let work = s.plan_action(&action)?;
            let done = match &work {
                FileWork::Write(p) => {
                    disk.insert(p.meta.filename.clone(), p.ciphertext.clone());
                    true
                }
                FileWork::Remove(f) => disk.remove(f).is_some(),
            };
            s.complete_action(action.kv.key, work, done)
        }
    }
}

fn store(backend: &mut Backend, disk: &mut Disk, key: &str, value: &str) -> bool {
    match backend.store_request(&validator(), key.to_string(), value.to_string()) {
        Ok(action) => apply(backend, disk, action).is_ok(),
        Err(_) => false,
    }
}

fn get(backend: &Backend, disk: &Disk, key: &str) -> Result<String, StoreError> {
    match backend.get_request(&validator(), key.to_string())? {
        GetOutcome::Value(v) => Ok(v),
        GetOutcome::ReadFile(f) => match (backend, disk.get(&f)) {
            (Backend::File(s), Some(contents)) => s.get_value(&key.trim().to_string(), contents.clone()),
            _ => Err(StoreError::IOError),
        },
    }
}

fn delete(backend: &mut Backend, disk: &mut Disk, key: &str) -> bool {
    match backend.delete_request(&validator(), key.to_string()) {
        Ok(action) => apply(backend, disk, action).is_ok(),
        Err(_) => false,
    }
}

#[test]
fn integration_json_store_get_delete() {
    let mut backend = Backend::Json(JsonStore::new());
    let mut disk = Disk::new();
    let key: String = "testkey".to_string();
    let value: String = "testvalue".to_string();
    let mut _result: bool = false;
    _result = store(&mut backend, &mut disk, &key, &value);
    assert!(_result);
    _result = get(&backend, &disk, &key).is_ok();
    assert!(_result);
    _result = delete(&mut backend, &mut disk, &key);
    assert_eq!(_result, true);
}

#[test]
fn integration_file_store_get_delete() {
    let mut backend = Backend::File(FileStore::new());
    let mut disk = Disk::new();
    let key: String = "testkey".to_string();
    let value: String = "testvalue".to_string();
    let mut _result: bool = false;
    _result = store(&mut backend, &mut disk, &key, &value);
    assert!(_result);
    _result = get(&backend, &disk, &key).is_ok();
    assert!(_result);
    _result = delete(&mut backend, &mut disk, &key);
    assert_eq!(_result, true);
}

#[test]
fn integration_client_get_not_found() {
    let backend = Backend::Json(JsonStore::new());
    let disk = Disk::new();
    let key: String = "testkey".to_string();
    let result: bool = get(&backend, &disk, &key).is_ok();
    assert_eq!(result, false);
}

#[test]
fn integration_client_delete_not_found() {
    let mut backend = Backend::Json(JsonStore::new());
    let mut disk = Disk::new();
    let key: String = "testkey".to_string();
    let result: bool = delete(&mut backend, &mut disk, &key);
    assert_eq!(result, false);
}

#[test]
fn example_scenario_both_backends() {
    for mut backend in [Backend::Json(JsonStore::new()), Backend::File(FileStore::new())] {
        let mut disk = Disk::new();
        assert!(store(&mut backend, &mut disk, "testkey", "testvalue"));
        assert_eq!(get(&backend, &disk, "testkey"), Ok("testvalue".to_string()));
        assert!(delete(&mut backend, &mut disk, "testkey"));
        assert_eq!(get(&backend, &disk, "testkey"), Err(StoreError::NotFoundError));
    }
}

#[test]
fn not_found_on_empty_store() {
    for mut backend in [Backend::Json(JsonStore::new()), Backend::File(FileStore::new())] {
        let disk = Disk::new();
        assert_eq!(get(&backend, &disk, "missing"), Err(StoreError::NotFoundError));
        assert!(matches!(
            backend.delete_request(&validator(), "missing".to_string()),
            Err(StoreError::NotFoundError)
        ));
        let mut disk = disk;
        assert!(!delete(&mut backend, &mut disk, "missing"));
    }
}

#[test]
fn round_trip_overwrite_keeps_file_name() {
    let mut backend = Backend::File(FileStore::new());
    let mut disk = Disk::new();
    assert!(store(&mut backend, &mut disk, "k", "one"));
    assert!(store(&mut backend, &mut disk, "k", "two"));
    assert_eq!(disk.len(), 1);
    assert_eq!(get(&backend, &disk, "k"), Ok("two".to_string()));
    let mut json = Backend::Json(JsonStore::new());
    assert!(store(&mut json, &mut disk, "k", "one"));
    assert!(store(&mut json, &mut disk, "k", "two"));
    assert_eq!(get(&json, &disk, "k"), Ok("two".to_string()));
}

#[test]
fn fifo_application_of_distinct_keys() {
    for mut backend in [Backend::Json(JsonStore::new()), Backend::File(FileStore::new())] {
        let mut disk = Disk::new();
        let mut queue = std::collections::VecDeque::new();
        for i in 0..50 {
            let action = backend
                .store_request(&validator(), format!("key{}", i), format!("value{}", i))
                .unwrap();
            queue.push_back(action);
        }
        while let Some(action) = queue.pop_front() {
            apply(&mut backend, &mut disk, action).unwrap();
        }
        for i in 0..50 {
            assert_eq!(get(&backend, &disk, &format!("key{}", i)), Ok(format!("value{}", i)));
        }
    }
}

#[test]
fn requests_are_trimmed() {
    let mut backend = Backend::Json(JsonStore::new());
    let mut disk = Disk::new();
    assert!(store(&mut backend, &mut disk, "  spaced ", " dmFsdWU= "));
    assert_eq!(get(&backend, &disk, "spaced"), Ok("dmFsdWU=".to_string()));
}

#[test]
fn key_length_boundary() {
    let mut backend = Backend::Json(JsonStore::new());
    let mut disk = Disk::new();
    assert!(store(&mut backend, &mut disk, "a", "v"));
    assert!(store(&mut backend, &mut disk, &"k".repeat(32), "v"));
    assert!(matches!(
        backend.store_request(&validator(), String::new(), "v".to_string()),
        Err(StoreError::ValidationError)
    ));
    assert!(matches!(
        backend.store_request(&validator(), "k".repeat(33), "v".to_string()),
        Err(StoreError::ValidationError)
    ));
    assert!(matches!(
        backend.get_request(&validator(), "bad key!".to_string()),
        Err(StoreError::ValidationError)
    ));
    assert!(matches!(
        backend.delete_request(&validator(), "k".repeat(33)),
        Err(StoreError::ValidationError)
    ));
}

#[test]
fn value_length_boundary() {
    let mut json = Backend::Json(JsonStore::new());
    let mut disk = Disk::new();
    assert!(store(&mut json, &mut disk, "one", "a"));
    assert!(store(&mut json, &mut disk, "max", &"a".repeat(1024)));
    assert!(matches!(
        json.store_request(&validator(), "over".to_string(), "a".repeat(1025)),
        Err(StoreError::ValidationError)
    ));
    assert!(matches!(
        json.store_request(&validator(), "bad".to_string(), "not base64!".to_string()),
        Err(StoreError::ValidationError)
    ));
    let mut file = Backend::File(FileStore::new());
    let big = "QUJD".repeat(50_000);
    assert!(store(&mut file, &mut disk, "big", &big));
    assert_eq!(get(&file, &disk, "big"), Ok(big));
}

#[test]
fn unknown_opcode_is_refused() {
    let mut store = JsonStore::new();
    let action = QueueAction {
        kv: kvs::actions::KeyValuePair { key: "k".to_string(), value: "v".to_string() },
        action: 7,
    };
    assert_eq!(store.handle_action(action), Err(StoreError::ValidationError));
    assert_eq!(store.len(), 0);
    let file = FileStore::new();
    let action = QueueAction {
        kv: kvs::actions::KeyValuePair { key: "k".to_string(), value: "v".to_string() },
        action: 7,
    };
    assert!(matches!(file.plan_action(&action), Err(StoreError::ValidationError)));
}

#[test]
fn failed_file_work_leaves_index() {
    let mut store = FileStore::new();
    let action = QueueAction {
        kv: kvs::actions::KeyValuePair { key: "k".to_string(), value: "dg==".to_string() },
        action: kvs::actions::ACTION_STORE,
    };
    let work = store.plan_action(&action).unwrap();
    assert_eq!(store.complete_action("k".to_string(), work, false), Err(StoreError::IOError));
    assert!(!store.key_exists(&"k".to_string()));
}

#[test]
fn tampered_file_fails_to_decrypt() {
    let mut backend = Backend::File(FileStore::new());
    let mut disk = Disk::new();
    assert!(store(&mut backend, &mut disk, "k", "secret"));
    for contents in disk.values_mut() {
        let mut bytes = contents.clone().into_bytes();
        bytes[0] = if bytes[0] == b'A' { b'B' } else { b'A' };
        *contents = String::from_utf8(bytes).unwrap();
    }
    assert_eq!(get(&backend, &disk, "k"), Err(StoreError::CryptoError));
}
