use rand::Rng;

use kvs::error::StoreError;
use kvs::json_store::JsonStore;
use kvs::service::{Backend, GetOutcome};
use kvs::validation::Validator;

fn validator() -> Validator {
    Validator::new()
}

fn store(backend: &mut Backend, v: &Validator, key: String, value: String) -> bool {
    let action = match backend.store_request(v, key, value) {
        Ok(a) => a,
        Err(_) => return false,
    };
    match backend {
        Backend::Json(s) => s.handle_action(action).is_ok(),
        Backend::File(_) => false,
    }
}

fn get(backend: &Backend, v: &Validator, key: String) -> bool {
    matches!(backend.get_request(v, key), Ok(GetOutcome::Value(_)))
}

#[test]
fn performance_json_max_entries() {
    let v = validator();
    let mut backend = Backend::Json(JsonStore::new());
    let mut _result: bool = false;
    for x in 0..10000 {
        let mut key: String = "testkey".to_string();
        let value: String = "testvalue".to_string();
        key = key + &format!("{}", x);
        _result = store(&mut backend, &v, key.clone(), value);
        if _result == false {
            println!("Failed adding key: {}", key.clone());
        }
        assert!(_result);
    }
    // The 10,001st entry is refused.
    _result = store(&mut backend, &v, "key10001".to_string(), "value".to_string());
    assert_eq!(_result, false);
    assert!(matches!(
        backend.store_request(&v, "key10001".to_string(), "value".to_string()),
        Err(StoreError::CapacityExceededError)
    ));
}

#[test]
fn performance_json_max_value_length() {
    let v = validator();
    let mut backend = Backend::Json(JsonStore::new());
    let mut _result: bool = false;
    let key: String = "testkey".to_string();
    let mut value: String = String::new();
    for _x in 0..1024 {
        value = value + "a";
    }
    value = value + "b";
    _result = store(&mut backend, &v, key.clone(), value.clone());
    assert_eq!(_result, false);
}

#[test]
fn performance_json() {
    let v = validator();
    let mut backend = Backend::Json(JsonStore::new());
    let mut _result: bool = false;
    for x in 0..10000 {
        let mut key: String = "testkey".to_string();
        let mut value: String = String::new();
        for _y in 0..1024 {
            value = value + "a";
        }
        key = key + &format!("{}", x);
        _result = store(&mut backend, &v, key.clone(), value);
        if _result == false {
            println!("Failed adding key: {}", key.clone());
        }
    }
    let mut rng = rand::thread_rng();
    for _x in 0..9 {
        let key: String = "testkey".to_string() + &format!("{}", rng.gen_range(0, 9999));
        _result = get(&backend, &v, key.clone());
        assert!(_result);
    }
}

#[test]
fn capacity_boundary_counts_distinct_keys() {
    let v = validator();
    let mut backend = Backend::Json(JsonStore::new());
    for x in 0..9999 {
        assert!(store(&mut backend, &v, format!("k{}", x), "v".to_string()));
    }
    // Overwriting an existing key does not grow the store.
    assert!(store(&mut backend, &v, "k0".to_string(), "w".to_string()));
    assert!(!backend.is_store_full());
    // The 10,000th distinct entry is accepted, the next one refused.
    assert!(store(&mut backend, &v, "k9999".to_string(), "v".to_string()));
    assert!(backend.is_store_full());
    assert!(matches!(
        backend.store_request(&v, "k10000".to_string(), "v".to_string()),
        Err(StoreError::CapacityExceededError)
    ));
}
