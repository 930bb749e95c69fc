use kvs::error::StoreError;
use kvs::file_store::{load_meta_data_from_file, FileStore, FileWork};
use kvs::json_store::{initialize_store_from_file, JsonStore};
use kvs::actions::{KeyValuePair, QueueAction, ACTION_DELETE, ACTION_STORE};
use kvs::paths::{file_in, meta_data_file_path, store_file_path};
use kvs::tls::{Credentials, TrustStore};

fn action(key: &str, value: &str, code: u8) -> QueueAction {
    QueueAction { kv: KeyValuePair { key: key.to_string(), value: value.to_string() }, action: code }
}

#[test]
fn json_store_persists_across_restart() {
    let mut store = JsonStore::new();
    store.handle_action(action("a", "1", ACTION_STORE)).unwrap();
    store.handle_action(action("b", "2", ACTION_STORE)).unwrap();
    let text = store.to_json();
    assert!(text.starts_with('{'));
    let loaded = initialize_store_from_file(Some(text)).unwrap();
    assert_eq!(loaded.len(), 2);
    assert_eq!(loaded.get_value(&"a".to_string()), Ok("1".to_string()));
    assert_eq!(loaded.get_value(&"b".to_string()), Ok("2".to_string()));
}

#[test]
fn json_store_file_format() {
    let mut store = JsonStore::new();
    store.handle_action(action("k", "v", ACTION_STORE)).unwrap();
    let text = store.to_json();
    let parsed: std::collections::BTreeMap<String, String> = serde_json::from_str(&text).unwrap();
    assert_eq!(parsed.len(), 1);
    assert_eq!(parsed["k"].matches('$').count(), 2);
    store.handle_action(action("k", "", ACTION_DELETE)).unwrap();
    assert_eq!(store.to_json(), "{}");
}

#[test]
fn json_store_load_errors() {
    let empty = initialize_store_from_file(None).unwrap();
    assert_eq!(empty.len(), 0);
    assert!(matches!(
        initialize_store_from_file(Some("not json".to_string())),
        Err(StoreError::LoadError)
    ));
    assert!(matches!(
        initialize_store_from_file(Some("{\"a\": 1}".to_string())),
        Err(StoreError::LoadError)
    ));
}

#[test]
fn file_store_persists_across_restart() {
    let mut store = FileStore::new();
    let mut files = std::collections::HashMap::new();
    for (k, v) in [("a", "1"), ("b", "2")] {
        let a = action(k, v, ACTION_STORE);
        let work = store.plan_action(&a).unwrap();
        if let FileWork::Write(p) = &work {
            files.insert(p.meta.filename.clone(), p.ciphertext.clone());
        }
        store.complete_action(k.to_string(), work, true).unwrap();
    }
    let index = store.save_meta_data_to_file().unwrap();
    assert_eq!(index.matches('$').count(), 2);
    let loaded = load_meta_data_from_file(Some(index)).unwrap();
    assert_eq!(loaded.len(), 2);
    for (k, v) in [("a", "1"), ("b", "2")] {
        let key = k.to_string();
        let f = loaded.locate(&key).unwrap();
        assert_ne!(f, key);
        assert_eq!(loaded.get_value(&key, files[&f].clone()), Ok(v.to_string()));
    }
}

#[test]
fn file_store_index_format() {
    let mut store = FileStore::new();
    let a = action("k", "dg==", ACTION_STORE);
    let work = store.plan_action(&a).unwrap();
    store.complete_action("k".to_string(), work, true).unwrap();
    let text = store.meta_data_json();
    let parsed: std::collections::BTreeMap<String, std::collections::BTreeMap<String, String>> =
        serde_json::from_str(&text).unwrap();
    let record = &parsed["k"];
    assert_eq!(record["filename"].len(), 32);
    assert_eq!(record["derivation_value"].len(), 32);
    assert_eq!(base64::decode(&record["initialization_vector"]).unwrap().len(), 12);
}

#[test]
fn file_store_load_errors() {
    assert_eq!(load_meta_data_from_file(None).unwrap().len(), 0);
    assert!(matches!(
        load_meta_data_from_file(Some("garbage".to_string())),
        Err(StoreError::LoadError)
    ));
    let missing_field = kvs::crypto::json_encrypt("{\"k\":{\"filename\":\"f\"}}".to_string()).unwrap();
    assert!(matches!(load_meta_data_from_file(Some(missing_field)), Err(StoreError::LoadError)));
    let shared = kvs::crypto::json_encrypt(
        "{\"a\":{\"filename\":\"f\",\"derivation_value\":\"d\",\"initialization_vector\":\"i\"},\
          \"b\":{\"filename\":\"f\",\"derivation_value\":\"d\",\"initialization_vector\":\"i\"}}"
            .to_string(),
    )
    .unwrap();
    assert!(matches!(load_meta_data_from_file(Some(shared)), Err(StoreError::LoadError)));
    let good = kvs::crypto::json_encrypt(
        "{\"a\":{\"filename\":\"f\",\"derivation_value\":\"d\",\"initialization_vector\":\"i\"}}"
            .to_string(),
    )
    .unwrap();
    let loaded = load_meta_data_from_file(Some(good)).unwrap();
    assert_eq!(loaded.locate(&"a".to_string()), Ok("f".to_string()));
}

#[test]
fn storage_paths() {
    assert_eq!(store_file_path("/data"), "/data/store.json");
    assert_eq!(meta_data_file_path("/data"), "/data/kvsd-meta-data.json");
    assert_eq!(file_in("dir", "name"), "dir/name");
}

#[test]
fn tls_material_bytes() {
    let c = Credentials::from_pem("KEY".to_string(), "CERT".to_string());
    assert_eq!(c.get_private_key(), b"KEY");
    assert_eq!(c.get_certificate(), b"CERT");
    let t = TrustStore::from_pem("CA".to_string());
    assert_eq!(t.get_trusted_certificate(), b"CA");
}

#[test]
fn file_named_like_its_key_is_refused() {
    let same = kvs::crypto::json_encrypt(
        "{\"a\":{\"filename\":\"a\",\"derivation_value\":\"d\",\"initialization_vector\":\"i\"}}"
            .to_string(),
    )
    .unwrap();
    assert!(matches!(load_meta_data_from_file(Some(same)), Err(StoreError::LoadError)));
}

#[test]
fn reloaded_json_store_equals_the_saved_one() {
    let mut store = JsonStore::new();
    for i in 0..20 {
        store.handle_action(action(&format!("k{}", i), &format!("v{}", i), ACTION_STORE)).unwrap();
    }
    store.handle_action(action("k3", "", ACTION_DELETE)).unwrap();
    let loaded = initialize_store_from_file(Some(store.to_json())).unwrap();
    assert_eq!(loaded.len(), 19);
    for i in 0..20 {
        let key = format!("k{}", i);
        assert_eq!(loaded.get_value(&key), store.get_value(&key));
    }
}
