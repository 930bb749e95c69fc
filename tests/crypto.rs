use kvs::crypto::{
    derive_password, file_decrypt, file_encrypt, generate_derivation_value,
    generate_initialization_vector, json_decrypt, json_encrypt, split_envelope, IV_LEN,
};
use kvs::error::StoreError;

#[test]
fn derive_password_ok() {
    assert_eq!(derive_password("test".to_string()), "9ece086e9bac491fac5c1d1046ca11d7")
}

#[test]
fn derive_password_length_ok() {
    assert_eq!(derive_password("test".to_string()).len(), 32)
}

#[test]
fn generate_initialization_vector_ok() {
    assert_eq!(generate_initialization_vector().len(), IV_LEN)
}

#[test]
fn derivation_value_is_32_alphanumerics() {
    let a = generate_derivation_value();
    let b = generate_derivation_value();
    assert_eq!(a.chars().count(), 32);
    assert!(a.chars().all(|c| c.is_ascii_alphanumeric()));
    assert_ne!(a, b);
}

#[test]
fn envelope_round_trip() {
    for v in ["", "testvalue", "ünïcödé ✓", &"x".repeat(5000)] {
        let e = json_encrypt(v.to_string()).unwrap();
        assert_eq!(e.matches('$').count(), 2);
        let (dv, iv, ct) = split_envelope(&e).unwrap();
        assert_eq!(dv.len(), 32);
        assert_eq!(iv.len(), 16);
        assert!(!ct.is_empty());
        assert_eq!(json_decrypt(e), Ok(v.to_string()));
    }
}

#[test]
fn envelopes_differ_for_same_value() {
    let a = json_encrypt("same".to_string()).unwrap();
    let b = json_encrypt("same".to_string()).unwrap();
    assert_ne!(a, b);
}

#[test]
fn single_byte_mutation_is_detected() {
    let e = json_encrypt("testvalue".to_string()).unwrap();
    let bytes = e.as_bytes().to_vec();
    for i in 0..bytes.len() {
        if bytes[i] == b'$' {
            continue;
        }
        let mut m = bytes.clone();
        m[i] = if m[i] == b'A' { b'B' } else { b'A' };
        let tampered = String::from_utf8(m).unwrap();
        assert_eq!(json_decrypt(tampered), Err(StoreError::CryptoError), "mutation at {}", i);
    }
}

#[test]
fn malformed_envelopes_are_refused() {
    assert_eq!(json_decrypt("no separators".to_string()), Err(StoreError::CryptoError));
    assert_eq!(json_decrypt("a$b".to_string()), Err(StoreError::CryptoError));
    assert_eq!(json_decrypt("a$b$c$d".to_string()), Err(StoreError::CryptoError));
    assert_eq!(json_decrypt("abc$!!!$???".to_string()), Err(StoreError::CryptoError));
    assert_eq!(split_envelope("a$b$c").map(|t| t.1), Some("b".to_string()));
    assert_eq!(split_envelope("a$$c").map(|t| t.1), Some(String::new()));
    assert_eq!(split_envelope("$$"), Some((String::new(), String::new(), String::new())));
}

#[test]
fn file_cipher_round_trip() {
    let dv = generate_derivation_value();
    let iv = base64::encode(generate_initialization_vector());
    let ct = file_encrypt("payload".to_string(), dv.clone(), iv.clone()).unwrap();
    assert_ne!(ct, "payload");
    assert!(base64::decode(&ct).is_ok());
    assert_eq!(file_decrypt(ct.clone(), dv.clone(), iv.clone()), Ok("payload".to_string()));
    let other = generate_derivation_value();
    assert_eq!(file_decrypt(ct, other, iv), Err(StoreError::CryptoError));
}

#[test]
fn file_cipher_refuses_bad_iv() {
    let dv = generate_derivation_value();
    assert_eq!(
        file_encrypt("p".to_string(), dv.clone(), "not base64".to_string()),
        Err(StoreError::CryptoError)
    );
    assert_eq!(
        file_encrypt("p".to_string(), dv.clone(), base64::encode([0u8; 5])),
        Err(StoreError::CryptoError)
    );
    assert_eq!(
        file_decrypt("AAAA".to_string(), dv, base64::encode([0u8; 5])),
        Err(StoreError::CryptoError)
    );
}

#[test]
fn ciphertext_carries_a_16_byte_tag() {
    for v in ["", "testvalue", &"z".repeat(1000)] {
        let e = json_encrypt(v.to_string()).unwrap();
        let (_, iv, ct) = split_envelope(&e).unwrap();
        assert_eq!(base64::decode(&iv).unwrap().len(), 12);
        assert_eq!(base64::decode(&ct).unwrap().len(), v.len() + 16);
        let dv = generate_derivation_value();
        let t = file_encrypt(v.to_string(), dv, iv).unwrap();
        assert_eq!(base64::decode(&t).unwrap().len(), v.len() + 16);
    }
}

#[test]
fn charset_positions() {
    assert_eq!(kvs::crypto::charset_at(0), 'a');
    assert_eq!(kvs::crypto::charset_at(25), 'z');
    assert_eq!(kvs::crypto::charset_at(26), 'A');
    assert_eq!(kvs::crypto::charset_at(51), 'Z');
    assert_eq!(kvs::crypto::charset_at(52), '0');
    assert_eq!(kvs::crypto::charset_at(61), '9');
}

#[test]
fn file_cipher_is_deterministic() {
    let dv = generate_derivation_value();
    let iv = base64::encode(generate_initialization_vector());
    let a = file_encrypt("same".to_string(), dv.clone(), iv.clone()).unwrap();
    let b = file_encrypt("same".to_string(), dv, iv).unwrap();
    assert_eq!(a, b);
}
