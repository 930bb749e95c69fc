use rand::Rng;

use kvs::service::trim;

use kvs::validation::{
    validate_ipv4, validate_key, validate_path, validate_port, validate_value, KEY_LEN_MAX, KEY_LEN_MIN,
    VALUE_LEN_MAX, VALUE_LEN_MIN,
};

#[test]
fn input_validation_key_ok() {
    assert_eq!(validate_key("test".to_string()), true)
}

#[test]
fn input_validation_key_lower_length_boundary_ok() {
    assert_eq!(validate_key("1".to_string()), true)
}

#[test]
fn input_validation_key_lower_length_boundary_failed() {
    assert_eq!(validate_key("".to_string()), false)
}

#[test]
fn input_validation_key_upper_length_boundary_ok() {
    assert_eq!(validate_key("12345678901234567890123456789012".to_string()), true)
}

#[test]
fn input_validation_key_upper_length_boundary_failed() {
    assert_eq!(validate_key("123456789012345678901234567890123".to_string()), false)
}

#[test]
fn input_validation_key_random_string_repeated() {
    const CHARSET: &[u8] = b"abcdefghijklmnopqrstuvwxyzABCDEFGHIJKLMNOPQRSTUVWXYZ0123456789";
    let mut rng = rand::thread_rng();
    for _x in 0..10 {
        let string_len: usize = rng.gen_range(0, 50);
        let test_string: String = (0..string_len)
            .map(|_| {
                let idx = rng.gen_range(0, CHARSET.len());
                CHARSET[idx] as char
            })
            .collect();
        if string_len < KEY_LEN_MIN || string_len > KEY_LEN_MAX {
            assert_eq!(validate_key(test_string), false)
        } else {
            assert_eq!(validate_key(test_string), true)
        }
    }
}

#[test]
fn input_validation_value_lower_length_boundary_ok() {
    assert_eq!(validate_value("t".to_string(), true), true)
}

#[test]
fn input_validation_value_lower_length_boundary_failed() {
    assert_eq!(validate_value("".to_string(), true), false)
}

#[test]
fn input_validation_value_upper_length_boundary_ok() {
    let mut test: String = "".to_string();
    for _x in 0..VALUE_LEN_MAX {
        test = test + "1";
    }
    assert_eq!(validate_value(test, true), true)
}

#[test]
fn input_validation_value_upper_length_boundary_failed() {
    let mut test: String = "".to_string();
    for _x in 0..VALUE_LEN_MAX + 1 {
        test = test + "1";
    }
    assert_eq!(validate_value(test, true), false)
}

#[test]
fn input_validation_value_random_base64_string_repeated() {
    const CHARSET: &[u8] = b"abcdefghijklmnopqrstuvwxyzABCDEFGHIJKLMNOPQRSTUVWXYZ0123456789";
    let mut rng = rand::thread_rng();
    for x in 0..10 {
        println!("Base64 random string run: {}", x);
        let string_len: usize = rng.gen_range(0, VALUE_LEN_MAX + 10);
        let test_string: String = (0..string_len)
            .map(|_| {
                let idx = rng.gen_range(0, CHARSET.len());
                CHARSET[idx] as char
            })
            .collect();
        let base64_string: String = base64::encode(test_string.clone());
        let base64_string_len: usize = base64_string.len();
        if base64_string_len < VALUE_LEN_MIN || base64_string_len > VALUE_LEN_MAX {
            assert_eq!(validate_value(base64_string, true), false)
        } else {
            assert_eq!(validate_value(base64_string, true), true)
        }
    }
}

#[test]
fn value_without_length_check_is_unbounded() {
    assert!(validate_value("a".repeat(VALUE_LEN_MAX * 4), false));
    assert!(validate_value(String::new(), false));
    assert!(!validate_value("a b".to_string(), false));
    assert!(validate_value("ab+/==".to_string(), true));
    assert!(!validate_value("ab$".to_string(), true));
}

#[test]
fn key_characters() {
    assert!(validate_key("under_score_9".to_string()));
    assert!(!validate_key("dash-key".to_string()));
    assert!(!validate_key("a b".to_string()));
    assert!(!validate_key("a$b".to_string()));
}

#[test]
fn path_characters() {
    assert!(validate_path("/var/lib/kvs".to_string()));
    assert!(validate_path("C:\\data\\kvs-1.0".to_string()));
    assert!(!validate_path("/tmp/a b".to_string()));
    assert!(!validate_path("/tmp/$x".to_string()));
}

#[test]
fn input_validation_port_letters() {
    assert_eq!(validate_port("abc".to_string()), false)
}

#[test]
fn input_validation_port_negative_1() {
    assert_eq!(validate_port("-1".to_string()), false)
}

#[test]
fn input_validation_port_0() {
    assert_eq!(validate_port("0".to_string()), false)
}

#[test]
fn input_validation_port_1024() {
    assert_eq!(validate_port("1024".to_string()), true)
}

#[test]
fn input_validation_port_23000() {
    assert_eq!(validate_port("23000".to_string()), true)
}

#[test]
fn input_validation_port_65534() {
    assert_eq!(validate_port("65534".to_string()), true)
}

#[test]
fn input_validation_port_65535() {
    assert_eq!(validate_port("65535".to_string()), false)
}

#[test]
fn port_length_limits() {
    assert_eq!(validate_port("".to_string()), false);
    assert_eq!(validate_port("000001".to_string()), false);
    assert_eq!(validate_port("00001".to_string()), true);
    assert_eq!(validate_port("99999".to_string()), false);
}

#[test]
fn input_validation_ip_0_0_0_0() {
    assert_eq!(validate_ipv4("0.0.0.0".to_string()), true)
}

#[test]
fn input_validation_ip_255_255_255_255() {
    assert_eq!(validate_ipv4("255.255.255.255".to_string()), true)
}

#[test]
fn input_validation_ip_192_168_2_1() {
    assert_eq!(validate_ipv4("192.168.2.1".to_string()), true)
}

#[test]
fn input_validation_ip_10_0_0_1() {
    assert_eq!(validate_ipv4("10.0.0.1".to_string()), true)
}

#[test]
fn input_validation_ip_10_0_0_1_dot() {
    assert_eq!(validate_ipv4("10.0.0.1.".to_string()), false)
}

#[test]
fn input_validation_ip_10_0_0_() {
    assert_eq!(validate_ipv4("10.0.0.".to_string()), false)
}

#[test]
fn input_validation_ip_qwe() {
    assert_eq!(validate_ipv4("qwe".to_string()), false)
}

#[test]
fn input_validation_ip_196_168_2_256() {
    assert_eq!(validate_ipv4("192.168.2.256".to_string()), false)
}

#[test]
fn input_validation_ip_999_999_999_999() {
    assert_eq!(validate_ipv4("999.999.999.999".to_string()), false)
}

#[test]
fn input_validation_ip_256_256_256_256() {
    assert_eq!(validate_ipv4("256.256.256.256".to_string()), false)
}

#[test]
fn input_validation_ip_1() {
    assert_eq!(validate_ipv4("1".to_string()), false)
}

#[test]
fn ipv4_shape_edge_cases() {
    assert_eq!(validate_ipv4("1..2.3.4".to_string()), false);
    assert_eq!(validate_ipv4("1.2.3.4.5".to_string()), false);
    assert_eq!(validate_ipv4("1.2.3.a".to_string()), false);
    assert_eq!(validate_ipv4("001.002.003.004".to_string()), true);
    assert_eq!(validate_ipv4("0001.2.3.4".to_string()), false);
}

#[test]
fn trimming_whitespace() {
    assert_eq!(trim("testkey"), "testkey");
    assert_eq!(trim("  a b \t\n"), "a b");
    assert_eq!(trim("\u{3000}x\u{a0}"), "x");
    assert_eq!(trim(" \u{2003} "), "");
    assert_eq!(trim(""), "");
}

#[test]
fn non_ascii_digits_are_refused() {
    assert_eq!(validate_port("١٢٣".to_string()), false);
    assert_eq!(validate_ipv4("١.٢.٣.٤".to_string()), false);
}
