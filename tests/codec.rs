use modlist::codec::{compose_id, decimal_string, encode_id, get_id, get_name, parse_decimal};
use modlist::ModError;

#[test]
fn get_id_reads_numeric_prefix() {
    assert_eq!(get_id("100_test"), Ok(100));
    assert_eq!(get_id("42"), Ok(42));
    assert_eq!(get_id("7_a_b_c"), Ok(7));
    assert_eq!(get_id("+7_x"), Ok(7));
    assert_eq!(get_id("4294967295_max"), Ok(4294967295));
}

#[test]
fn get_id_rejects_malformed() {
    assert_eq!(get_id("abc_x"), Err(ModError::MalformedIdentifier));
    assert_eq!(get_id("_x"), Err(ModError::MalformedIdentifier));
    assert_eq!(get_id(""), Err(ModError::MalformedIdentifier));
    assert_eq!(get_id("4294967296_x"), Err(ModError::MalformedIdentifier));
    assert_eq!(get_id("12a_x"), Err(ModError::MalformedIdentifier));
    assert_eq!(get_id("+_x"), Err(ModError::MalformedIdentifier));
}

#[test]
fn get_name_keeps_label_after_first_separator() {
    assert_eq!(get_name("10_main-file"), "main-file");
    assert_eq!(get_name("1_a_b"), "a_b");
    assert_eq!(get_name("abc"), "");
    assert_eq!(get_name("5_"), "");
}

#[test]
fn parse_decimal_cases() {
    assert_eq!(parse_decimal("0"), Some(0));
    assert_eq!(parse_decimal("00012"), Some(12));
    assert_eq!(parse_decimal("-1"), None);
    assert_eq!(parse_decimal(" 1"), None);
}

#[test]
fn decimal_string_cases() {
    assert_eq!(decimal_string(0), "0");
    assert_eq!(decimal_string(10), "10");
    assert_eq!(decimal_string(4294967295), "4294967295");
}

#[test]
fn compose_id_joins_with_separator() {
    assert_eq!(compose_id(200, "cool-mod"), "200_cool-mod");
}

#[test]
fn encode_id_slugs_label() {
    assert_eq!(encode_id(10, "Main File"), "10_main-file");
    assert_eq!(encode_id(0, "My Test String!!!1!1"), "0_my-test-string-1-1");
    assert_eq!(encode_id(3, "  --test_-_cool"), "3_test-cool");
    assert_eq!(encode_id(9, ""), "9_");
}

#[test]
fn encode_then_decode_gives_id_back() {
    for (id, label) in [(0u32, "x"), (100, "A_B c"), (4294967295, "Ünïcode ☃"), (55, "")] {
        assert_eq!(get_id(&encode_id(id, label)), Ok(id));
    }
}

#[test]
fn encode_is_path_safe_and_idempotent() {
    for (id, label) in [(1u32, "Hello / World?"), (2, "a\\b:c*d"), (3, "SkyUI_5_2SE")] {
        let token = encode_id(id, label);
        assert!(token
            .chars()
            .all(|c| c.is_ascii_lowercase() || c.is_ascii_digit() || c == '-' || c == '_'));
        assert_eq!(encode_id(id, &get_name(&token)), token);
    }
}
