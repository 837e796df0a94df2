use rzgate::text::{decimal_bytes, str_trim};
use rzgate::bitmask::{get_codecs, get_rate_features, set_codecs, CodecStore};
use rzgate::error::RZError;
use rzgate::helper::{
    bitmask_to_rate_feature_strings, bytes_to_property_id, current_utc_year, u16_to_date, u16_to_date_in_year,
    write_packed_date_in_year, write_quoted_property_id, write_rate_features_array,
    write_u32_four_digits, write_u32_two_digits,
};
use rzgate::protocol::Codecs;

fn store_with(names: &[&str]) -> CodecStore {
    let mut s = CodecStore::new();
    set_codecs(&mut s, Codecs { rate_features: names.iter().map(|n| n.to_string()).collect() }).unwrap();
    s
}

#[test]
fn codecs_are_set_once() {
    let mut s = CodecStore::new();
    match get_rate_features(&s) {
        Err(RZError::Validation(m)) => assert_eq!(m, "RATE_FEATURES not initialized"),
        _ => panic!("expected a validation error"),
    }
    assert!(get_codecs(&s).rate_features.is_empty());
    set_codecs(&mut s, Codecs { rate_features: vec!["BAR".to_string()] }).unwrap();
    assert!(set_codecs(&mut s, Codecs { rate_features: vec!["NRF".to_string()] }).is_err());
    assert_eq!(get_rate_features(&s).unwrap(), &vec!["BAR".to_string()]);
    assert_eq!(get_codecs(&s).rate_features, vec!["BAR".to_string()]);
}

#[test]
fn mask_to_names() {
    let s = store_with(&["BAR", "NRF", "BB", "HB"]);
    assert_eq!(bitmask_to_rate_feature_strings(&s, 0b1010).unwrap(), vec!["NRF", "HB"]);
    assert_eq!(bitmask_to_rate_feature_strings(&s, 0).unwrap(), Vec::<String>::new());
    // bits beyond the known names select nothing
    assert_eq!(bitmask_to_rate_feature_strings(&s, 1 << 20).unwrap(), Vec::<String>::new());
    assert!(bitmask_to_rate_feature_strings(&CodecStore::new(), 1).is_err());
}

#[test]
fn rate_features_array() {
    let s = store_with(&["BAR", "NRF", "BB"]);
    let mut json = b"x".to_vec();
    write_rate_features_array(&mut json, &s, 0b110);
    assert_eq!(String::from_utf8(json).unwrap(), r#"x"rate_feature":["NRF","BB"]"#);
    let mut empty = Vec::new();
    write_rate_features_array(&mut empty, &CodecStore::new(), 0b110);
    assert_eq!(String::from_utf8(empty).unwrap(), r#""rate_feature":[]"#);
}

#[test]
fn property_ids() {
    let mut short = vec![0u8; 16];
    short[..4].copy_from_slice(b"PROP");
    short[6] = 0xF0;
    short[7..11].copy_from_slice(b"-123");
    assert_eq!(bytes_to_property_id(&short), "PROP-123");
    let mut json = Vec::new();
    write_quoted_property_id(&mut json, &short).unwrap();
    assert_eq!(json, b"\"PROP-123\"".to_vec());

    let uuid = [0x55, 0x0e, 0x84, 0x00, 0xe2, 0x9b, 0x41, 0xd4, 0xa7, 0x16, 0x44, 0x66, 0x55, 0x44, 0x00, 0x00];
    assert_eq!(bytes_to_property_id(&uuid), "550e8400-e29b-41d4-a716-446655440000");
    let mut json = Vec::new();
    write_quoted_property_id(&mut json, &uuid).unwrap();
    assert_eq!(json, b"\"550e8400-e29b-41d4-a716-446655440000\"".to_vec());

    // too short, or an unknown marker: empty id
    assert_eq!(bytes_to_property_id(&[1, 2, 3]), "");
    let mut unknown = uuid;
    unknown[6] = 0x91;
    assert_eq!(bytes_to_property_id(&unknown), "");
    let mut json = Vec::new();
    write_quoted_property_id(&mut json, &unknown).unwrap();
    assert_eq!(json, b"\"\"".to_vec());
}

#[test]
fn digits() {
    let mut b = Vec::new();
    write_u32_four_digits(&mut b, 7);
    write_u32_two_digits(&mut b, 5);
    write_u32_two_digits(&mut b, 42);
    write_u32_four_digits(&mut b, 2024);
    assert_eq!(b, b"000705422024".to_vec());
}

#[test]
fn packed_dates() {
    // year offset 1, month 2 (stored 1), day 29 (stored 28): leap year 2024
    let p = (1 << 9) | (1 << 5) | 28;
    assert_eq!(u16_to_date_in_year(p, 2023).unwrap(), "2024-02-29");
    assert!(u16_to_date_in_year(p, 2024).is_err());
    let mut json = Vec::new();
    write_packed_date_in_year(&mut json, (6 << 5) | 0, 2024).unwrap();
    assert_eq!(json, b"2024-07-01".to_vec());
    // month 13 is out of range, nothing is written
    let mut json = Vec::new();
    match write_packed_date_in_year(&mut json, 12 << 5, 2024) {
        Err(RZError::Validation(m)) => assert_eq!(m, "invalid packed date: month/day out of range"),
        _ => panic!("expected a validation error"),
    }
    assert!(json.is_empty());
    match write_packed_date_in_year(&mut json, (3 << 5) | 30, 2024) {
        Err(RZError::Validation(m)) => assert_eq!(m, "invalid packed date"),
        _ => panic!("expected a validation error"),
    }
    assert!(json.is_empty());
    assert!(u16_to_date(0).is_ok());
    assert!(u16_to_date(0).unwrap().ends_with("-01-01"));
}

#[test]
fn packed_dates_follow_the_target_year() {
    // base year 9995, offset 0: 1 January 9995 is written
    let mut json = Vec::new();
    write_packed_date_in_year(&mut json, 0, 9995).unwrap();
    assert_eq!(json, b"9995-01-01".to_vec());
    assert_eq!(u16_to_date_in_year(0, 9995).unwrap(), "9995-01-01");
    // a year past 9999 is refused by the four-digit writer
    let mut json = Vec::new();
    assert!(write_packed_date_in_year(&mut json, 1 << 9, 9999).is_err());
    assert!(json.is_empty());
    // chrono renders such years with a sign
    assert_eq!(u16_to_date_in_year(1 << 9, 9999).unwrap(), "+10000-01-01");
    assert_eq!(u16_to_date_in_year(0, 123456).unwrap(), "+123456-01-01");
    assert_eq!(u16_to_date_in_year(0, -1).unwrap(), "-0001-01-01");
    assert_eq!(u16_to_date_in_year(0, 812).unwrap(), "0812-01-01");
    assert!(u16_to_date_in_year(0, 262143).is_err());
}

#[test]
fn trimming_white_space() {
    assert_eq!(str_trim("  a b\t\n"), "a b");
    assert_eq!(str_trim("\u{3000}x\u{a0}"), "x");
    assert_eq!(str_trim("   "), "");
    assert_eq!(str_trim(""), "");
}

#[test]
fn decimal_rendering() {
    assert_eq!(decimal_bytes(0), b"0".to_vec());
    assert_eq!(decimal_bytes(7), b"7".to_vec());
    assert_eq!(decimal_bytes(1234567890), b"1234567890".to_vec());
    assert_eq!(decimal_bytes(u64::MAX), u64::MAX.to_string().into_bytes());
}

#[test]
fn clock_year() {
    let y = current_utc_year().unwrap();
    assert!(y >= 2024 && y <= 262142);
}
