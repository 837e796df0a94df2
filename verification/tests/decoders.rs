use rzgate::bitmask::{set_codecs, CodecStore};
use rzgate::processor::get_codecs::{build_get_codecs_payload, codecs_from_answer, decode_get_codecs_response};
use rzgate::processor::get_prop_room_day::decode_get_prop_room_day_response;
use rzgate::processor::get_segments::decode_get_segments_response;
use rzgate::processor::prop_room_date_list::decode_prop_room_date_list_response;
use rzgate::processor::prop_room_list::decode_prop_room_list_response;
use rzgate::processor::search_avail::{decode_search_avail_response, decode_search_avail_response_in_year};
use rzgate::processor::search_prop::decode_search_prop_response;
use rzgate::protocol::{Codecs, HttpReply, ProtocolError};
use rzgate::error::RZError;

fn header(status: &str, fields: u16) -> Vec<u8> {
    let mut p = vec![status.len() as u8];
    p.extend_from_slice(status.as_bytes());
    p.extend_from_slice(&fields.to_le_bytes());
    p
}

fn field(p: &mut Vec<u8>, id: u16, kind: u8, data: &[u8]) {
    p.extend_from_slice(&id.to_le_bytes());
    p.push(kind);
    p.extend_from_slice(&(data.len() as u32).to_le_bytes());
    p.extend_from_slice(data);
}

fn body(r: &HttpReply) -> String {
    String::from_utf8(r.body.clone()).unwrap()
}

/// A 16-byte short-form property id: `head` in bytes 0..6, the 0xF0
/// marker, `tail` in bytes 7..16.
fn short_id(head: &str, tail: &str) -> Vec<u8> {
    let mut b = vec![0u8; 16];
    b[..head.len()].copy_from_slice(head.as_bytes());
    b[6] = 0xF0;
    b[7..7 + tail.len()].copy_from_slice(tail.as_bytes());
    b
}

fn store_with(names: &[&str]) -> CodecStore {
    let mut s = CodecStore::new();
    set_codecs(&mut s, Codecs { rate_features: names.iter().map(|n| n.to_string()).collect() }).unwrap();
    s
}

#[test]
fn search_prop_lists_ids() {
    let mut p = header("SUCCESS", 2);
    field(&mut p, 1, 1, &short_id("PROP", "-123"));
    let uuid = [0x55, 0x0e, 0x84, 0x00, 0xe2, 0x9b, 0x41, 0xd4, 0xa7, 0x16, 0x44, 0x66, 0x55, 0x44, 0x00, 0x00];
    field(&mut p, 2, 1, &uuid);
    let r = decode_search_prop_response(&p);
    assert_eq!(r.status, 200);
    assert_eq!(
        body(&r),
        r#"{"status":"success","properties":["PROP-123","550e8400-e29b-41d4-a716-446655440000"]}"#
    );
}

#[test]
fn search_prop_edge_cases() {
    let r = decode_search_prop_response(&header("SUCCESS", 0));
    assert_eq!(body(&r), r#"{"status":"success","properties":[]}"#);
    let mut p = header("SUCCESS", 1);
    field(&mut p, 1, 1, b"no such segment");
    let r = decode_search_prop_response(&p);
    assert_eq!(r.status, 400);
    assert_eq!(body(&r), r#"{"status":"error","message":"no such segment"}"#);
    let mut q = header("SUCCESS", 2);
    field(&mut q, 1, 1, &short_id("A", "1"));
    field(&mut q, 3, 1, &short_id("B", "2"));
    assert_eq!(decode_search_prop_response(&q).status, 500);
}

#[test]
fn date_list_is_sorted_and_skips_empty() {
    let mut p = header("SUCCESS", 4);
    field(&mut p, 1, 1, b"2024-07-03");
    field(&mut p, 2, 1, b"");
    field(&mut p, 3, 1, b"2024-07-01");
    field(&mut p, 4, 1, b"2024-07-02");
    let r = decode_prop_room_date_list_response(&p);
    assert_eq!(r.status, 200);
    assert_eq!(body(&r), r#"{"status":"success","dates":["2024-07-01","2024-07-02","2024-07-03"]}"#);
    let r = decode_prop_room_date_list_response(&header("SUCCESS", 0));
    assert_eq!(body(&r), r#"{"status":"success","dates":[]}"#);
}

#[test]
fn segments_with_counts() {
    let mut p = header("SUCCESS", 4);
    field(&mut p, 1, 1, b"DXB");
    field(&mut p, 2, 3, &12u32.to_le_bytes());
    field(&mut p, 3, 1, b"AUH");
    field(&mut p, 4, 3, &0u32.to_le_bytes());
    let r = decode_get_segments_response(&p);
    assert_eq!(r.status, 200);
    assert_eq!(
        body(&r),
        r#"{"status":"success","segments":[{"segment":"DXB","propCount":12},{"segment":"AUH","propCount":0}]}"#
    );
    let mut odd = header("SUCCESS", 1);
    field(&mut odd, 1, 1, b"DXB");
    assert_eq!(decode_get_segments_response(&odd).status, 500);
    let r = decode_get_segments_response(&header("SUCCESS", 0));
    assert_eq!(body(&r), r#"{"status":"success","segments":[]}"#);
}

#[test]
fn room_day_record() {
    let store = store_with(&["BAR", "NRF", "BB"]);
    let mut p = header("SUCCESS", 5);
    field(&mut p, 1, 1, &short_id("s1", "p1"));
    field(&mut p, 2, 1, b"2024-07-01");
    field(&mut p, 3, 2, &[4]);
    field(&mut p, 4, 3, &24000u32.to_le_bytes());
    field(&mut p, 5, 3, &0b101u32.to_le_bytes());
    let r = decode_get_prop_room_day_response(&p, &store);
    assert_eq!(r.status, 200);
    assert_eq!(
        body(&r),
        r#"{"status":"success","property_id":"s1p1","date":"2024-07-01","availability":4,"final_price":24000,"rate_feature":["BAR","BB"]}"#
    );
    // trailing bytes after the five fields are refused
    let mut q = p.clone();
    q.push(0);
    assert_eq!(decode_get_prop_room_day_response(&q, &store).status, 500);
    // rate-feature names must be known
    assert_eq!(decode_get_prop_room_day_response(&p, &CodecStore::new()).status, 500);
}

fn day(packed: u16, avail: u8, price: u32, mask: u32) -> Vec<u8> {
    let mut d = packed.to_le_bytes().to_vec();
    d.push(avail);
    d.extend_from_slice(&price.to_le_bytes());
    d.extend_from_slice(&mask.to_le_bytes());
    d
}

#[test]
fn search_avail_in_year() {
    let store = store_with(&["BAR", "NRF"]);
    let mut days = 2u16.to_le_bytes().to_vec();
    // 2024-07-01 and 2025-01-31 relative to 2024
    days.extend_from_slice(&day((6 << 5) | 0, 4, 24000, 1));
    days.extend_from_slice(&day((1 << 9) | (0 << 5) | 30, 0, 100, 0b11));
    let mut p = header("SUCCESS", 3);
    field(&mut p, 1, 2, &[0, 0]);
    field(&mut p, 2, 1, &short_id("P", "1"));
    field(&mut p, 3, 8, &days);
    let r = decode_search_avail_response_in_year(&p, &store, 2024);
    assert_eq!(r.status, 200);
    assert_eq!(
        body(&r),
        [
            r#"{"status":"success","properties":[{"property_id":"P1","days":["#,
            r#"{"date":"2024-07-01","availability":4,"final_price":24000,"rate_feature":["BAR"]},"#,
            r#"{"date":"2025-01-31","availability":0,"final_price":100,"rate_feature":["BAR","NRF"]}"#,
            r#"]}]}"#,
        ]
        .concat()
    );
}

#[test]
fn search_avail_rejects_bad_dates_and_shapes() {
    let store = store_with(&["BAR"]);
    // February 30th
    let mut days = 1u16.to_le_bytes().to_vec();
    days.extend_from_slice(&day((1 << 5) | 29, 1, 1, 0));
    let mut p = header("SUCCESS", 3);
    field(&mut p, 1, 2, &[0, 0]);
    field(&mut p, 2, 1, &short_id("P", "1"));
    field(&mut p, 3, 8, &days);
    assert_eq!(decode_search_avail_response_in_year(&p, &store, 2024).status, 500);
    // even number of fields
    let mut q = header("SUCCESS", 2);
    field(&mut q, 1, 2, &[0, 0]);
    field(&mut q, 2, 1, b"x");
    assert_eq!(decode_search_avail_response_in_year(&q, &store, 2024).status, 500);
    // no properties
    let r = decode_search_avail_response_in_year(&header("SUCCESS", 0), &store, 2024);
    assert_eq!(body(&r), r#"{"status":"success","properties":[]}"#);
    let r = decode_search_avail_response(&header("SUCCESS", 0), &store);
    assert_eq!(body(&r), r#"{"status":"success","properties":[]}"#);
}

#[test]
fn codecs_payload_and_decoding() {
    let mut expected = vec![9u8];
    expected.extend_from_slice(b"GETCODECS");
    expected.extend_from_slice(&[0, 0]);
    assert_eq!(build_get_codecs_payload(), expected);

    let mut p = header("SUCCESS", 1);
    field(&mut p, 1, 9, b"BAR, NRF,,BB ");
    let c = decode_get_codecs_response(&p).unwrap();
    assert_eq!(c.rate_features, vec!["BAR", "NRF", "BB"]);

    let mut wrong = header("SUCCESS", 1);
    field(&mut wrong, 1, 3, b"BAR");
    match decode_get_codecs_response(&wrong) {
        Err(ProtocolError::InvalidResponse(m)) => assert_eq!(m, "expected field type 0x09, got 0x03"),
        _ => panic!("expected an invalid response"),
    }
    match decode_get_codecs_response(&[]) {
        Err(ProtocolError::InvalidResponse(m)) => assert_eq!(m, "empty payload for GETCODECS"),
        _ => panic!("expected an invalid response"),
    }
    match codecs_from_answer(Ok(vec![])) {
        Err(RZError::Internal(m)) => assert_eq!(m, "invalid response: empty payload for GETCODECS"),
        _ => panic!("expected an internal error"),
    }
    assert!(matches!(codecs_from_answer(Err(RZError::Timeout)), Err(RZError::Timeout)));
    assert_eq!(codecs_from_answer(Ok(p)).unwrap().rate_features, vec!["BAR", "NRF", "BB"]);
}

#[test]
fn prop_room_list_replies() {
    let mut p = header("SUCCESS", 3);
    field(&mut p, 1, 1, b"DBL");
    field(&mut p, 2, 1, b"KNG");
    field(&mut p, 3, 1, b"SUI");
    let r = decode_prop_room_list_response(&p);
    assert_eq!(r.status, 200);
    assert_eq!(body(&r), r#"{"status":"success","room_types":["DBL","KNG","SUI"]}"#);
    assert!(r.report_sent);
    assert!(!r.client_error);
    let empty = decode_prop_room_list_response(&header("SUCCESS", 0));
    assert_eq!(body(&empty), r#"{"status":"success","room_types":[]}"#);
    let mut bad = header("SUCCESS", 2);
    field(&mut bad, 1, 1, b"DBL");
    field(&mut bad, 3, 1, b"KNG");
    let r = decode_prop_room_list_response(&bad);
    assert_eq!(r.status, 500);
    assert!(r.client_error);
    let mut nf = header("NOT_FOUND", 1);
    field(&mut nf, 1, 1, b"404");
    let r = decode_prop_room_list_response(&nf);
    assert_eq!(r.status, 404);
}

#[test]
fn success_lists_count_bytes_sent() {
    let r = decode_get_segments_response(&header("SUCCESS", 0));
    assert!(r.report_sent);
    let mut p = header("SUCCESS", 2);
    field(&mut p, 1, 1, &short_id("AB", "C"));
    field(&mut p, 2, 1, &short_id("DE", "F"));
    assert!(decode_search_prop_response(&p).report_sent);
    let mut e = header("SUCCESS", 1);
    field(&mut e, 1, 1, b"bad filter");
    let r = decode_search_prop_response(&e);
    assert_eq!(r.status, 400);
    assert!(r.client_error);
    assert!(r.report_sent);
}
