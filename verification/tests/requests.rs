use rzgate::bitmask::{set_codecs, CodecStore};
use rzgate::error::RZError;
use rzgate::protocol::fields::collect_fields;
use rzgate::protocol::Codecs;
use rzgate::request::commands::{
    build_dec_room_avl, build_del_prop, build_del_prop_day, build_del_prop_room, build_del_room_day,
    build_del_segment, build_get_prop_room_day, build_get_segments, build_inc_room_avl, build_prop_exist,
    build_prop_room_date_list, build_prop_room_exist, build_prop_room_list, build_search_avail, build_search_prop, build_set_prop,
    build_set_room_avl, build_set_room_pkg, double_within, LATITUDE_LIMIT_BITS, LONGITUDE_LIMIT_BITS,
};
use rzgate::request::dispatch::{plan_request, reply_to_answer, ReplyKind};
use rzgate::request::encode::RequestBuilder;
use rzgate::request::json::{JsonEntry, JsonNumber, JsonValue};

fn s(x: &str) -> JsonValue {
    JsonValue::Str(x.to_string())
}

fn n(x: u64) -> JsonValue {
    JsonValue::Number(JsonNumber { unsigned: Some(x), float_bits: (x as f64).to_bits() })
}

fn f(x: f64) -> JsonValue {
    JsonValue::Number(JsonNumber { unsigned: None, float_bits: x.to_bits() })
}

fn arr(items: Vec<JsonValue>) -> JsonValue {
    JsonValue::Array(items)
}

fn obj(members: Vec<(&str, JsonValue)>) -> JsonValue {
    JsonValue::Object(members.into_iter().map(|(k, v)| JsonEntry { key: k.to_string(), value: v }).collect())
}

/// The expected payload, written independently of the library.
fn payload(cmd: &str, fields: &[(u16, u8, Vec<u8>)]) -> Vec<u8> {
    let mut p = vec![cmd.len() as u8];
    p.extend_from_slice(cmd.as_bytes());
    p.extend_from_slice(&(fields.len() as u16).to_le_bytes());
    for (id, kind, data) in fields {
        p.extend_from_slice(&id.to_le_bytes());
        p.push(*kind);
        p.extend_from_slice(&(data.len() as u32).to_le_bytes());
        p.extend_from_slice(data);
    }
    p
}

fn text(id: u16, t: &str) -> (u16, u8, Vec<u8>) {
    (id, 1, t.as_bytes().to_vec())
}

fn validation(r: Result<Vec<u8>, RZError>) -> String {
    match r {
        Err(RZError::Validation(m)) => m,
        Ok(_) => panic!("expected a validation error, got a payload"),
        Err(_) => panic!("expected a validation error"),
    }
}

fn set_prop_body() -> Vec<(&'static str, JsonValue)> {
    vec![
        ("segment", s("DXB")),
        ("area", s("Downtown")),
        ("property_id", s("PROP-123")),
        ("property_type", s("HOTEL")),
        ("category", s("5_STAR")),
        ("stars", n(5)),
        ("latitude", f(25.2048)),
        ("longitude", f(55.2708)),
        ("amenities", arr(vec![s("wifi"), n(3), s("pool"), s("gym")])),
    ]
}

#[test]
fn set_prop_payload() {
    let b = obj(set_prop_body());
    let expected = payload(
        "SETPROP",
        &[
            text(1, "DXB"),
            text(2, "Downtown"),
            text(3, "PROP-123"),
            text(4, "HOTEL"),
            text(5, "5_STAR"),
            (6, 2, vec![5]),
            (7, 3, 25.2048f64.to_le_bytes().to_vec()),
            (8, 3, 55.2708f64.to_le_bytes().to_vec()),
            text(9, "wifi,pool,gym"),
        ],
    );
    assert_eq!(build_set_prop(&b).unwrap(), expected);
}

#[test]
fn set_prop_validation() {
    let cases = [
        ("segment", "segment is required"),
        ("area", "area is required"),
        ("property_id", "property_id is required"),
        ("property_type", "property_type is required"),
        ("category", "category is required"),
        ("stars", "stars must be between 1 and 5"),
        ("latitude", "latitude must be between -90 and 90"),
        ("longitude", "longitude must be between -180 and 180"),
    ];
    for (key, msg) in cases.iter() {
        let body: Vec<_> = set_prop_body().into_iter().filter(|(k, _)| k != key).collect();
        assert_eq!(validation(build_set_prop(&obj(body))), *msg);
    }
    let mut body = set_prop_body();
    body[5].1 = n(6);
    assert_eq!(validation(build_set_prop(&obj(body))), "stars must be between 1 and 5");
    let mut body = set_prop_body();
    body[6].1 = f(-90.5);
    assert_eq!(validation(build_set_prop(&obj(body))), "latitude must be between -90 and 90");
    let mut body = set_prop_body();
    body[7].1 = f(f64::NAN);
    assert_eq!(validation(build_set_prop(&obj(body))), "longitude must be between -180 and 180");
    // boundaries are accepted, amenities may be missing
    let mut body = set_prop_body();
    body[6].1 = f(-90.0);
    body[7].1 = f(180.0);
    body.pop();
    let p = build_set_prop(&obj(body)).unwrap();
    assert!(p.ends_with(&[9, 0, 1, 0, 0, 0, 0]));
}

#[test]
fn double_range_test() {
    for (x, inside) in [(0.0, true), (-0.0, true), (90.0, true), (-90.0, true), (90.000001, false),
        (f64::INFINITY, false), (f64::NEG_INFINITY, false), (f64::NAN, false), (-12.5, true)] {
        assert_eq!(double_within(f64::to_bits(x), LATITUDE_LIMIT_BITS), inside, "{}", x);
    }
    assert!(double_within(f64::to_bits(-180.0), LONGITUDE_LIMIT_BITS));
    assert!(!double_within(f64::to_bits(180.5), LONGITUDE_LIMIT_BITS));
    assert_eq!(LATITUDE_LIMIT_BITS, 90.0f64.to_bits());
    assert_eq!(LONGITUDE_LIMIT_BITS, 180.0f64.to_bits());
}

#[test]
fn keyed_commands() {
    let day = obj(vec![("property_id", s("P")), ("room_type", s("DBL")), ("date", s("2024-07-01"))]);
    let fields = [text(1, "P"), text(2, "DBL"), text(3, "2024-07-01")];
    assert_eq!(build_get_prop_room_day(&day).unwrap(), payload("GETPROPROOMDAY", &fields));
    assert_eq!(build_del_room_day(&day).unwrap(), payload("DELROOMDAY", &fields));
    assert_eq!(build_prop_room_exist(&day).unwrap(), payload("PROPROOMEXIST", &fields[..2]));
    assert_eq!(build_prop_room_date_list(&day).unwrap(), payload("PROPROOMDATELIST", &fields[..2]));
    assert_eq!(build_del_prop_room(&day).unwrap(), payload("DELPROPROOM", &fields[..2]));
    assert_eq!(build_prop_exist(&day).unwrap(), payload("PROPEXIST", &fields[..1]));
    assert_eq!(build_del_prop(&day).unwrap(), payload("DELPROP", &fields[..1]));
    assert_eq!(
        build_del_prop_day(&day).unwrap(),
        payload("DELPROPDAY", &[text(1, "P"), text(2, "2024-07-01")])
    );
    let seg = obj(vec![("segment", s("DXB"))]);
    assert_eq!(build_del_segment(&seg).unwrap(), payload("DELSEGMENT", &[text(1, "DXB")]));
    assert_eq!(validation(build_del_segment(&obj(vec![("segment", s(""))]))), "segment is required");
    assert_eq!(
        validation(build_get_prop_room_day(&obj(vec![("property_id", s("P")), ("date", s("d"))]))),
        "room_type is required"
    );
    assert_eq!(validation(build_prop_exist(&obj(vec![("property_id", n(1))]))), "property_id is required");
    assert_eq!(validation(build_prop_exist(&JsonValue::Null)), "property_id is required");
}

#[test]
fn availability_commands() {
    let b = obj(vec![("property_id", s("P")), ("room_type", s("DBL")), ("date", s("D")), ("amount", n(7))]);
    let fields = [text(1, "P"), text(2, "DBL"), text(3, "D"), (4, 2, vec![7])];
    assert_eq!(build_inc_room_avl(&b).unwrap(), payload("INCROOMAVL", &fields));
    assert_eq!(build_set_room_avl(&b).unwrap(), payload("SETROOMAVL", &fields));
    assert_eq!(build_dec_room_avl(&b).unwrap(), payload("DECROOMAVL", &fields));
    let big = obj(vec![("property_id", s("P")), ("room_type", s("DBL")), ("date", s("D")), ("amount", n(256))]);
    assert_eq!(validation(build_inc_room_avl(&big)), "amount is required and must be 0-255");
    let missing = obj(vec![("property_id", s("P")), ("room_type", s("DBL")), ("amount", n(1))]);
    assert_eq!(validation(build_inc_room_avl(&missing)), "date is required");
}

#[test]
fn set_room_pkg_optionals() {
    let b = obj(vec![
        ("property_id", s("P")),
        ("room_type", s("DBL")),
        ("date", s("D")),
        ("availability", n(300)),
        ("final_price", n(0x1_0000_0005)),
        ("rate_features", arr(vec![s("BAR"), s("NRF")])),
    ]);
    // availability above 255 is left out; the price is kept modulo 2^32
    let expected = payload(
        "SETROOMPKG",
        &[text(1, "P"), text(2, "DBL"), text(3, "D"), (5, 3, 5u32.to_le_bytes().to_vec()), text(6, "BAR,NRF")],
    );
    assert_eq!(build_set_room_pkg(&b).unwrap(), expected);
    let bare = obj(vec![("property_id", s("P")), ("room_type", s("DBL")), ("date", s("D")), ("rate_features", arr(vec![]))]);
    assert_eq!(build_set_room_pkg(&bare).unwrap(), payload("SETROOMPKG", &[text(1, "P"), text(2, "DBL"), text(3, "D")]));
}

#[test]
fn search_prop_filters() {
    let b = obj(vec![
        ("segment", s("DXB")),
        ("area", s("Downtown")),
        ("stars", n(9)),
        ("amenities", arr(vec![s("wifi")])),
        ("latitude", f(25.5)),
        ("longitude", f(200.0)),
        ("limit", n(100)),
    ]);
    let expected = payload(
        "SEARCHPROP",
        &[
            text(1, "DXB"),
            text(2, "Downtown"),
            text(6, "wifi"),
            (8, 3, 25.5f64.to_le_bytes().to_vec()),
            (9, 3, 100u64.to_le_bytes().to_vec()),
        ],
    );
    assert_eq!(build_search_prop(&b).unwrap(), expected);
    assert_eq!(validation(build_search_prop(&obj(vec![]))), "segment is required");
}

#[test]
fn search_avail_filters() {
    let b = obj(vec![
        ("segment", s("DXB")),
        ("room_type", s("DBL")),
        ("type", s("HOTEL")),
        ("stars", n(4)),
        ("longitude", f(500.0)),
        ("date", arr(vec![s("2024-07-01"), s("2024-07-02")])),
        ("availability", n(1)),
        ("final_price", n(25000)),
        ("rate_features", arr(vec![s("BAR")])),
        ("limit", n(50)),
    ]);
    let expected = payload(
        "SEARCHAVAIL",
        &[
            text(1, "DXB"),
            text(2, "DBL"),
            text(5, "HOTEL"),
            (6, 2, vec![4]),
            (9, 3, 500.0f64.to_le_bytes().to_vec()),
            text(11, "2024-07-01,2024-07-02"),
            (12, 2, vec![1]),
            (13, 3, 25000u32.to_le_bytes().to_vec()),
            text(14, "BAR"),
            (15, 3, 50u64.to_le_bytes().to_vec()),
        ],
    );
    assert_eq!(build_search_avail(&b).unwrap(), expected);
    assert_eq!(validation(build_search_avail(&obj(vec![("segment", s("DXB"))]))), "room_type is required");
}

#[test]
fn get_segments_needs_object() {
    assert_eq!(build_get_segments(&obj(vec![])).unwrap(), payload("GETSEGMENTS", &[]));
    assert_eq!(validation(build_get_segments(&JsonValue::Null)), "invalid payload");
}

#[test]
fn builder_matches_manual_encoding() {
    let mut b = RequestBuilder::new("X");
    b.add_str(1, "ab");
    b.add_u8(2, 9);
    b.add_u32(3, 0x01020304);
    b.add_u64(4, 1);
    b.add(5, 7, &[]);
    let expected = payload(
        "X",
        &[text(1, "ab"), (2, 2, vec![9]), (3, 3, vec![4, 3, 2, 1]), (4, 3, 1u64.to_le_bytes().to_vec()), (5, 7, vec![])],
    );
    assert_eq!(b.finish(), expected);
}

fn envelope(command: &str, segment: Option<&str>, body: Option<JsonValue>) -> JsonValue {
    let mut m = vec![("command", s(command))];
    if let Some(seg) = segment {
        m.push(("segment", s(seg)));
    }
    if let Some(b) = body {
        m.push(("body", b));
    }
    obj(m)
}

#[test]
fn request_routing() {
    let o = plan_request(Some(envelope("PROPEXIST", Some("DXB"), Some(obj(vec![("property_id", s("P"))]))))).unwrap();
    assert_eq!(o.segment, "DXB");
    assert!(!o.is_write);
    assert!(o.reply == ReplyKind::Exists);
    assert_eq!(o.payload, payload("PROPEXIST", &[text(1, "P")]));

    let w = plan_request(Some(envelope("DELSEGMENT", Some("x"), Some(obj(vec![("segment", s("DXB"))]))))).unwrap();
    assert!(w.is_write);
    assert!(w.reply == ReplyKind::Simple);

    let g = plan_request(Some(envelope("GETSEGMENTS", Some("x"), Some(obj(vec![]))))).unwrap();
    assert!(g.reply == ReplyKind::Segments);
    // a missing body is null
    let m = plan_request(Some(envelope("GETSEGMENTS", Some("x"), None)));
    assert!(matches!(m, Err(RZError::Validation(ref e)) if e == "invalid payload"));
}

#[test]
fn request_envelope_errors() {
    let msg = |r: Result<rzgate::request::dispatch::Outgoing, RZError>| match r {
        Err(RZError::Validation(m)) => m,
        _ => panic!("expected a validation error"),
    };
    assert_eq!(msg(plan_request(None)), "Invalid JSON");
    assert_eq!(msg(plan_request(Some(obj(vec![("segment", s("x"))])))), "Missing command field");
    assert_eq!(msg(plan_request(Some(envelope("PROPEXIST", None, None)))), "Missing segment field");
    assert_eq!(msg(plan_request(Some(envelope("NOPE", Some("x"), None)))), "unsupported command");
    assert_eq!(msg(plan_request(Some(envelope("PROPEXIST", Some("x"), None)))), "property_id is required");
}

#[test]
fn answers_become_replies() {
    let mut store = CodecStore::new();
    set_codecs(&mut store, Codecs { rate_features: vec!["BAR".to_string()] }).unwrap();
    let ok = vec![7, b'S', b'U', b'C', b'C', b'E', b'S', b'S', 0, 0];
    let r = reply_to_answer(ReplyKind::Simple, Ok(ok.clone()), &store);
    assert_eq!(r.status, 200);
    assert_eq!(r.body, br#"{"status":"success"}"#.to_vec());
    let r = reply_to_answer(ReplyKind::Segments, Ok(ok.clone()), &store);
    assert_eq!(r.body, br#"{"status":"success","segments":[]}"#.to_vec());
    let r = reply_to_answer(ReplyKind::Availabilities, Ok(ok), &store);
    assert_eq!(r.body, br#"{"status":"success","properties":[]}"#.to_vec());
    let r = reply_to_answer(ReplyKind::Simple, Err(RZError::Timeout), &store);
    assert_eq!(r.status, 504);
    assert_eq!(r.body, br#"{"status":"error","message":"The request took too long. Please try again."}"#.to_vec());
    assert!(r.client_error);
}

#[test]
fn request_fields_read_back() {
    let mut b = RequestBuilder::new("SEARCHPROP");
    b.add_str(1, "DXB");
    b.add_u8(4, 5);
    b.add_u64(9, 100);
    let p = b.finish();
    assert_eq!(p[0] as usize, "SEARCHPROP".len());
    assert_eq!(u16::from_le_bytes([p[11], p[12]]), 3);
    let (spans, end) = collect_fields(&p, 13, 3).unwrap();
    assert_eq!(end, p.len());
    let read: Vec<(u16, u8, Vec<u8>)> = spans.iter().map(|s| (s.id, s.kind, p[s.start..s.end].to_vec())).collect();
    assert_eq!(read, vec![(1, 1, b"DXB".to_vec()), (4, 2, vec![5]), (9, 3, 100u64.to_le_bytes().to_vec())]);
}

#[test]
fn search_prop_reads_type_filter() {
    let b = obj(vec![("segment", s("DXB")), ("type", s("HOTEL"))]);
    assert_eq!(build_search_prop(&b).unwrap(), payload("SEARCHPROP", &[text(1, "DXB"), text(3, "HOTEL")]));
    let other = obj(vec![("segment", s("DXB")), ("property_type", s("HOTEL"))]);
    assert_eq!(build_search_prop(&other).unwrap(), payload("SEARCHPROP", &[text(1, "DXB")]));
}

#[test]
fn prop_room_list_request_and_routing() {
    let b = obj(vec![("property_id", s("PROP-123"))]);
    assert_eq!(build_prop_room_list(&b).unwrap(), payload("PROPROOMLIST", &[text(1, "PROP-123")]));
    assert_eq!(validation(build_prop_room_list(&obj(vec![]))), "property_id is required");
    let o = plan_request(Some(envelope("PROPROOMLIST", Some("DXB"), Some(b)))).unwrap();
    assert!(!o.is_write);
    assert!(o.reply == ReplyKind::RoomTypes);
}
