use rzgate::error::RZError;
use rzgate::protocol::response::{
    decode_boolean_response, decode_scalar_u8_response, decode_simple_response, extract_error_message,
    handle_non_success_status,
};
use rzgate::protocol::{build_error_message, error_response, invalid_response, HttpReply};

fn header(status: &str, fields: u16) -> Vec<u8> {
    let mut p = vec![status.len() as u8];
    p.extend_from_slice(status.as_bytes());
    p.extend_from_slice(&fields.to_le_bytes());
    p
}

fn field(p: &mut Vec<u8>, id: u16, kind: u8, data: &[u8]) {
    p.extend_from_slice(&id.to_le_bytes());
    p.push(kind);
    p.extend_from_slice(&(data.len() as u32).to_le_bytes());
    p.extend_from_slice(data);
}

fn body(r: &HttpReply) -> String {
    String::from_utf8(r.body.clone()).unwrap()
}

#[test]
fn simple_success() {
    let r = decode_simple_response(&header("SUCCESS", 0));
    assert_eq!(r.status, 200);
    assert_eq!(body(&r), r#"{"status":"success"}"#);
    assert!(!r.client_error);
    assert!(r.report_sent);
}

#[test]
fn simple_success_with_fields_is_invalid() {
    let r = decode_simple_response(&header("SUCCESS", 1));
    assert_eq!(r.status, 500);
    assert_eq!(body(&r), r#"{"status":"error","message":"INVALID_RESPONSE_FORMAT"}"#);
}

#[test]
fn short_payloads_are_invalid() {
    for p in [vec![], vec![7], vec![7, b'S', b'U']] {
        let r = decode_simple_response(&p);
        assert_eq!(r.status, 500);
        assert_eq!(body(&r), r#"{"status":"error","message":"INVALID_RESPONSE_FORMAT"}"#);
    }
}

#[test]
fn error_codes_become_friendly_messages() {
    let cases = [
        ("404", 404, "The requested segment was not found"),
        ("503", 503, "Service is temporarily unavailable. Please try again later."),
        ("408", 504, "The request timed out. Please try again."),
        ("500", 500, "An internal error occurred. Please try again later."),
    ];
    for (code, status, text) in cases.iter() {
        let mut p = header("ERROR", 1);
        field(&mut p, 1, 1, code.as_bytes());
        let r = decode_simple_response(&p);
        assert_eq!(r.status, *status as u16, "code {}", code);
        assert!(r.client_error);
        assert_eq!(body(&r), format!(r#"{{"status":"error","message":"{}"}}"#, text));
    }
    let mut p = header("ERROR", 1);
    field(&mut p, 1, 1, b"404");
    let r = decode_simple_response(&p);
    assert_eq!(body(&r), r#"{"status":"error","message":"The requested segment was not found"}"#);
    let mut p = header("ERROR", 1);
    field(&mut p, 1, 1, b"408");
    let r = decode_simple_response(&p);
    assert_eq!(body(&r), r#"{"status":"error","message":"The request timed out. Please try again."}"#);
}

#[test]
fn other_error_messages_pass_through() {
    let mut p = header("ERROR", 1);
    field(&mut p, 1, 1, b"property not found");
    let r = decode_simple_response(&p);
    assert_eq!(r.status, 400);
    assert_eq!(body(&r), r#"{"status":"error","message":"property not found"}"#);
    assert!(r.client_error);
    assert!(r.report_sent);
}

#[test]
fn error_without_message_uses_status() {
    let r = decode_simple_response(&header("ERROR", 0));
    assert_eq!(r.status, 400);
    assert_eq!(body(&r), r#"{"status":"error","message":"ERROR"}"#);
    let r = decode_simple_response(&header("\u{1}\u{2}", 0));
    assert_eq!(body(&r), r#"{"status":"error","message":"UNKNOWN_ERROR"}"#);
}

#[test]
fn extract_message_cases() {
    let mut p = header("ERROR", 1);
    field(&mut p, 1, 1, b"boom");
    assert_eq!(extract_error_message(&p, 1, 8).unwrap(), "boom");
    assert!(extract_error_message(&p, 0, 8).is_err());
    let mut q = header("ERROR", 1);
    field(&mut q, 2, 1, b"boom");
    assert!(extract_error_message(&q, 1, 8).is_err());
    let mut e = header("ERROR", 1);
    field(&mut e, 1, 1, b"");
    assert!(extract_error_message(&e, 1, 8).is_err());
}

#[test]
fn non_success_handler() {
    let mut p = header("ERROR", 1);
    field(&mut p, 1, 1, b"503");
    let r = handle_non_success_status(&p, b"ERROR", 1, 8);
    assert_eq!(r.status, 503);
    assert_eq!(
        body(&r),
        r#"{"status":"error","message":"Service is temporarily unavailable. Please try again later."}"#
    );
}

#[test]
fn scalar_value() {
    let mut p = header("SUCCESS", 1);
    field(&mut p, 1, 2, &[7]);
    let r = decode_scalar_u8_response(&p, "availability");
    assert_eq!(r.status, 200);
    assert_eq!(body(&r), r#"{"status":"success","availability":7}"#);
    let mut q = header("SUCCESS", 1);
    field(&mut q, 1, 3, &[7]);
    assert_eq!(decode_scalar_u8_response(&q, "availability").status, 500);
}

#[test]
fn boolean_value() {
    let mut p = header("SUCCESS", 1);
    field(&mut p, 1, 2, &[1]);
    assert_eq!(body(&decode_boolean_response(&p, "exists")), r#"{"status":"success","exists":true}"#);
    let mut q = header("SUCCESS", 1);
    field(&mut q, 1, 2, &[0]);
    assert_eq!(body(&decode_boolean_response(&q, "exists")), r#"{"status":"success","exists":false}"#);
    let mut z = header("SUCCESS", 1);
    field(&mut z, 1, 2, &[2]);
    assert_eq!(body(&decode_boolean_response(&z, "exists")), r#"{"status":"success","exists":false}"#);
}

#[test]
fn error_replies() {
    let r = error_response(RZError::Validation("room_type is required".to_string()));
    assert_eq!(r.status, 400);
    assert_eq!(body(&r), r#"{"status":"error","message":"room_type is required"}"#);
    assert!(r.client_error);
    assert!(r.report_sent);
    let r = error_response(RZError::Timeout);
    assert_eq!(r.status, 504);
    assert!(r.client_error);
    assert_eq!(body(&r), r#"{"status":"error","message":"The request took too long. Please try again."}"#);
    assert_eq!(error_response(RZError::RoomzinUnreachable("10.0.0.1".to_string())).status, 503);
    assert_eq!(error_response(RZError::Network("reset".to_string())).status, 502);
    assert_eq!(error_response(RZError::Internal("x".to_string())).status, 500);
    assert_eq!(
        build_error_message(RZError::RoomzinUnreachable("10.0.0.1".to_string())),
        "Service is temporarily unavailable. Please try again later."
    );
    assert_eq!(
        build_error_message(RZError::Network("reset".to_string())),
        "Unable to reach the service. Please check your connection and retry."
    );
    assert_eq!(
        build_error_message(RZError::Internal("x".to_string())),
        "Something went wrong on our end. Please try again later."
    );
    let r = invalid_response();
    assert_eq!(r.status, 500);
    assert!(r.client_error);
    assert!(r.report_sent);
}
