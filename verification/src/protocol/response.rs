//! Decoding of engine responses into JSON replies.
//!
//! A response payload is `status_len (1) | status | field_count (2, LE) |
//! fields`, and each field is `id (2, LE) | type (1) | len (4, LE) | data`.
use crate::error::{internal_error, RZError, RZErrorView};
use crate::protocol::{
    error_body, invalid_reply, invalid_response, push_error_body, HttpReply, HttpReplyView, HTTP_BAD_REQUEST,
    HTTP_GATEWAY_TIMEOUT, HTTP_INTERNAL_SERVER_ERROR, HTTP_NOT_FOUND, HTTP_OK,
    HTTP_SERVICE_UNAVAILABLE,
};
use crate::helper::lemma_ascii_text;
use crate::text::{ascii_chars, decimal, string_from_utf8, string_from_utf8_lossy, u32_to_string_bytes, utf8_lossy};
use crate::wire::{bytes_eq, copy_range, get_u16_le, get_u32_le, push_bytes, push_str, read_u16, read_u32};
use vstd::prelude::*;
use vstd::string::StringSliceAdditionalSpecFns;
use vstd::utf8::{decode_utf8, encode_utf8, encode_utf8_decode_utf8, valid_utf8};

verus! {

/// The payload holds at least the status length, the status and the field count.
pub open spec fn header_ok(d: Seq<u8>) -> bool {
    d.len() >= 1 && d.len() >= 3 + d[0]
}

/// The status bytes of a payload.
pub open spec fn status_of(d: Seq<u8>) -> Seq<u8> {
    d.subrange(1, 1 + d[0])
}

/// The field count of a payload.
pub open spec fn count_of(d: Seq<u8>) -> int {
    read_u16(d, 1 + d[0])
}

/// Offset of the first field of a payload.
pub open spec fn fields_start(d: Seq<u8>) -> int {
    3 + d[0]
}

/// The status of a successful response.
pub open spec fn success_status() -> Seq<u8> {
    "SUCCESS".spec_bytes()
}

/// The message of a leading error field: field 1 of type 0x01 whose
/// non-empty data lies within the payload.
pub open spec fn error_field(data: Seq<u8>, field_count: int, offset: int) -> Option<Seq<u8>> {
    if field_count >= 1 && offset + 7 <= data.len() && read_u16(data, offset) == 1 && data[offset
        + 2] == 1 && offset + 7 + read_u32(data, offset + 3) <= data.len() && read_u32(
        data,
        offset + 3,
    ) > 0 {
        Some(data.subrange(offset + 7, offset + 7 + read_u32(data, offset + 3)))
    } else {
        None
    }
}

/// Known error codes become user-friendly messages; other messages are
/// decoded as UTF-8 (lossily when invalid).
pub open spec fn friendly_text(m: Seq<u8>) -> Seq<char> {
    if m == "404".spec_bytes() {
        "The requested segment was not found"@
    } else if m == "503".spec_bytes() {
        "Service is temporarily unavailable. Please try again later."@
    } else if m == "408".spec_bytes() {
        "The request timed out. Please try again."@
    } else if m == "500".spec_bytes() {
        "An internal error occurred. Please try again later."@
    } else if valid_utf8(m) {
        decode_utf8(m)
    } else {
        utf8_lossy(m)
    }
}

/// Bytes shown in place of an error message: printable ASCII only.
pub open spec fn printable() -> spec_fn(u8) -> bool {
    |b: u8| 0x20 <= b <= 0x7E
}

/// The status with every non-printable byte removed, or `UNKNOWN_ERROR`
/// when nothing is left, read as ASCII characters.
pub open spec fn fallback_text(status: Seq<u8>) -> Seq<char> {
    if status.filter(printable()).len() == 0 {
        "UNKNOWN_ERROR"@
    } else {
        ascii_chars(status.filter(printable()))
    }
}

/// The message reported for a non-success response.
pub open spec fn non_success_text(data: Seq<u8>, status: Seq<u8>, field_count: int, offset: int) -> Seq<char> {
    match error_field(data, field_count, offset) {
        Some(m) => friendly_text(m),
        None => fallback_text(status),
    }
}

/// HTTP status chosen for an error message.
pub open spec fn error_status_code(msg: Seq<char>) -> u16 {
    if msg == "The requested segment was not found"@ {
        HTTP_NOT_FOUND
    } else if msg == "Service is temporarily unavailable. Please try again later."@ {
        HTTP_SERVICE_UNAVAILABLE
    } else if msg == "The request timed out. Please try again."@ {
        HTTP_GATEWAY_TIMEOUT
    } else if msg == "An internal error occurred. Please try again later."@ {
        HTTP_INTERNAL_SERVER_ERROR
    } else {
        HTTP_BAD_REQUEST
    }
}

/// The reply to a non-success response.
pub open spec fn non_success_reply(data: Seq<u8>, status: Seq<u8>, field_count: int, offset: int) -> HttpReplyView {
    let msg = non_success_text(data, status, field_count, offset);
    HttpReplyView {
        status: error_status_code(msg),
        body: error_body(encode_utf8(msg)),
        client_error: true,
        report_sent: true,
    }
}

/// A `200` reply whose body length is counted as sent.
pub open spec fn ok_reply(body: Seq<u8>) -> HttpReplyView {
    HttpReplyView { status: HTTP_OK, body, client_error: false, report_sent: true }
}

/// Reply to a command that returns no data.
pub open spec fn simple_reply(d: Seq<u8>) -> HttpReplyView {
    if !header_ok(d) {
        invalid_reply()
    } else if status_of(d) != success_status() {
        non_success_reply(d, status_of(d), count_of(d), fields_start(d))
    } else if count_of(d) == 0 {
        ok_reply("{\"status\":\"success\"}".spec_bytes())
    } else {
        invalid_reply()
    }
}

/// The value of a successful single-`u8` response: exactly one field, with
/// id 1, type 0x02 and length 1.
pub open spec fn single_u8_field(d: Seq<u8>) -> Option<u8> {
    let off = fields_start(d);
    if count_of(d) == 1 && off + 7 <= d.len() && read_u16(d, off) == 1 && d[off + 2] == 2
        && read_u32(d, off + 3) == 1 && off + 7 < d.len() {
        Some(d[off + 7])
    } else {
        None
    }
}

/// `{"status":"success","<name>":<value>}`
pub open spec fn named_value_body(name: Seq<u8>, value: Seq<u8>) -> Seq<u8> {
    "{\"status\":\"success\",\"".spec_bytes() + name + "\":".spec_bytes() + value + "}".spec_bytes()
}

/// Reply to a command that returns a new `u8` value.
pub open spec fn scalar_u8_reply(d: Seq<u8>, name: Seq<u8>) -> HttpReplyView {
    if !header_ok(d) {
        invalid_reply()
    } else if status_of(d) != success_status() {
        non_success_reply(d, status_of(d), count_of(d), fields_start(d))
    } else {
        match single_u8_field(d) {
            Some(v) => ok_reply(named_value_body(name, decimal(v as nat))),
            None => invalid_reply(),
        }
    }
}

/// Reply to a command that returns a flag (1 = true, anything else = false).
pub open spec fn boolean_reply(d: Seq<u8>, name: Seq<u8>) -> HttpReplyView {
    if !header_ok(d) {
        invalid_reply()
    } else if status_of(d) != success_status() {
        non_success_reply(d, status_of(d), count_of(d), fields_start(d))
    } else {
        match single_u8_field(d) {
            Some(v) => ok_reply(
                named_value_body(
                    name,
                    if v == 1 {
                        "true".spec_bytes()
                    } else {
                        "false".spec_bytes()
                    },
                ),
            ),
            None => invalid_reply(),
        }
    }
}

/// Extracts the error message from a non-success response.
pub fn extract_error_message(data: &[u8], field_count: u16, offset: usize) -> (r: Result<String, RZError>)
    ensures
        match error_field(data@, field_count as int, offset as int) {
            Some(m) => r matches Ok(s) && s@ == friendly_text(m),
            None => r matches Err(e) && e@ == RZErrorView::Internal(
                "Failed to extract error message from response"@,
            ),
        },
{
    if field_count >= 1 && offset <= data.len() && data.len() - offset >= 7 {
        let field_id = get_u16_le(data, offset);
        let field_type = data[offset + 2];
        if field_id == 1 && field_type == 0x01 {
            let field_len = get_u32_le(data, offset + 3) as usize;
            let msg_offset = offset + 7;
            if field_len <= data.len() - msg_offset {
                let message = &data[msg_offset..msg_offset + field_len];
                if message.len() > 0 {
                    if bytes_eq(message, "404".as_bytes()) {
                        return Ok("The requested segment was not found".to_owned());
                    } else if bytes_eq(message, "503".as_bytes()) {
                        return Ok(
                            "Service is temporarily unavailable. Please try again later.".to_owned(),
                        );
                    } else if bytes_eq(message, "408".as_bytes()) {
                        return Ok("The request timed out. Please try again.".to_owned());
                    } else if bytes_eq(message, "500".as_bytes()) {
                        return Ok(
                            "An internal error occurred. Please try again later.".to_owned(),
                        );
                    }
                    let owned = copy_range(data, msg_offset, msg_offset + field_len);
                    match string_from_utf8(owned) {
                        Some(s) => return Ok(s),
                        None => return Ok(string_from_utf8_lossy(message)),
                    }
                }
            }
        }
    }
    Err(internal_error("Failed to extract error message from response"))
}

/// Text equality decided on the UTF-8 bytes.
fn str_matches(s: &str, lit: &str) -> (r: bool)
    ensures
        r == (s@ == lit@),
{
    let r = bytes_eq(s.as_bytes(), lit.as_bytes());
    proof {
        encode_utf8_decode_utf8(s@);
        encode_utf8_decode_utf8(lit@);
    }
    r
}

/// Handles any status other than "SUCCESS": the message of the leading error
/// field when there is one, otherwise the printable part of the status.
pub fn handle_non_success_status(data: &[u8], status: &[u8], field_count: u16, offset: usize) -> (r: HttpReply)
    ensures
        r@ == non_success_reply(data@, status@, field_count as int, offset as int),
{
    let error_msg = match extract_error_message(data, field_count, offset) {
        Ok(msg) => msg,
        Err(_) => {
            let mut clean: Vec<u8> = Vec::new();
            let mut i: usize = 0;
            while i < status.len()
                invariant
                    i <= status@.len(),
                    clean@ == status@.subrange(0, i as int).filter(printable()),
                decreases status@.len() - i,
            {
                let b = status[i];
                proof {
                    status@.subrange(0, i as int).lemma_filter_push(b, printable());
                    assert(status@.subrange(0, i + 1) =~= status@.subrange(0, i as int).push(b));
                }
                if b >= 0x20 && b <= 0x7E {
                    clean.push(b);
                }
                i = i + 1;
            }
            assert(status@.subrange(0, status@.len() as int) =~= status@);
            proof {
                assert forall|k: int| 0 <= k < clean@.len() implies #[trigger] clean@[k] < 128 by {
                    status@.lemma_filter_pred(printable(), k);
                }
            }
            if clean.len() == 0 {
                "UNKNOWN_ERROR".to_owned()
            } else {
                proof {
                    lemma_ascii_text(clean@);
                }
                string_from_utf8_lossy(clean.as_slice())
            }
        },
    };
    let msg = error_msg.as_str();
    let status_code = if str_matches(msg, "The requested segment was not found") {
        HTTP_NOT_FOUND
    } else if str_matches(msg, "Service is temporarily unavailable. Please try again later.") {
        HTTP_SERVICE_UNAVAILABLE
    } else if str_matches(msg, "The request timed out. Please try again.") {
        HTTP_GATEWAY_TIMEOUT
    } else if str_matches(msg, "An internal error occurred. Please try again later.") {
        HTTP_INTERNAL_SERVER_ERROR
    } else {
        HTTP_BAD_REQUEST
    };
    let mut json: Vec<u8> = Vec::new();
    push_error_body(&mut json, msg.as_bytes());
    HttpReply { status: status_code, body: json, client_error: true, report_sent: true }
}

/// Reads the response header: the status slice bounds and the field count,
/// or `None` when the payload is too short to hold them.
fn read_header(data: &[u8]) -> (r: Option<(usize, u16)>)
    ensures
        r is Some <==> header_ok(data@),
        r matches Some(h) ==> h.0 == data@[0] as int && h.1 as int == count_of(data@),
{
    if data.len() == 0 {
        return None;
    }
    let status_len = data[0] as usize;
    if data.len() < 1 + status_len + 2 {
        return None;
    }
    Some((status_len, get_u16_le(data, 1 + status_len)))
}

/// Decodes a simple command response: SUCCESS with no fields, or an error.
pub fn decode_simple_response(payload: &[u8]) -> (r: HttpReply)
    ensures
        r@ == simple_reply(payload@),
{
    let (status_len, field_count) = match read_header(payload) {
        Some(h) => h,
        None => return invalid_response(),
    };
    let status = &payload[1..1 + status_len];
    let offset = 1 + status_len + 2;
    if !bytes_eq(status, "SUCCESS".as_bytes()) {
        return handle_non_success_status(payload, status, field_count, offset);
    }
    if field_count == 0 {
        let mut rsp: Vec<u8> = Vec::new();
        push_str(&mut rsp, "{\"status\":\"success\"}");
        assert(rsp@ =~= "{\"status\":\"success\"}".spec_bytes());
        return HttpReply { status: HTTP_OK, body: rsp, client_error: false, report_sent: true };
    }
    invalid_response()
}

/// Reads the single `u8` field of a successful response.
fn read_single_u8(data: &[u8], offset: usize, field_count: u16) -> (r: Option<u8>)
    requires
        header_ok(data@),
        offset == fields_start(data@),
        field_count == count_of(data@),
    ensures
        r == single_u8_field(data@),
{
    if field_count != 1 {
        return None;
    }
    if data.len() - offset < 7 {
        return None;
    }
    let field_id = get_u16_le(data, offset);
    let field_type = data[offset + 2];
    if field_id != 1 || field_type != 0x02 {
        return None;
    }
    let field_len = get_u32_le(data, offset + 3);
    if field_len != 1 || offset + 7 >= data.len() {
        return None;
    }
    Some(data[offset + 7])
}

/// Appends `{"status":"success","<name>":<value>}`.
fn push_named_value(json: &mut Vec<u8>, name: &str, value: &[u8])
    ensures
        final(json)@ == old(json)@ + named_value_body(name.spec_bytes(), value@),
{
    push_str(json, "{\"status\":\"success\",\"");
    push_str(json, name);
    push_str(json, "\":");
    push_bytes(json, value);
    push_str(json, "}");
    assert(final(json)@ =~= old(json)@ + named_value_body(name.spec_bytes(), value@));
}

/// Decodes responses for commands that return a new `u8` value on success.
pub fn decode_scalar_u8_response(payload: &[u8], value_field_name: &str) -> (r: HttpReply)
    ensures
        r@ == scalar_u8_reply(payload@, value_field_name.spec_bytes()),
{
    let (status_len, field_count) = match read_header(payload) {
        Some(h) => h,
        None => return invalid_response(),
    };
    let status = &payload[1..1 + status_len];
    let offset = 1 + status_len + 2;
    if !bytes_eq(status, "SUCCESS".as_bytes()) {
        return handle_non_success_status(payload, status, field_count, offset);
    }
    let value = match read_single_u8(payload, offset, field_count) {
        Some(v) => v,
        None => return invalid_response(),
    };
    let digits = u32_to_string_bytes(value as u32);
    let mut json: Vec<u8> = Vec::new();
    push_named_value(&mut json, value_field_name, digits.as_slice());
    HttpReply { status: HTTP_OK, body: json, client_error: false, report_sent: true }
}

/// Decodes responses for commands that return a flag on success.
pub fn decode_boolean_response(payload: &[u8], field_name: &str) -> (r: HttpReply)
    ensures
        r@ == boolean_reply(payload@, field_name.spec_bytes()),
{
    let (status_len, field_count) = match read_header(payload) {
        Some(h) => h,
        None => return invalid_response(),
    };
    let status = &payload[1..1 + status_len];
    let offset = 1 + status_len + 2;
    if !bytes_eq(status, "SUCCESS".as_bytes()) {
        return handle_non_success_status(payload, status, field_count, offset);
    }
    let value = match read_single_u8(payload, offset, field_count) {
        Some(v) => v,
        None => return invalid_response(),
    };
    let word = if value == 1 {
        "true"
    } else {
        "false"
    };
    let mut json: Vec<u8> = Vec::new();
    push_named_value(&mut json, field_name, word.as_bytes());
    HttpReply { status: HTTP_OK, body: json, client_error: false, report_sent: true }
}

} // verus!

verus! {

/// An engine error becomes an error reply: a client error (400), not found
/// (404) or a server-side status (500, 503, 504), with the body
/// `{"status":"error","message":...}`, counted as a client error.
pub proof fn law_engine_errors_are_error_replies(data: Seq<u8>, status: Seq<u8>, field_count: int, offset: int)
    ensures
        ({
            let r = non_success_reply(data, status, field_count, offset);
            &&& r.status == HTTP_BAD_REQUEST || r.status == HTTP_NOT_FOUND || r.status
                == HTTP_INTERNAL_SERVER_ERROR || r.status == HTTP_SERVICE_UNAVAILABLE || r.status
                == HTTP_GATEWAY_TIMEOUT
            &&& r.body == error_body(encode_utf8(non_success_text(data, status, field_count, offset)))
            &&& r.client_error
        }),
{
}

} // verus!
