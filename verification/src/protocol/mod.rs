//! Binary framing towards the engine and the JSON error replies towards
//! HTTP clients.
pub mod fields;
pub mod response;

use crate::error::{RZError, RZErrorView};
use crate::wire::{
    copy_range, get_u16_le, get_u32_le, lemma_u32_le_roundtrip, push_bytes, push_str, push_u32_le,
    read_u16, read_u32, u32_le,
};
use vstd::utf8::encode_utf8;
use vstd::prelude::*;
use vstd::string::StringSliceAdditionalSpecFns;

verus! {

pub const STATUS_KEY: &'static str = "\"status\":";

pub const MESSAGE_KEY: &'static str = "\"message\":";

pub const ERROR_VALUE: &'static str = "\"error\"";

pub const SUCCESS_VALUE: &'static str = "\"success\"";

/// First byte of a shard frame.
pub const SHARD_MAGIC: u8 = 0xFF;

/// First byte of a router frame.
pub const ROUTER_MAGIC: u8 = 0xFE;

/// Special control segment used for application-level keepalives.
pub const KEEPALIVE_SEGMENT: &'static str = "__keepalive__";

/// HTTP status codes the gateway answers with.
pub const HTTP_OK: u16 = 200;

pub const HTTP_BAD_REQUEST: u16 = 400;

pub const HTTP_NOT_FOUND: u16 = 404;

pub const HTTP_INTERNAL_SERVER_ERROR: u16 = 500;

pub const HTTP_BAD_GATEWAY: u16 = 502;

pub const HTTP_SERVICE_UNAVAILABLE: u16 = 503;

pub const HTTP_GATEWAY_TIMEOUT: u16 = 504;

/// Errors met while reading frames from the engine.
#[derive(Debug)]
pub enum ProtocolError {
    ShortFrame,
    MissingMagic(u8),
    ShortPayload(String),
    ExtraBytes(usize),
    InvalidUtf8,
    InvalidResponse(String),
}

/// Abstract view of [`ProtocolError`].
pub enum ProtocolErrorView {
    ShortFrame,
    MissingMagic(u8),
    ShortPayload(Seq<char>),
    ExtraBytes(usize),
    InvalidUtf8,
    InvalidResponse(Seq<char>),
}

impl View for ProtocolError {
    type V = ProtocolErrorView;

    open spec fn view(&self) -> ProtocolErrorView {
        match self {
            ProtocolError::ShortFrame => ProtocolErrorView::ShortFrame,
            ProtocolError::MissingMagic(b) => ProtocolErrorView::MissingMagic(*b),
            ProtocolError::ShortPayload(m) => ProtocolErrorView::ShortPayload(m@),
            ProtocolError::ExtraBytes(n) => ProtocolErrorView::ExtraBytes(*n),
            ProtocolError::InvalidUtf8 => ProtocolErrorView::InvalidUtf8,
            ProtocolError::InvalidResponse(m) => ProtocolErrorView::InvalidResponse(m@),
        }
    }
}

/// The decoded fixed part of a response frame.
#[derive(Clone, Copy, Debug)]
pub struct Header {
    pub clr_id: u32,
    /// Length of the status string ("SUCCESS" or "ERROR").
    pub status_len: u8,
    /// Number of fields that follow the status.
    pub field_cnt: u16,
}

/// One field of a payload.
#[derive(Debug)]
pub struct Field {
    pub id: u16,
    pub field_type: u8,
    pub data: Vec<u8>,
}

/// Codec tables announced by the engine.
#[derive(Debug)]
pub struct Codecs {
    pub rate_features: Vec<String>,
}

/// A shard frame: magic, client id, payload length, payload.
pub open spec fn shard_frame(clrid: u32, payload: Seq<u8>) -> Seq<u8> {
    seq![SHARD_MAGIC] + u32_le(clrid as int) + u32_le((payload.len() % 4294967296) as int) + payload
}

/// A router frame: magic, length of the rest, segment length, segment,
/// write flag, then the shard frame.
pub open spec fn router_frame(segment: Seq<u8>, is_write: bool, clrid: u32, payload: Seq<u8>) -> Seq<u8> {
    seq![ROUTER_MAGIC] + u32_le((segment.len() + 11 + payload.len()) as int) + seq![(segment.len() % 256) as u8]
        + segment + seq![if is_write { 1u8 } else { 0u8 }] + shard_frame(clrid, payload)
}

/// Build a router-level keepalive frame (segment = "__keepalive__").
/// clrid can be 0 – it is a control message, not demuxed.
pub fn build_keepalive_frame() -> (r: Vec<u8>)
    ensures
        r@ == router_frame(KEEPALIVE_SEGMENT.spec_bytes(), false, 0, Seq::empty()),
{
    let segment = KEEPALIVE_SEGMENT.as_bytes();
    proof {
        reveal_strlit("__keepalive__");
        assert(vstd::string::is_ascii(KEEPALIVE_SEGMENT));
    }
    assert(segment@.len() == 13);
    let seg_len = segment.len() as u8;
    let total_len = 1 + segment.len() + 1 + 9;
    let mut buf: Vec<u8> = Vec::with_capacity(5 + total_len);
    buf.push(ROUTER_MAGIC);
    push_u32_le(&mut buf, total_len as u32);
    buf.push(seg_len);
    push_bytes(&mut buf, segment);
    buf.push(0x00);
    buf.push(SHARD_MAGIC);
    push_u32_le(&mut buf, 0);
    push_u32_le(&mut buf, 0);
    assert(buf@ =~= router_frame(KEEPALIVE_SEGMENT.spec_bytes(), false, 0, Seq::empty()));
    buf
}

/// Wraps a payload in a shard frame.
pub fn prepend_header(clrid: u32, payload: &[u8]) -> (r: Vec<u8>)
    ensures
        r@ == shard_frame(clrid, payload@),
{
    let n = payload.len();
    #[verifier::truncate]
    let total_len = n as u32;
    assert((n as u64 % 4294967296) as u32 == total_len) by (bit_vector)
        requires total_len == n as u32;
    let mut out: Vec<u8> = Vec::with_capacity(9 + payload.len() % 1024);
    out.push(SHARD_MAGIC);
    push_u32_le(&mut out, clrid);
    push_u32_le(&mut out, total_len);
    push_bytes(&mut out, payload);
    assert(total_len as int == payload@.len() % 4294967296);
    assert(out@ =~= shard_frame(clrid, payload@));
    out
}

/// Builds a router frame for cluster mode
/// | routerMagic(1) | totalLen(4) | segmentLen(1) | segment(n) | isWrite(1) | shardFrame |
/// where shardFrame is the output of prepend_header.
pub fn prepend_router_header(segment: &str, is_write: bool, clrid: u32, payload: &[u8]) -> (r: Vec<u8>)
    requires
        segment.spec_bytes().len() + payload@.len() + 11 <= u32::MAX,
    ensures
        r@ == router_frame(segment.spec_bytes(), is_write, clrid, payload@),
{
    let seg = segment.as_bytes();
    let shard_total_len = payload.len() as u32;
    let shard_frame_len = 9 + shard_total_len;
    let segment_len = seg.len() as u32;
    let router_header_len = 1 + segment_len + 1;
    let mut out: Vec<u8> = Vec::with_capacity((router_header_len + shard_frame_len) as usize);
    out.push(ROUTER_MAGIC);
    push_u32_le(&mut out, router_header_len + shard_frame_len);
    #[verifier::truncate]
    let seg_len_byte = segment_len as u8;
    assert(seg_len_byte == (segment_len % 256) as u8) by (bit_vector)
        requires seg_len_byte == segment_len as u8;
    out.push(seg_len_byte);
    push_bytes(&mut out, seg);
    out.push(if is_write { 0x01 } else { 0x00 });
    let ghost head = out@;
    assert(head =~= seq![ROUTER_MAGIC] + u32_le((seg@.len() + 11 + payload@.len()) as int) + seq![
        (seg@.len() % 256) as u8,
    ] + seg@ + seq![if is_write { 1u8 } else { 0u8 }]);
    let shard = prepend_header(clrid, payload);
    push_bytes(&mut out, shard.as_slice());
    assert(out@ =~= head + shard_frame(clrid, payload@));
    out
}

/// Outcome of looking for one complete frame at the start of a buffer.
#[derive(Debug)]
pub enum FrameStep {
    /// More bytes must be read before a decision can be made.
    NeedMore,
    /// The frame is malformed; `consumed` bytes must be dropped from the buffer.
    Failed { consumed: usize, error: ProtocolError },
    /// A complete frame; `consumed` bytes (header and payload) must be dropped.
    Ready { consumed: usize, header: Header, payload: Vec<u8> },
}

/// Abstract view of [`FrameStep`].
pub enum FrameStepView {
    NeedMore,
    Failed(nat, ProtocolErrorView),
    Ready(nat, Header, Seq<u8>),
}

impl View for FrameStep {
    type V = FrameStepView;

    open spec fn view(&self) -> FrameStepView {
        match self {
            FrameStep::NeedMore => FrameStepView::NeedMore,
            FrameStep::Failed { consumed, error } => FrameStepView::Failed(*consumed as nat, error@),
            FrameStep::Ready { consumed, header, payload } => FrameStepView::Ready(
                *consumed as nat,
                *header,
                payload@,
            ),
        }
    }
}

/// What the reader does with the bytes `b` received so far: a 9-byte
/// header (magic, client id, payload length), then the payload, whose
/// first byte is the status length and which must hold the 2-byte field
/// count after the status.
pub open spec fn frame_step_of(b: Seq<u8>) -> FrameStepView {
    if b.len() < 9 {
        FrameStepView::NeedMore
    } else if b[0] != SHARD_MAGIC {
        FrameStepView::Failed(0, ProtocolErrorView::MissingMagic(b[0]))
    } else if b.len() < 9 + read_u32(b, 5) {
        FrameStepView::NeedMore
    } else {
        let plen = read_u32(b, 5);
        let p = b.subrange(9, 9 + plen);
        if plen == 0 {
            FrameStepView::Failed((9 + plen) as nat, ProtocolErrorView::ShortPayload("empty payload"@))
        } else if plen < 3 + p[0] {
            FrameStepView::Failed(
                (9 + plen) as nat,
                ProtocolErrorView::ShortPayload("missing field count"@),
            )
        } else {
            FrameStepView::Ready(
                (9 + plen) as nat,
                Header {
                    clr_id: read_u32(b, 1) as u32,
                    status_len: p[0],
                    field_cnt: read_u16(p, 1 + p[0]) as u16,
                },
                p,
            )
        }
    }
}

/// Looks for one complete response frame at the start of `buf`.
pub fn parse_frame(buf: &[u8]) -> (r: FrameStep)
    ensures
        r@ == frame_step_of(buf@),
{
    if buf.len() < 9 {
        return FrameStep::NeedMore;
    }
    if buf[0] != SHARD_MAGIC {
        return FrameStep::Failed { consumed: 0, error: ProtocolError::MissingMagic(buf[0]) };
    }
    let clr_id = get_u32_le(buf, 1);
    let payload_len = get_u32_le(buf, 5) as usize;
    if buf.len() - 9 < payload_len {
        return FrameStep::NeedMore;
    }
    let consumed = 9 + payload_len;
    let payload = copy_range(buf, 9, consumed);
    if payload.len() == 0 {
        return FrameStep::Failed {
            consumed,
            error: ProtocolError::ShortPayload("empty payload".to_owned()),
        };
    }
    let status_len = payload[0] as usize;
    if payload.len() < 1 + status_len + 2 {
        return FrameStep::Failed {
            consumed,
            error: ProtocolError::ShortPayload("missing field count".to_owned()),
        };
    }
    let field_cnt = get_u16_le(payload.as_slice(), 1 + status_len);
    let header = Header { clr_id, status_len: payload[0], field_cnt };
    FrameStep::Ready { consumed, header, payload }
}

/// Byte-level layout of a shard frame.
proof fn lemma_shard_frame_layout(clrid: u32, payload: Seq<u8>)
    requires
        payload.len() < 4294967296,
    ensures
        shard_frame(clrid, payload).len() == 9 + payload.len(),
        shard_frame(clrid, payload)[0] == SHARD_MAGIC,
        read_u32(shard_frame(clrid, payload), 1) == clrid as int,
        read_u32(shard_frame(clrid, payload), 5) == payload.len(),
        shard_frame(clrid, payload).subrange(9, 9 + payload.len() as int) == payload,
{
    let f = shard_frame(clrid, payload);
    let a = u32_le(clrid as int);
    let l = u32_le(payload.len() as int);
    lemma_u32_le_roundtrip(clrid as int);
    lemma_u32_le_roundtrip(payload.len() as int);
    assert(f =~= seq![SHARD_MAGIC] + a + l + payload);
    assert(f[1] == a[0] && f[2] == a[1] && f[3] == a[2] && f[4] == a[3]);
    assert(f[5] == l[0] && f[6] == l[1] && f[7] == l[2] && f[8] == l[3]);
    assert(f.subrange(9, 9 + payload.len() as int) =~= payload);
}

/// Reading back what `prepend_header` wrote: a shard frame around a
/// well-formed payload (status length byte, status, field count), followed by
/// any further bytes, is recognised as one complete frame that yields exactly
/// that client id and payload and consumes exactly the frame.
pub proof fn law_frame_roundtrip(clrid: u32, payload: Seq<u8>, rest: Seq<u8>)
    requires
        payload.len() < 4294967296,
        payload.len() >= 3 + payload[0],
    ensures
        frame_step_of(shard_frame(clrid, payload) + rest) == FrameStepView::Ready(
            (9 + payload.len()) as nat,
            Header {
                clr_id: clrid,
                status_len: payload[0],
                field_cnt: read_u16(payload, 1 + payload[0]) as u16,
            },
            payload,
        ),
{
    let f = shard_frame(clrid, payload);
    let b = f + rest;
    lemma_shard_frame_layout(clrid, payload);
    assert(b[0] == f[0]);
    assert(b[1] == f[1] && b[2] == f[2] && b[3] == f[3] && b[4] == f[4]);
    assert(b[5] == f[5] && b[6] == f[6] && b[7] == f[7] && b[8] == f[8]);
    assert(b.subrange(9, 9 + payload.len() as int) =~= f.subrange(9, 9 + payload.len() as int));
}

/// A reader never acts on an unfinished frame: every strict prefix of a
/// shard frame asks for more bytes.
pub proof fn law_frame_prefix_needs_more(clrid: u32, payload: Seq<u8>, n: int)
    requires
        payload.len() < 4294967296,
        0 <= n < 9 + payload.len(),
    ensures
        frame_step_of(shard_frame(clrid, payload).subrange(0, n)) == FrameStepView::NeedMore,
{
    let f = shard_frame(clrid, payload);
    let b = f.subrange(0, n);
    lemma_shard_frame_layout(clrid, payload);
    if n >= 9 {
        assert(b[0] == f[0]);
        assert(b[5] == f[5] && b[6] == f[6] && b[7] == f[7] && b[8] == f[8]);
    }
}

/// The reply sent back to an HTTP client, with the metric updates it causes.
#[derive(Debug)]
pub struct HttpReply {
    /// HTTP status code; the content type is always `application/json`.
    pub status: u16,
    /// JSON body.
    pub body: Vec<u8>,
    /// The reply counts as a client error.
    pub client_error: bool,
    /// The body length is added to the sent-bytes counter.
    pub report_sent: bool,
}

/// Abstract view of [`HttpReply`].
pub struct HttpReplyView {
    pub status: u16,
    pub body: Seq<u8>,
    pub client_error: bool,
    pub report_sent: bool,
}

impl View for HttpReply {
    type V = HttpReplyView;

    open spec fn view(&self) -> HttpReplyView {
        HttpReplyView {
            status: self.status,
            body: self.body@,
            client_error: self.client_error,
            report_sent: self.report_sent,
        }
    }
}

/// `{"status":"error","message":"<msg>"}`
pub open spec fn error_body(msg: Seq<u8>) -> Seq<u8> {
    "{\"status\":\"error\",\"message\":\"".spec_bytes() + msg + "\"}".spec_bytes()
}

/// The reply to a response that does not follow the protocol.
pub open spec fn invalid_reply() -> HttpReplyView {
    HttpReplyView {
        status: HTTP_INTERNAL_SERVER_ERROR,
        body: "{\"status\":\"error\",\"message\":\"INVALID_RESPONSE_FORMAT\"}".spec_bytes(),
        client_error: true,
        report_sent: true,
    }
}

/// The message shown to the client for an error: validation messages are
/// passed through, upstream and system errors get a generic text.
pub open spec fn error_message_text(e: RZErrorView) -> Seq<char> {
    match e {
        RZErrorView::Validation(msg) => msg,
        RZErrorView::RoomzinUnreachable(_) => "Service is temporarily unavailable. Please try again later."@,
        RZErrorView::Network(_) => "Unable to reach the service. Please check your connection and retry."@,
        RZErrorView::Timeout => "The request took too long. Please try again."@,
        RZErrorView::Internal(_) => "Something went wrong on our end. Please try again later."@,
    }
}

/// The message shown to the client for an error.
pub fn build_error_message(error: RZError) -> (r: String)
    ensures
        r@ == error_message_text(error@),
{
    match error {
        RZError::Validation(msg) => msg,
        RZError::RoomzinUnreachable(_) => {
            "Service is temporarily unavailable. Please try again later.".to_owned()
        },
        RZError::Network(_) => {
            "Unable to reach the service. Please check your connection and retry.".to_owned()
        },
        RZError::Timeout => "The request took too long. Please try again.".to_owned(),
        RZError::Internal(_) => "Something went wrong on our end. Please try again later.".to_owned(),
    }
}

/// Appends `{"status":"error","message":"<msg>"}`.
pub fn push_error_body(json: &mut Vec<u8>, msg: &[u8])
    ensures
        final(json)@ == old(json)@ + error_body(msg@),
{
    push_str(json, "{\"status\":\"error\",\"message\":\"");
    push_bytes(json, msg);
    push_str(json, "\"}");
    assert(final(json)@ =~= old(json)@ + error_body(msg@));
}

/// The HTTP status for an error: `400` for a client mistake, `5xx` for a
/// failure on the server side (`503` engine unreachable, `502` network
/// failure, `504` timeout, `500` internal error).
pub open spec fn error_status(e: RZErrorView) -> u16 {
    match e {
        RZErrorView::Validation(_) => HTTP_BAD_REQUEST,
        RZErrorView::RoomzinUnreachable(_) => HTTP_SERVICE_UNAVAILABLE,
        RZErrorView::Network(_) => HTTP_BAD_GATEWAY,
        RZErrorView::Timeout => HTTP_GATEWAY_TIMEOUT,
        RZErrorView::Internal(_) => HTTP_INTERNAL_SERVER_ERROR,
    }
}

/// The HTTP status for an error.
pub fn error_http_status(error: &RZError) -> (r: u16)
    ensures
        r == error_status(error@),
{
    match error {
        RZError::Validation(_) => HTTP_BAD_REQUEST,
        RZError::RoomzinUnreachable(_) => HTTP_SERVICE_UNAVAILABLE,
        RZError::Network(_) => HTTP_BAD_GATEWAY,
        RZError::Timeout => HTTP_GATEWAY_TIMEOUT,
        RZError::Internal(_) => HTTP_INTERNAL_SERVER_ERROR,
    }
}

/// The reply to a request that failed with `e`: its status, the
/// client-facing message, counted as a client error and as bytes sent.
pub open spec fn error_reply(e: RZErrorView) -> HttpReplyView {
    HttpReplyView {
        status: error_status(e),
        body: error_body(encode_utf8(error_message_text(e))),
        client_error: true,
        report_sent: true,
    }
}

/// The reply to a request that failed before or while reaching the engine:
/// `400` for a validation error, `5xx` for a server-side failure, with the
/// client-facing message.
pub fn error_response(error: RZError) -> (r: HttpReply)
    ensures
        r@ == error_reply(error@),
{
    let status = error_http_status(&error);
    let message = build_error_message(error);
    let mut buf: Vec<u8> = Vec::new();
    push_error_body(&mut buf, message.as_str().as_bytes());
    HttpReply { status, body: buf, client_error: true, report_sent: true }
}

/// The reply to a response that does not follow the protocol.
pub fn invalid_response() -> (r: HttpReply)
    ensures
        r@ == invalid_reply(),
{
    let mut buf: Vec<u8> = Vec::new();
    push_str(&mut buf, "{\"status\":\"error\",\"message\":\"INVALID_RESPONSE_FORMAT\"}");
    assert(buf@ =~= invalid_reply().body);
    HttpReply { status: HTTP_INTERNAL_SERVER_ERROR, body: buf, client_error: true, report_sent: true }
}

} // verus!
