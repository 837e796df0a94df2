//! GETCODECS: the codec tables the engine announces at startup.
use crate::helper::lemma_ascii_text;
use crate::protocol::fields::{field_end, field_header};
use crate::protocol::response::{count_of, fields_start, header_ok, status_of, success_status};
use crate::error::{RZError, RZErrorView};
use crate::protocol::{Codecs, ProtocolError, ProtocolErrorView};
use crate::text::{
    ascii_chars, decimal, hex_pair, lemma_decimal_ascii, str_trim, string_from_utf8,
    string_from_utf8_lossy, trim_ws, u32_to_string_bytes, utf8_lossy,
};
use crate::wire::{bytes_eq, copy_range, get_u16_le, push_u16_le, push_str, read_u16, u16_le};
use vstd::prelude::*;
use vstd::string::{StringExecFns, StringSliceAdditionalSpecFns};
use vstd::utf8::{
    decode_utf8, is_char_boundary_iff_not_is_continuation_byte, pop_first_scalar,
    valid_utf8, valid_utf8_split,
};

verus! {

/// The pieces of `b` between the separator bytes 0x2C (`,`); there is
/// always at least one piece, as with `str::split`.
pub open spec fn split_commas(b: Seq<u8>) -> Seq<Seq<u8>>
    decreases b.len(),
{
    if b.len() == 0 {
        seq![Seq::empty()]
    } else {
        let p = split_commas(b.drop_last());
        if b.last() == 44 {
            p.push(Seq::empty())
        } else {
            p.update(p.len() - 1, p.last().push(b.last()))
        }
    }
}

/// The trimmed, non-empty pieces, as text.
pub open spec fn codec_names(pieces: Seq<Seq<u8>>) -> Seq<Seq<char>>
    decreases pieces.len(),
{
    if pieces.len() == 0 {
        Seq::empty()
    } else {
        let prev = codec_names(pieces.drop_last());
        let t = trim_ws(decode_utf8(pieces.last()));
        if t.len() > 0 {
            prev.push(t)
        } else {
            prev
        }
    }
}

/// Outcome of decoding a GETCODECS response: the rate-feature names, or
/// the error with its message.
pub open spec fn codecs_outcome(d: Seq<u8>) -> Result<Seq<Seq<char>>, ProtocolErrorView> {
    if d.len() == 0 {
        Err(ProtocolErrorView::InvalidResponse("empty payload for GETCODECS"@))
    } else if !header_ok(d) {
        Err(ProtocolErrorView::InvalidResponse("payload too short for status + field count"@))
    } else if status_of(d) != success_status() {
        Err(ProtocolErrorView::InvalidResponse("unexpected status: "@ + utf8_lossy(status_of(d))))
    } else if count_of(d) != 1 {
        Err(
            ProtocolErrorView::InvalidResponse(
                "expected exactly 1 field, got "@ + ascii_chars(decimal(count_of(d) as nat)),
            ),
        )
    } else if fields_start(d) + 7 > d.len() {
        Err(ProtocolErrorView::InvalidResponse("truncated field header"@))
    } else if read_u16(d, fields_start(d)) != 1 {
        Err(
            ProtocolErrorView::InvalidResponse(
                "expected field ID 1, got "@ + ascii_chars(decimal(read_u16(d, fields_start(d)) as nat)),
            ),
        )
    } else if field_end(d, fields_start(d)) > d.len() {
        Err(ProtocolErrorView::InvalidResponse("truncated field data"@))
    } else {
        let off = fields_start(d);
        let kind = d[off + 2];
        let data = d.subrange(off + 7, field_end(d, off));
        if kind == 1 {
            Err(
                ProtocolErrorView::InvalidResponse(
                    if valid_utf8(data) {
                        decode_utf8(data)
                    } else {
                        "invalid UTF-8 error message"@
                    },
                ),
            )
        } else if kind != 9 {
            Err(
                ProtocolErrorView::InvalidResponse(
                    "expected field type 0x09, got 0x"@ + ascii_chars(hex_pair(kind)),
                ),
            )
        } else if !valid_utf8(data) {
            Err(ProtocolErrorView::InvalidResponse("invalid UTF-8 in codecs payload"@))
        } else {
            Ok(codec_names(split_commas(data)))
        }
    }
}

/// The GETCODECS request payload: the command name and no fields.
pub open spec fn get_codecs_payload() -> Seq<u8> {
    seq![9u8] + "GETCODECS".spec_bytes() + u16_le(0)
}

/// Builds the GETCODECS request payload.
pub fn build_get_codecs_payload() -> (r: Vec<u8>)
    ensures
        r@ == get_codecs_payload(),
{
    let mut buf: Vec<u8> = Vec::new();
    let cmd_name = "GETCODECS";
    proof {
        reveal_strlit("GETCODECS");
        assert(vstd::string::is_ascii(cmd_name));
    }
    buf.push(cmd_name.len() as u8);
    push_str(&mut buf, cmd_name);
    push_u16_le(&mut buf, 0);
    assert(buf@ =~= get_codecs_payload());
    buf
}

/// Text of ASCII bytes.
fn ascii_string(b: Vec<u8>) -> (r: String)
    requires
        forall|k: int| 0 <= k < b@.len() ==> #[trigger] b@[k] < 128,
    ensures
        r@ == ascii_chars(b@),
{
    proof {
        lemma_ascii_text(b@);
    }
    let ghost v = b@;
    match string_from_utf8(b) {
        Some(s) => s,
        None => String::new(),
    }
}

/// `prefix` followed by the decimal digits of `n`.
fn message_with_number(prefix: &str, n: u32) -> (r: String)
    ensures
        r@ == prefix@ + ascii_chars(decimal(n as nat)),
{
    let digits = u32_to_string_bytes(n);
    proof {
        lemma_decimal_ascii(n as nat);
    }
    let text = ascii_string(digits);
    let mut m = prefix.to_owned();
    m.append(text.as_str());
    m
}

/// A prefix of valid UTF-8 ending before an ASCII byte, and the rest after
/// it, are valid UTF-8 too.
proof fn lemma_split_at_ascii(b: Seq<u8>, i: int)
    requires
        valid_utf8(b),
        0 <= i < b.len(),
        b[i] < 0x80,
    ensures
        valid_utf8(b.subrange(0, i)),
        valid_utf8(b.subrange(i + 1, b.len() as int)),
{
    is_char_boundary_iff_not_is_continuation_byte(b, i);
    valid_utf8_split(b, i);
    let c = b.subrange(i, b.len() as int);
    assert(pop_first_scalar(c) =~= b.subrange(i + 1, b.len() as int));
}

/// Appends the trimmed text of a piece when it is not empty.
fn push_trimmed(names: &mut Vec<String>, piece: &[u8])
    requires
        valid_utf8(piece@),
    ensures
        final(names).deep_view() == if trim_ws(decode_utf8(piece@)).len() > 0 {
            old(names).deep_view().push(trim_ws(decode_utf8(piece@)))
        } else {
            old(names).deep_view()
        },
{
    let owned = copy_range(piece, 0, piece.len());
    assert(owned@ =~= piece@);
    let text = match string_from_utf8(owned) {
        Some(s) => s,
        None => String::new(),
    };
    let t = str_trim(text.as_str());
    if !t.is_empty() {
        let ghost before = names.deep_view();
        names.push(t.to_owned());
        assert(names.deep_view() =~= before.push(trim_ws(decode_utf8(piece@))));
    }
}

/// Splits comma-separated names, trims them and keeps the non-empty ones.
fn split_names(raw: &[u8]) -> (r: Vec<String>)
    requires
        valid_utf8(raw@),
    ensures
        r.deep_view() == codec_names(split_commas(raw@)),
{
    let mut names: Vec<String> = Vec::new();
    let mut piece_start: usize = 0;
    let mut i: usize = 0;
    let ghost mut done: Seq<Seq<u8>> = Seq::empty();
    assert(raw@.subrange(0, 0) =~= Seq::<u8>::empty());
    assert(split_commas(raw@.subrange(0, 0)) =~= done.push(raw@.subrange(0, 0)));
    assert(raw@.subrange(0, raw@.len() as int) =~= raw@);
    while i < raw.len()
        invariant
            piece_start <= i <= raw@.len(),
            valid_utf8(raw@.subrange(piece_start as int, raw@.len() as int)),
            split_commas(raw@.subrange(0, i as int)) == done.push(raw@.subrange(piece_start as int, i as int)),
            names.deep_view() == codec_names(done),
        decreases raw@.len() - i,
    {
        let ghost prefix = raw@.subrange(0, i + 1);
        assert(prefix.drop_last() =~= raw@.subrange(0, i as int));
        if raw[i] == 44 {
            let ghost rest = raw@.subrange(piece_start as int, raw@.len() as int);
            proof {
                lemma_split_at_ascii(rest, i - piece_start);
                assert(rest.subrange(0, i - piece_start) =~= raw@.subrange(piece_start as int, i as int));
                assert(rest.subrange(i - piece_start + 1, rest.len() as int) =~= raw@.subrange(
                    i + 1,
                    raw@.len() as int,
                ));
            }
            push_trimmed(&mut names, &raw[piece_start..i]);
            proof {
                let piece = raw@.subrange(piece_start as int, i as int);
                assert(done.push(piece).drop_last() =~= done);
                done = done.push(piece);
                assert(raw@.subrange(i + 1, i + 1) =~= Seq::<u8>::empty());
            }
            piece_start = i + 1;
        } else {
            proof {
                assert(raw@.subrange(piece_start as int, i + 1) =~= raw@.subrange(
                    piece_start as int,
                    i as int,
                ).push(raw@[i as int]));
            }
        }
        i = i + 1;
    }
    let ghost last = raw@.subrange(piece_start as int, raw@.len() as int);
    push_trimmed(&mut names, &raw[piece_start..raw.len()]);
    proof {
        assert(done.push(last).drop_last() =~= done);
    }
    names
}

/// Decodes a GETCODECS response into the announced codecs.
pub fn decode_get_codecs_response(payload: &[u8]) -> (r: Result<Codecs, ProtocolError>)
    ensures
        match codecs_outcome(payload@) {
            Ok(names) => r matches Ok(c) && c.rate_features.deep_view() == names,
            Err(e) => r matches Err(err) && err@ == e,
        },
{
    let data = payload;
    if data.len() == 0 {
        return Err(ProtocolError::InvalidResponse("empty payload for GETCODECS".to_owned()));
    }
    let status_len = data[0] as usize;
    if data.len() < 1 + status_len + 2 {
        return Err(
            ProtocolError::InvalidResponse("payload too short for status + field count".to_owned()),
        );
    }
    let status = &data[1..1 + status_len];
    let field_count = get_u16_le(data, 1 + status_len);
    let offset = 1 + status_len + 2;
    if !bytes_eq(status, "SUCCESS".as_bytes()) {
        let shown = string_from_utf8_lossy(status);
        let mut m = "unexpected status: ".to_owned();
        m.append(shown.as_str());
        return Err(ProtocolError::InvalidResponse(m));
    }
    if field_count != 1 {
        return Err(
            ProtocolError::InvalidResponse(
                message_with_number("expected exactly 1 field, got ", field_count as u32),
            ),
        );
    }
    let (field_id, field_type, field_len) = match field_header(data, offset) {
        Some(h) => h,
        None => return Err(ProtocolError::InvalidResponse("truncated field header".to_owned())),
    };
    if field_id != 1 {
        return Err(
            ProtocolError::InvalidResponse(
                message_with_number("expected field ID 1, got ", field_id as u32),
            ),
        );
    }
    if field_len > data.len() - (offset + 7) {
        return Err(ProtocolError::InvalidResponse("truncated field data".to_owned()));
    }
    let field_data = &data[offset + 7..offset + 7 + field_len];
    if field_type == 0x01 {
        let owned = copy_range(field_data, 0, field_data.len());
        assert(owned@ =~= field_data@);
        let msg = match string_from_utf8(owned) {
            Some(s) => s,
            None => "invalid UTF-8 error message".to_owned(),
        };
        return Err(ProtocolError::InvalidResponse(msg));
    }
    if field_type != 0x09 {
        let hi = field_type / 16;
        let lo = field_type % 16;
        let mut hex: Vec<u8> = Vec::new();
        hex.push(if hi < 10 { 48 + hi } else { 87 + hi });
        hex.push(if lo < 10 { 48 + lo } else { 87 + lo });
        assert(hex@ =~= hex_pair(field_type));
        let text = ascii_string(hex);
        let mut m = "expected field type 0x09, got 0x".to_owned();
        m.append(text.as_str());
        return Err(ProtocolError::InvalidResponse(m));
    }
    let owned = copy_range(field_data, 0, field_data.len());
    assert(owned@ =~= field_data@);
    match string_from_utf8(owned) {
        Some(_) => {},
        None => {
            return Err(ProtocolError::InvalidResponse("invalid UTF-8 in codecs payload".to_owned()));
        },
    }
    let rate_features = split_names(field_data);
    Ok(Codecs { rate_features })
}

} // verus!

verus! {

/// The outcome of fetching the codecs: the codec tables, the transport
/// error, or an internal error carrying the decoder's message.
pub open spec fn codecs_fetch_outcome(answer: Result<Seq<u8>, RZErrorView>) -> Result<Seq<Seq<char>>, RZErrorView> {
    match answer {
        Err(e) => Err(e),
        Ok(d) => match codecs_outcome(d) {
            Ok(names) => Ok(names),
            Err(ProtocolErrorView::InvalidResponse(m)) => Err(RZErrorView::Internal("invalid response: "@ + m)),
            Err(_) => Err(RZErrorView::Internal("invalid response"@)),
        },
    }
}

/// Reads the engine's answer to GETCODECS (or the error that came
/// instead).
pub fn codecs_from_answer(answer: Result<Vec<u8>, RZError>) -> (r: Result<Codecs, RZError>)
    ensures
        match codecs_fetch_outcome(
            match answer {
                Ok(d) => Ok(d@),
                Err(e) => Err(e@),
            },
        ) {
            Ok(names) => r matches Ok(c) && c.rate_features.deep_view() == names,
            Err(e) => r matches Err(err) && err@ == e,
        },
{
    let data = match answer {
        Err(e) => return Err(e),
        Ok(d) => d,
    };
    match decode_get_codecs_response(data.as_slice()) {
        Ok(c) => Ok(c),
        Err(ProtocolError::InvalidResponse(m)) => {
            let mut msg = String::from_str("invalid response: ");
            msg.append(m.as_str());
            Err(RZError::Internal(msg))
        },
        Err(_) => Err(RZError::Internal("invalid response".to_owned())),
    }
}

} // verus!
