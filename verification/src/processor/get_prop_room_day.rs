//! GETPROPROOMDAY: one room-day record.
use crate::bitmask::CodecStore;
use crate::helper::{
    bitmask_to_rate_feature_strings, bytes_to_property_id, lemma_quoted_list_push, mask_names,
    property_id_text, quoted_list, utf8_names,
};
use crate::protocol::fields::{collect_fields, read_n_fields, span_matches, WireField};
use crate::protocol::response::{
    count_of, fields_start, handle_non_success_status, header_ok, non_success_reply, ok_reply,
    status_of, success_status,
};
use crate::protocol::{invalid_reply, invalid_response, HttpReply, HttpReplyView, HTTP_OK};
use crate::text::{decimal, string_from_utf8, u32_to_string_bytes};
use crate::wire::{bytes_eq, copy_range, get_u16_le, get_u32_le, push_byte, push_bytes, push_str, read_u32};
use vstd::prelude::*;
use vstd::string::StringSliceAdditionalSpecFns;
use vstd::utf8::{decode_utf8_encode_utf8, encode_utf8, valid_utf8};

verus! {

/// The five fields of a room-day record: property id and date (strings),
/// availability (1 byte), final price and rate-feature mask (4 bytes each).
pub open spec fn room_day_fields_ok(f: Seq<WireField>) -> bool {
    &&& f.len() == 5
    &&& f[0].id == 1 && f[0].kind == 1
    &&& f[1].id == 2 && f[1].kind == 1
    &&& f[2].id == 3 && f[2].kind == 2 && f[2].data.len() == 1
    &&& f[3].id == 4 && f[3].kind == 3 && f[3].data.len() == 4
    &&& f[4].id == 5 && f[4].kind == 3 && f[4].data.len() == 4
}

/// The date as sent, or `invalid-date` when it is not UTF-8.
pub open spec fn date_text_of(b: Seq<u8>) -> Seq<u8> {
    if valid_utf8(b) {
        b
    } else {
        "invalid-date".spec_bytes()
    }
}

/// The JSON body of a room-day record.
pub open spec fn room_day_body(f: Seq<WireField>, names: Seq<Seq<char>>) -> Seq<u8> {
    "{\"status\":\"success\",\"property_id\":\"".spec_bytes() + encode_utf8(property_id_text(f[0].data))
        + "\",\"date\":\"".spec_bytes() + date_text_of(f[1].data) + "\",\"availability\":".spec_bytes()
        + decimal(f[2].data[0] as nat) + ",\"final_price\":".spec_bytes() + decimal(
        read_u32(f[3].data, 0) as nat,
    ) + ",\"rate_feature\":[".spec_bytes() + quoted_list(
        utf8_names(mask_names(names, read_u32(f[4].data, 0) as u32)),
    ) + "]}".spec_bytes()
}

/// The reply to a GETPROPROOMDAY response; the payload must end right after
/// the five fields, and the rate-feature names must be known.
pub open spec fn room_day_reply(d: Seq<u8>, store: Option<Seq<Seq<char>>>) -> HttpReplyView {
    if !header_ok(d) {
        invalid_reply()
    } else if status_of(d) != success_status() {
        non_success_reply(d, status_of(d), count_of(d), fields_start(d))
    } else if count_of(d) != 5 {
        invalid_reply()
    } else {
        match read_n_fields(d, fields_start(d), 5) {
            Some((f, end)) => if room_day_fields_ok(f) && end == d.len() {
                match store {
                    Some(names) => ok_reply(room_day_body(f, names)),
                    None => invalid_reply(),
                }
            } else {
                invalid_reply()
            },
            None => invalid_reply(),
        }
    }
}

/// Decodes a GETPROPROOMDAY response.
pub fn decode_get_prop_room_day_response(payload: &[u8], store: &CodecStore) -> (r: HttpReply)
    ensures
        r@ == room_day_reply(payload@, store@),
{
    let data = payload;
    if data.len() == 0 {
        return invalid_response();
    }
    let status_len = data[0] as usize;
    if data.len() < 1 + status_len + 2 {
        return invalid_response();
    }
    let status = &data[1..1 + status_len];
    let field_count = get_u16_le(data, 1 + status_len);
    let start = 1 + status_len + 2;
    if !bytes_eq(status, "SUCCESS".as_bytes()) {
        return handle_non_success_status(data, status, field_count, start);
    }
    if field_count != 5 {
        return invalid_response();
    }
    let (spans, end) = match collect_fields(data, start, 5) {
        Some(c) => c,
        None => return invalid_response(),
    };
    let ghost f = read_n_fields(data@, start as int, 5).unwrap().0;
    proof {
        assert(span_matches(data@, spans@[0], f[0]));
        assert(span_matches(data@, spans@[1], f[1]));
        assert(span_matches(data@, spans@[2], f[2]));
        assert(span_matches(data@, spans@[3], f[3]));
        assert(span_matches(data@, spans@[4], f[4]));
    }
    let s0 = &spans[0];
    let s1 = &spans[1];
    let s2 = &spans[2];
    let s3 = &spans[3];
    let s4 = &spans[4];
    if s0.id != 1 || s0.kind != 0x01 {
        return invalid_response();
    }
    if s1.id != 2 || s1.kind != 0x01 {
        return invalid_response();
    }
    if s2.id != 3 || s2.kind != 0x02 || s2.end - s2.start != 1 {
        return invalid_response();
    }
    if s3.id != 4 || s3.kind != 0x03 || s3.end - s3.start != 4 {
        return invalid_response();
    }
    if s4.id != 5 || s4.kind != 0x03 || s4.end - s4.start != 4 {
        return invalid_response();
    }
    if end != data.len() {
        return invalid_response();
    }
    let availability = data[s2.start];
    let final_price = get_u32_le(data, s3.start);
    let rate_feature_mask = get_u32_le(data, s4.start);
    proof {
        assert(f[2].data[0] == data@[s2.start as int]);
        assert(read_u32(f[3].data, 0) == read_u32(data@, s3.start as int));
        assert(read_u32(f[4].data, 0) == read_u32(data@, s4.start as int));
    }
    let rate_features = match bitmask_to_rate_feature_strings(store, rate_feature_mask) {
        Ok(features) => features,
        Err(_) => return invalid_response(),
    };
    let ghost names = store@.unwrap();
    let mut json: Vec<u8> = Vec::new();
    push_str(&mut json, "{\"status\":\"success\",\"property_id\":\"");
    let pid = bytes_to_property_id(&data[s0.start..s0.end]);
    push_str(&mut json, pid.as_str());
    push_str(&mut json, "\",\"date\":\"");
    let date_bytes = copy_range(data, s1.start, s1.end);
    match string_from_utf8(date_bytes) {
        Some(s) => {
            proof {
                decode_utf8_encode_utf8(f[1].data);
            }
            push_str(&mut json, s.as_str());
        },
        None => push_str(&mut json, "invalid-date"),
    }
    push_str(&mut json, "\",\"availability\":");
    let avail_digits = u32_to_string_bytes(availability as u32);
    push_bytes(&mut json, avail_digits.as_slice());
    push_str(&mut json, ",\"final_price\":");
    let price_digits = u32_to_string_bytes(final_price);
    push_bytes(&mut json, price_digits.as_slice());
    push_str(&mut json, ",\"rate_feature\":[");
    let ghost head = json@;
    let ghost items = utf8_names(mask_names(names, rate_feature_mask));
    let mut i: usize = 0;
    while i < rate_features.len()
        invariant
            rate_features.deep_view() == mask_names(names, rate_feature_mask),
            items == utf8_names(mask_names(names, rate_feature_mask)),
            i <= rate_features@.len(),
            json@ == head + quoted_list(items.subrange(0, i as int)),
        decreases rate_features@.len() - i,
    {
        if i > 0 {
            push_byte(&mut json, 44);
        }
        push_byte(&mut json, 34);
        push_str(&mut json, rate_features[i].as_str());
        push_byte(&mut json, 34);
        proof {
            assert(rate_features@[i as int]@ == rate_features.deep_view()[i as int]);
            lemma_quoted_list_push(items.subrange(0, i as int), items[i as int]);
            assert(items.subrange(0, i + 1) =~= items.subrange(0, i as int).push(items[i as int]));
        }
        i = i + 1;
        assert(json@ =~= head + quoted_list(items.subrange(0, i as int)));
    }
    assert(items.subrange(0, items.len() as int) =~= items);
    push_str(&mut json, "]}");
    assert(json@ =~= room_day_body(f, names));
    HttpReply { status: HTTP_OK, body: json, client_error: false, report_sent: true }
}

} // verus!
