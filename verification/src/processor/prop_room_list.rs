//! PROPROOMLIST: the room types of a property.
use crate::helper::{lemma_quoted_list_push, quoted_list};
use crate::processor::search_prop::{lemma_string_fields_bad, lemma_string_fields_push, string_fields_ok};
use crate::protocol::fields::{
    after_n, field_at, field_fits, field_header, lemma_read_n_fields_done,
    lemma_read_n_fields_step, read_n_fields, WireField,
};
use crate::protocol::response::{
    count_of, fields_start, handle_non_success_status, header_ok, non_success_reply, ok_reply,
    status_of, success_status,
};
use crate::protocol::{invalid_reply, invalid_response, HttpReply, HttpReplyView, HTTP_OK};
use crate::wire::{bytes_eq, get_u16_le, push_byte, push_bytes, push_str};
use vstd::prelude::*;
use vstd::string::StringSliceAdditionalSpecFns;

verus! {

/// The room types carried by the fields, as raw bytes.
pub open spec fn room_type_names(f: Seq<WireField>) -> Seq<Seq<u8>> {
    f.map_values(|w: WireField| w.data)
}

/// The reply to a PROPROOMLIST response: one string field per room type,
/// with ids counting from 1, listed as `"room_types"`.
pub open spec fn prop_room_list_reply(d: Seq<u8>) -> HttpReplyView {
    if !header_ok(d) {
        invalid_reply()
    } else if status_of(d) != success_status() {
        non_success_reply(d, status_of(d), count_of(d), fields_start(d))
    } else {
        match read_n_fields(d, fields_start(d), count_of(d) as nat) {
            Some((f, _)) => if string_fields_ok(f) {
                ok_reply(
                    "{\"status\":\"success\",\"room_types\":[".spec_bytes() + quoted_list(
                        room_type_names(f),
                    ) + "]}".spec_bytes(),
                )
            } else {
                invalid_reply()
            },
            None => invalid_reply(),
        }
    }
}

/// Decodes a PROPROOMLIST response.
pub fn decode_prop_room_list_response(payload: &[u8]) -> (r: HttpReply)
    ensures
        r@ == prop_room_list_reply(payload@),
{
    let data = payload;
    if data.len() == 0 {
        return invalid_response();
    }
    let status_len = data[0] as usize;
    if data.len() < 1 + status_len + 2 {
        return invalid_response();
    }
    let status = &data[1..1 + status_len];
    let field_count = get_u16_le(data, 1 + status_len);
    let start = 1 + status_len + 2;
    if !bytes_eq(status, "SUCCESS".as_bytes()) {
        return handle_non_success_status(data, status, field_count, start);
    }
    let mut json: Vec<u8> = Vec::new();
    push_str(&mut json, "{\"status\":\"success\",\"room_types\":[");
    let ghost head = json@;
    let mut offset = start;
    let mut expected_id: u32 = 1;
    let ghost mut done: Seq<WireField> = Seq::empty();
    let ghost all = read_n_fields(data@, start as int, field_count as nat);
    while expected_id <= field_count as u32
        invariant
            data@ == payload@,
            start <= offset <= data@.len(),
            start == fields_start(data@),
            header_ok(data@),
            status_of(data@) == success_status(),
            field_count as int == count_of(data@),
            1 <= expected_id <= field_count as int + 1,
            all == read_n_fields(data@, start as int, field_count as nat),
            after_n(done, read_n_fields(data@, offset as int, (field_count - done.len()) as nat))
                == all,
            done.len() == expected_id - 1,
            string_fields_ok(done),
            json@ == head + quoted_list(room_type_names(done)),
        decreases field_count as int + 1 - expected_id,
    {
        proof {
            lemma_read_n_fields_step(data@, offset as int, (field_count - done.len()) as nat, done);
        }
        let (field_id, field_type, field_len) = match field_header(data, offset) {
            Some(h) => h,
            None => {
                assert(!field_fits(data@, offset as int));
                assert(all is None);
                return invalid_response();
            },
        };
        if field_id as u32 != expected_id || field_type != 0x01 || field_len > data.len() - (offset + 7) {
            proof {
                if field_fits(data@, offset as int) {
                    if let Some((f, _)) = all {
                        let k = done.len() as int;
                        assert(0 <= k < f.len());
                        assert(f[k] == field_at(data@, offset as int));
                        assert(!(f[k].id == k + 1 && f[k].kind == 1));
                        lemma_string_fields_bad(f, k);
                    }
                }
            }
            return invalid_response();
        }
        let field_start = offset + 7;
        let ghost f = field_at(data@, offset as int);
        offset = field_start + field_len;
        let raw = &data[field_start..offset];
        if expected_id > 1 {
            push_byte(&mut json, 44);
        }
        push_byte(&mut json, 34);
        push_bytes(&mut json, raw);
        push_byte(&mut json, 34);
        proof {
            assert(raw@ == f.data);
            lemma_quoted_list_push(room_type_names(done), f.data);
            assert(room_type_names(done.push(f)) =~= room_type_names(done).push(f.data));
            lemma_string_fields_push(done, f);
            done = done.push(f);
            assert(json@ =~= head + quoted_list(room_type_names(done)));
        }
        expected_id = expected_id + 1;
    }
    proof {
        lemma_read_n_fields_done(data@, offset as int, done);
    }
    push_str(&mut json, "]}");
    HttpReply { status: HTTP_OK, body: json, client_error: false, report_sent: true }
}

} // verus!
