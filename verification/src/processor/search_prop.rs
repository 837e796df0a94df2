//! SEARCHPROP: the ids of the properties matching a filter.
use crate::helper::{bytes_to_property_id, lemma_quoted_list_push, property_id_text, quoted_list};
use crate::protocol::fields::{
    after_n, field_at, field_fits, field_header, lemma_read_n_fields_done,
    lemma_read_n_fields_step, read_n_fields, WireField,
};
use crate::protocol::response::{
    count_of, fields_start, handle_non_success_status, header_ok, non_success_reply, ok_reply,
    status_of, success_status,
};
use crate::protocol::{
    error_body, invalid_reply, invalid_response, push_error_body, HttpReply, HttpReplyView, HTTP_BAD_REQUEST,
    HTTP_OK,
};
use crate::wire::{bytes_eq, get_u16_le, push_byte, push_str, read_u16};
use vstd::prelude::*;
use vstd::string::StringSliceAdditionalSpecFns;
use vstd::utf8::encode_utf8;

verus! {

/// Every field is a string, with ids counting from 1.
pub open spec fn string_fields_ok(f: Seq<WireField>) -> bool {
    forall|j: int| 0 <= j < f.len() ==> #[trigger] f[j].id == j + 1 && f[j].kind == 1
}

/// The property ids of the fields, as UTF-8 text.
pub open spec fn property_names(f: Seq<WireField>) -> Seq<Seq<u8>> {
    f.map_values(|w: WireField| encode_utf8(property_id_text(w.data)))
}

/// The reply to a SEARCHPROP response. A success carrying a single string
/// field is the engine reporting a problem and is answered as a `400`.
pub open spec fn search_prop_reply(d: Seq<u8>) -> HttpReplyView {
    if !header_ok(d) {
        invalid_reply()
    } else if status_of(d) != success_status() {
        non_success_reply(d, status_of(d), count_of(d), fields_start(d))
    } else if count_of(d) == 0 {
        ok_reply("{\"status\":\"success\",\"properties\":[]}".spec_bytes())
    } else if count_of(d) == 1 {
        let off = fields_start(d);
        if field_fits(d, off) && read_u16(d, off) == 1 && d[off + 2] == 1 {
            let m = field_at(d, off).data;
            HttpReplyView {
                status: HTTP_BAD_REQUEST,
                body: error_body(
                    if m.len() == 0 {
                        "UNKNOWN_ERROR".spec_bytes()
                    } else {
                        m
                    },
                ),
                client_error: true,
                report_sent: true,
            }
        } else {
            invalid_reply()
        }
    } else {
        match read_n_fields(d, fields_start(d), count_of(d) as nat) {
            Some((f, _)) => if string_fields_ok(f) {
                HttpReplyView {
                    status: HTTP_OK,
                    body: "{\"status\":\"success\",\"properties\":[".spec_bytes() + quoted_list(
                        property_names(f),
                    ) + "]}".spec_bytes(),
                    client_error: false,
                    report_sent: true,
                }
            } else {
                invalid_reply()
            },
            None => invalid_reply(),
        }
    }
}

pub(crate) proof fn lemma_string_fields_push(done: Seq<WireField>, f: WireField)
    requires
        string_fields_ok(done),
        f.id == done.len() + 1,
        f.kind == 1,
    ensures
        string_fields_ok(done.push(f)),
{
    assert forall|j: int| 0 <= j < done.push(f).len() implies #[trigger] done.push(f)[j].id == j + 1
        && done.push(f)[j].kind == 1 by {
        if j < done.len() {
            assert(done.push(f)[j] == done[j]);
        }
    }
}

pub(crate) proof fn lemma_string_fields_bad(f: Seq<WireField>, k: int)
    requires
        0 <= k < f.len(),
        !(f[k].id == k + 1 && f[k].kind == 1),
    ensures
        !string_fields_ok(f),
{
    assert(!(f[k].id == k + 1 && f[k].kind == 1));
}

/// Decodes a SEARCHPROP response.
pub fn decode_search_prop_response(payload: &[u8]) -> (r: HttpReply)
    ensures
        r@ == search_prop_reply(payload@),
{
    let data = payload;
    if data.len() == 0 {
        return invalid_response();
    }
    let status_len = data[0] as usize;
    if data.len() < 1 + status_len + 2 {
        return invalid_response();
    }
    let status = &data[1..1 + status_len];
    let field_count = get_u16_le(data, 1 + status_len);
    let start = 1 + status_len + 2;
    if !bytes_eq(status, "SUCCESS".as_bytes()) {
        return handle_non_success_status(data, status, field_count, start);
    }
    if field_count == 0 {
        let mut rsp: Vec<u8> = Vec::new();
        push_str(&mut rsp, "{\"status\":\"success\",\"properties\":[]}");
        return HttpReply { status: HTTP_OK, body: rsp, client_error: false, report_sent: true };
    }
    if field_count == 1 {
        let (field_id, field_type, field_len) = match field_header(data, start) {
            Some(h) => h,
            None => return invalid_response(),
        };
        if field_id != 1 || field_type != 0x01 {
            return invalid_response();
        }
        if field_len > data.len() - (start + 7) {
            return invalid_response();
        }
        let message = &data[start + 7..start + 7 + field_len];
        let mut json: Vec<u8> = Vec::new();
        if message.len() == 0 {
            push_error_body(&mut json, "UNKNOWN_ERROR".as_bytes());
        } else {
            push_error_body(&mut json, message);
        }
        return HttpReply { status: HTTP_BAD_REQUEST, body: json, client_error: true, report_sent: true };
    }
    let mut properties: Vec<String> = Vec::new();
    let mut offset = start;
    let mut expected_id: u32 = 1;
    let ghost mut done: Seq<WireField> = Seq::empty();
    let ghost all = read_n_fields(data@, start as int, field_count as nat);
    while expected_id <= field_count as u32
        invariant
            data@ == payload@,
            start <= offset <= data@.len(),
            start == fields_start(data@),
            header_ok(data@),
            status_of(data@) == success_status(),
            field_count as int == count_of(data@),
            field_count > 1,
            1 <= expected_id <= field_count as int + 1,
            all == read_n_fields(data@, start as int, field_count as nat),
            after_n(done, read_n_fields(data@, offset as int, (field_count - done.len()) as nat))
                == all,
            done.len() == expected_id - 1,
            string_fields_ok(done),
            properties@.len() == done.len(),
            forall|k: int| 0 <= k < done.len() ==> #[trigger] properties@[k]@ == property_id_text(done[k].data),
        decreases field_count as int + 1 - expected_id,
    {
        proof {
            lemma_read_n_fields_step(data@, offset as int, (field_count - done.len()) as nat, done);
        }
        let (field_id, field_type, field_len) = match field_header(data, offset) {
            Some(h) => h,
            None => {
                assert(!field_fits(data@, offset as int));
                assert(all is None);
                return invalid_response();
            },
        };
        if field_id as u32 != expected_id || field_type != 0x01 || field_len > data.len() - (offset + 7) {
            proof {
                if field_fits(data@, offset as int) {
                    if let Some((f, _)) = all {
                        let k = done.len() as int;
                        assert(0 <= k < f.len());
                        assert(f[k] == field_at(data@, offset as int));
                        assert(!(f[k].id == k + 1 && f[k].kind == 1));
                        lemma_string_fields_bad(f, k);
                    }
                }
            }
            return invalid_response();
        }
        let field_start = offset + 7;
        let ghost f = field_at(data@, offset as int);
        offset = field_start + field_len;
        let raw = &data[field_start..offset];
        properties.push(bytes_to_property_id(raw));
        proof {
            lemma_string_fields_push(done, f);
            done = done.push(f);
        }
        expected_id = expected_id + 1;
    }
    proof {
        lemma_read_n_fields_done(data@, offset as int, done);
    }
    let mut json: Vec<u8> = Vec::new();
    push_str(&mut json, "{\"status\":\"success\",\"properties\":[");
    let ghost head = json@;
    let ghost names = property_names(done);
    let mut i: usize = 0;
    while i < properties.len()
        invariant
            properties@.len() == done.len(),
            names == property_names(done),
            forall|k: int| 0 <= k < done.len() ==> #[trigger] properties@[k]@ == property_id_text(done[k].data),
            i <= properties@.len(),
            json@ == head + quoted_list(names.subrange(0, i as int)),
        decreases properties@.len() - i,
    {
        if i > 0 {
            push_byte(&mut json, 44);
        }
        push_byte(&mut json, 34);
        push_str(&mut json, properties[i].as_str());
        push_byte(&mut json, 34);
        proof {
            assert(properties@[i as int]@ == property_id_text(done[i as int].data));
            lemma_quoted_list_push(names.subrange(0, i as int), names[i as int]);
            assert(names.subrange(0, i + 1) =~= names.subrange(0, i as int).push(names[i as int]));
        }
        i = i + 1;
        assert(json@ =~= head + quoted_list(names.subrange(0, i as int)));
    }
    assert(names.subrange(0, names.len() as int) =~= names);
    push_str(&mut json, "]}");
    HttpReply { status: HTTP_OK, body: json, client_error: false, report_sent: true }
}

} // verus!
