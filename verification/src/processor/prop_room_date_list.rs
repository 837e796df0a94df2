//! PROPROOMDATELIST: the dates that hold data for a room type.
use crate::helper::{lemma_quoted_list_push, quoted_list};
use crate::protocol::fields::{
    after, field_at, field_end, field_header, lemma_read_fields_end, lemma_read_fields_step,
    read_fields, WireField,
};
use crate::protocol::response::{
    count_of, fields_start, handle_non_success_status, header_ok, non_success_reply, ok_reply,
    status_of, success_status,
};
use crate::protocol::{invalid_reply, invalid_response, HttpReply, HttpReplyView, HTTP_OK};
use crate::sort::{lex_order, sort_lex};
use crate::wire::{bytes_eq, copy_range, get_u16_le, push_byte, push_bytes, push_str};
use vstd::prelude::*;
use vstd::string::StringSliceAdditionalSpecFns;

verus! {

/// Every field is a string, with ids counting from 1.
pub open spec fn date_fields_ok(f: Seq<WireField>) -> bool {
    forall|j: int| 0 <= j < f.len() ==> #[trigger] f[j].id == j + 1 && f[j].kind == 1
}

/// The non-empty field data, in field order.
pub open spec fn nonempty_dates(f: Seq<WireField>) -> Seq<Seq<u8>>
    decreases f.len(),
{
    if f.len() == 0 {
        Seq::empty()
    } else if f.last().data.len() > 0 {
        nonempty_dates(f.drop_last()).push(f.last().data)
    } else {
        nonempty_dates(f.drop_last())
    }
}

/// The reply to a PROPROOMDATELIST response: the non-empty dates, sorted.
pub open spec fn date_list_reply(d: Seq<u8>) -> HttpReplyView {
    if !header_ok(d) {
        invalid_reply()
    } else if status_of(d) != success_status() {
        non_success_reply(d, status_of(d), count_of(d), fields_start(d))
    } else if count_of(d) == 0 {
        ok_reply("{\"status\":\"success\",\"dates\":[]}".spec_bytes())
    } else {
        match read_fields(d, fields_start(d)) {
            Some(f) => if f.len() == count_of(d) && date_fields_ok(f) {
                ok_reply(
                    "{\"status\":\"success\",\"dates\":[".spec_bytes() + quoted_list(
                        nonempty_dates(f).sort_by(lex_order()),
                    ) + "]}".spec_bytes(),
                )
            } else {
                invalid_reply()
            },
            None => invalid_reply(),
        }
    }
}

proof fn lemma_date_fields_push(done: Seq<WireField>, f: WireField)
    requires
        date_fields_ok(done),
        f.id == done.len() + 1,
        f.kind == 1,
    ensures
        date_fields_ok(done.push(f)),
{
    assert forall|j: int| 0 <= j < done.push(f).len() implies #[trigger] done.push(f)[j].id == j + 1
        && done.push(f)[j].kind == 1 by {
        if j < done.len() {
            assert(done.push(f)[j] == done[j]);
        }
    }
}

proof fn lemma_date_field_bad(d: Seq<u8>, off: int, done: Seq<WireField>, all: Option<Seq<WireField>>)
    requires
        0 <= off,
        off + 7 <= d.len(),
        after(done, read_fields(d, off)) == all,
        !(field_at(d, off).id == done.len() + 1 && field_at(d, off).kind == 1),
    ensures
        all matches Some(f) ==> !date_fields_ok(f),
{
    lemma_read_fields_step(d, off, done);
    if field_end(d, off) <= d.len() {
        if let Some(f) = all {
            assert(f[done.len() as int] == field_at(d, off));
        }
    }
}

/// Decodes a PROPROOMDATELIST response.
pub fn decode_prop_room_date_list_response(payload: &[u8]) -> (r: HttpReply)
    ensures
        r@ == date_list_reply(payload@),
{
    let data = payload;
    if data.len() == 0 {
        return invalid_response();
    }
    let status_len = data[0] as usize;
    if data.len() < 1 + status_len + 2 {
        return invalid_response();
    }
    let status = &data[1..1 + status_len];
    let field_count = get_u16_le(data, 1 + status_len);
    let start = 1 + status_len + 2;
    if !bytes_eq(status, "SUCCESS".as_bytes()) {
        return handle_non_success_status(data, status, field_count, start);
    }
    if field_count == 0 {
        let mut rsp: Vec<u8> = Vec::new();
        push_str(&mut rsp, "{\"status\":\"success\",\"dates\":[]}");
        return HttpReply { status: HTTP_OK, body: rsp, client_error: false, report_sent: true };
    }
    let mut dates: Vec<Vec<u8>> = Vec::new();
    let mut offset = start;
    let mut expected_id: usize = 1;
    let ghost mut done: Seq<WireField> = Seq::empty();
    let ghost all = read_fields(data@, start as int);
    while offset < data.len() && data.len() - offset >= 7
        invariant
            data@ == payload@,
            start <= offset <= data@.len(),
            start == fields_start(data@),
            header_ok(data@),
            status_of(data@) == success_status(),
            field_count as int == count_of(data@),
            field_count != 0,
            all == read_fields(data@, start as int),
            after(done, read_fields(data@, offset as int)) == all,
            done.len() == expected_id - 1,
            date_fields_ok(done),
            dates.deep_view() == nonempty_dates(done),
        decreases data@.len() - offset,
    {
        let (field_id, field_type, field_len) = match field_header(data, offset) {
            Some(h) => h,
            None => {
                assert(false);
                return invalid_response();
            },
        };
        proof {
            lemma_read_fields_step(data@, offset as int, done);
        }
        if field_id as usize != expected_id {
            proof { lemma_date_field_bad(data@, offset as int, done, all); }
            return invalid_response();
        }
        if field_type != 0x01 {
            proof { lemma_date_field_bad(data@, offset as int, done, all); }
            return invalid_response();
        }
        if field_len > data.len() - (offset + 7) {
            return invalid_response();
        }
        let field_start = offset + 7;
        let ghost f = field_at(data@, offset as int);
        offset = field_start + field_len;
        let ghost prev = dates.deep_view();
        assert(f.data == data@.subrange(field_start as int, offset as int));
        if field_len > 0 {
            let v = copy_range(data, field_start, offset);
            assert(v.deep_view() =~= v@);
            dates.push(v);
            assert(dates.deep_view()[prev.len() as int] == v.deep_view());
            assert(dates.deep_view() =~= prev.push(f.data));
        }
        proof {
            lemma_date_fields_push(done, f);
            assert(done.push(f).drop_last() =~= done);
            done = done.push(f);
            assert(dates.deep_view() =~= nonempty_dates(done));
        }
        expected_id = expected_id + 1;
    }
    proof {
        lemma_read_fields_end(data@, offset as int, done);
    }
    if expected_id - 1 != field_count as usize {
        return invalid_response();
    }
    let sorted = sort_lex(dates);
    let mut json: Vec<u8> = Vec::new();
    push_str(&mut json, "{\"status\":\"success\",\"dates\":[");
    let ghost head = json@;
    let ghost sv = sorted.deep_view();
    let mut i: usize = 0;
    while i < sorted.len()
        invariant
            sv == sorted.deep_view(),
            i <= sv.len(),
            json@ == head + quoted_list(sv.subrange(0, i as int)),
        decreases sv.len() - i,
    {
        if i > 0 {
            push_byte(&mut json, 44);
        }
        push_byte(&mut json, 34);
        push_bytes(&mut json, sorted[i].as_slice());
        push_byte(&mut json, 34);
        proof {
            assert(sorted@[i as int]@ == sv[i as int]);
            lemma_quoted_list_push(sv.subrange(0, i as int), sv[i as int]);
            assert(sv.subrange(0, i + 1) =~= sv.subrange(0, i as int).push(sv[i as int]));
        }
        i = i + 1;
        assert(json@ =~= head + quoted_list(sv.subrange(0, i as int)));
    }
    assert(sv.subrange(0, sv.len() as int) =~= sv);
    push_str(&mut json, "]}");
    HttpReply { status: HTTP_OK, body: json, client_error: false, report_sent: true }
}

} // verus!
