//! GETSEGMENTS: list every segment with its property count.
use crate::helper::comma_separated;
use crate::protocol::fields::{
    after, field_at, field_end, field_header, lemma_read_fields_end, lemma_read_fields_step,
    read_fields, WireField,
};
use crate::protocol::response::{
    count_of, fields_start, handle_non_success_status, header_ok, non_success_reply, status_of,
    success_status,
};
use crate::protocol::{invalid_reply, invalid_response, HttpReply, HttpReplyView, HTTP_OK};
use crate::text::{decimal, u32_to_string_bytes};
use crate::wire::{bytes_eq, copy_range, get_u16_le, get_u32_le, push_byte, push_bytes, push_str, read_u32};
use vstd::prelude::*;
use vstd::string::StringSliceAdditionalSpecFns;

verus! {

/// Fields alternate between a segment name (odd ids, strings) and its
/// property count (even ids, 4-byte integers), with ids counting from 1.
pub open spec fn segment_fields_ok(f: Seq<WireField>) -> bool {
    forall|j: int|
        0 <= j < f.len() ==> #[trigger] f[j].id == j + 1 && (j % 2 == 0 ==> f[j].kind == 1) && (j
            % 2 == 1 ==> f[j].kind == 3 && f[j].data.len() == 4)
}

/// `{"segment":"<name>","propCount":<count>}`
pub open spec fn segment_entry(name: Seq<u8>, count: Seq<u8>) -> Seq<u8> {
    "{\"segment\":\"".spec_bytes() + name + "\",\"propCount\":".spec_bytes() + decimal(
        read_u32(count, 0) as nat,
    ) + "}".spec_bytes()
}

/// The first `n` segment entries, separated by commas.
pub open spec fn segments_list(f: Seq<WireField>, n: nat) -> Seq<u8>
    decreases n,
{
    if n == 0 {
        Seq::empty()
    } else if n == 1 {
        segment_entry(f[0].data, f[1].data)
    } else {
        segments_list(f, (n - 1) as nat) + seq![44u8] + segment_entry(
            f[2 * n - 2].data,
            f[2 * n - 1].data,
        )
    }
}

/// The reply to a GETSEGMENTS response.
pub open spec fn get_segments_reply(d: Seq<u8>) -> HttpReplyView {
    if !header_ok(d) {
        invalid_reply()
    } else if status_of(d) != success_status() {
        non_success_reply(d, status_of(d), count_of(d), fields_start(d))
    } else if count_of(d) == 0 {
        HttpReplyView {
            status: HTTP_OK,
            body: "{\"status\":\"success\",\"segments\":[]}".spec_bytes(),
            client_error: false,
            report_sent: true,
        }
    } else if count_of(d) % 2 != 0 {
        invalid_reply()
    } else {
        match read_fields(d, fields_start(d)) {
            Some(f) => if f.len() == count_of(d) && segment_fields_ok(f) {
                HttpReplyView {
                    status: HTTP_OK,
                    body: "{\"status\":\"success\",\"segments\":[".spec_bytes() + segments_list(
                        f,
                        (f.len() / 2) as nat,
                    ) + "]}".spec_bytes(),
                    client_error: false,
                    report_sent: true,
                }
            } else {
                invalid_reply()
            },
            None => invalid_reply(),
        }
    }
}

/// Decodes a GETSEGMENTS response.
pub fn decode_get_segments_response(payload: &[u8]) -> (r: HttpReply)
    ensures
        r@ == get_segments_reply(payload@),
{
    let data = payload;
    if data.len() == 0 {
        return invalid_response();
    }
    let status_len = data[0] as usize;
    if data.len() < 1 + status_len + 2 {
        return invalid_response();
    }
    let status = &data[1..1 + status_len];
    let field_count = get_u16_le(data, 1 + status_len);
    let start = 1 + status_len + 2;
    if !bytes_eq(status, "SUCCESS".as_bytes()) {
        return handle_non_success_status(data, status, field_count, start);
    }
    if field_count == 0 {
        let mut rsp: Vec<u8> = Vec::new();
        push_str(&mut rsp, "{\"status\":\"success\",\"segments\":[]}");
        return HttpReply { status: HTTP_OK, body: rsp, client_error: false, report_sent: true };
    }
    if field_count % 2 != 0 {
        return invalid_response();
    }
    let mut names: Vec<Vec<u8>> = Vec::new();
    let mut counts: Vec<u32> = Vec::new();
    let mut offset = start;
    let mut expected_id: usize = 1;
    let ghost mut done: Seq<WireField> = Seq::empty();
    let ghost all = read_fields(data@, start as int);
    while offset < data.len() && data.len() - offset >= 7
        invariant
            data@ == payload@,
            start <= offset <= data@.len(),
            start == fields_start(data@),
            header_ok(data@),
            status_of(data@) == success_status(),
            field_count as int == count_of(data@),
            field_count != 0,
            field_count % 2 == 0,
            all == read_fields(data@, start as int),
            after(done, read_fields(data@, offset as int)) == all,
            done.len() == expected_id - 1,
            segment_fields_ok(done),
            names@.len() == (done.len() + 1) / 2,
            counts@.len() == done.len() / 2,
            forall|i: int| 0 <= i < names@.len() ==> #[trigger] names@[i]@ == done[2 * i].data,
            forall|i: int| 0 <= i < counts@.len() ==> #[trigger] counts@[i] as int == read_u32(done[2 * i + 1].data, 0),
        decreases data@.len() - offset,
    {
        let (field_id, field_type, field_len) = match field_header(data, offset) {
            Some(h) => h,
            None => {
                assert(false);
                return invalid_response();
            },
        };
        proof {
            lemma_read_fields_step(data@, offset as int, done);
        }
        if field_id as usize != expected_id {
            proof { lemma_fields_not_ok(data@, offset as int, done, all); }
            assert(all matches Some(f) ==> !segment_fields_ok(f));
            return invalid_response();
        }
        if field_len > data.len() - (offset + 7) {
            return invalid_response();
        }
        let field_start = offset + 7;
        offset = field_start + field_len;
        let ghost f = field_at(data@, (field_start - 7) as int);
        if expected_id % 2 == 1 {
            if field_type != 0x01 {
                proof { lemma_fields_not_ok(data@, (field_start - 7) as int, done, all); }
                return invalid_response();
            }
            names.push(copy_range(data, field_start, offset));
        } else {
            if field_type != 0x03 || field_len != 4 {
                proof { lemma_fields_not_ok(data@, (field_start - 7) as int, done, all); }
                return invalid_response();
            }
            counts.push(get_u32_le(data, field_start));
            proof {
                assert(read_u32(f.data, 0) == read_u32(data@, field_start as int));
            }
        }
        proof {
            lemma_segment_fields_push(done, f);
            done = done.push(f);
        }
        expected_id = expected_id + 1;
    }
    proof {
        lemma_read_fields_end(data@, offset as int, done);
    }
    if expected_id - 1 != field_count as usize {
        return invalid_response();
    }
    let mut json: Vec<u8> = Vec::new();
    push_str(&mut json, "{\"status\":\"success\",\"segments\":[");
    let ghost head = json@;
    let mut i: usize = 0;
    while i < names.len()
        invariant
            names@.len() == counts@.len(),
            i <= names@.len(),
            done.len() == 2 * names@.len(),
            forall|k: int| 0 <= k < names@.len() ==> #[trigger] names@[k]@ == done[2 * k].data,
            forall|k: int| 0 <= k < counts@.len() ==> #[trigger] counts@[k] as int == read_u32(done[2 * k + 1].data, 0),
            json@ == head + segments_list(done, i as nat),
        decreases names@.len() - i,
    {
        if i > 0 {
            push_byte(&mut json, 44);
        }
        push_str(&mut json, "{\"segment\":\"");
        push_bytes(&mut json, names[i].as_slice());
        push_str(&mut json, "\",\"propCount\":");
        let digits = u32_to_string_bytes(counts[i]);
        push_bytes(&mut json, digits.as_slice());
        push_str(&mut json, "}");
        proof {
            assert(names@[i as int]@ == done[2 * i].data);
            assert(counts@[i as int] as int == read_u32(done[2 * i + 1].data, 0));
        }
        i = i + 1;
        assert(json@ =~= head + segments_list(done, i as nat));
    }
    push_str(&mut json, "]}");
    HttpReply { status: HTTP_OK, body: json, client_error: false, report_sent: true }
}

proof fn lemma_segment_fields_push(done: Seq<WireField>, f: WireField)
    requires
        segment_fields_ok(done),
        f.id == done.len() + 1,
        done.len() % 2 == 0 ==> f.kind == 1,
        done.len() % 2 == 1 ==> f.kind == 3 && f.data.len() == 4,
    ensures
        segment_fields_ok(done.push(f)),
{
    assert forall|j: int| 0 <= j < done.push(f).len() implies #[trigger] done.push(f)[j].id == j + 1 && (j
        % 2 == 0 ==> done.push(f)[j].kind == 1) && (j % 2 == 1 ==> done.push(f)[j].kind == 3
        && done.push(f)[j].data.len() == 4) by {
        if j < done.len() {
            assert(done.push(f)[j] == done[j]);
        }
    }
}

/// A field whose id or type breaks the pattern makes the whole list unfit.
proof fn lemma_fields_not_ok(d: Seq<u8>, off: int, done: Seq<WireField>, all: Option<Seq<WireField>>)
    requires
        0 <= off,
        off + 7 <= d.len(),
        after(done, read_fields(d, off)) == all,
        !(field_at(d, off).id == done.len() + 1 && (done.len() % 2 == 0 ==> field_at(d, off).kind
            == 1) && (done.len() % 2 == 1 ==> field_at(d, off).kind == 3 && field_at(d, off).data.len()
            == 4)),
    ensures
        all matches Some(f) ==> !segment_fields_ok(f),
{
    lemma_read_fields_step(d, off, done);
    if field_end(d, off) <= d.len() {
        if let Some(f) = all {
            let k = done.len() as int;
            assert(f[k] == field_at(d, off));
        }
    }
}

} // verus!

verus! {

/// The segment entries of the first `n` name/count field pairs.
pub open spec fn segment_entries(f: Seq<WireField>, n: nat) -> Seq<Seq<u8>> {
    Seq::new(n, |i: int| segment_entry(f[2 * i].data, f[2 * i + 1].data))
}

/// The segments form a JSON array: one entry per name/count pair, in
/// answer order, with a single comma between neighbours.
pub proof fn law_segments_comma_separated(f: Seq<WireField>, n: nat)
    ensures
        segment_entries(f, n).len() == n,
        segments_list(f, n) == comma_separated(segment_entries(f, n)),
    decreases n,
{
    if n > 1 {
        let m = (n - 1) as nat;
        law_segments_comma_separated(f, m);
        assert(segment_entries(f, n).drop_last() =~= segment_entries(f, m));
        assert(2 * m == 2 * n - 2);
    }
}

} // verus!
