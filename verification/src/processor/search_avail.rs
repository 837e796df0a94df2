//! SEARCHAVAIL: availability and prices of matching properties over a list
//! of dates.
use crate::bitmask::CodecStore;
use crate::helper::{
    current_utc_year, packed_date_ok, packed_date_text, quoted_property_id, rate_feature_json,
    write_packed_date_in_year, write_quoted_property_id, write_rate_features_array,
};
use crate::helper::{comma_separated, CHRONO_MAX_YEAR};
use crate::helper::UNIX_EPOCH_YEAR;
use crate::protocol::fields::{
    after, field_at, field_end, field_header, lemma_read_fields_end, lemma_read_fields_step,
    read_fields, WireField,
};
use crate::protocol::response::{
    count_of, fields_start, handle_non_success_status, header_ok, non_success_reply, status_of,
    success_status,
};
use crate::protocol::{invalid_reply, invalid_response, HttpReply, HttpReplyView, HTTP_OK};
use crate::text::{decimal, itoa_u32};
use crate::wire::{bytes_eq, get_u16_le, get_u32_le, push_byte, push_bytes, push_str, read_u16, read_u32};
use vstd::prelude::*;
use vstd::string::StringSliceAdditionalSpecFns;

verus! {

/// What the field at position `j` must be: field 1 is the 2-byte day count,
/// then each property id (string) is followed by its days vector (type 0x08).
pub open spec fn avail_field_ok(j: int, w: WireField) -> bool {
    &&& w.id == j + 1
    &&& j == 0 ==> w.kind == 2 && w.data.len() == 2
    &&& j >= 1 && j % 2 == 1 ==> w.kind == 1
    &&& j >= 2 && j % 2 == 0 ==> w.kind == 8
}

/// The fields of a SEARCHAVAIL response are well formed.
pub open spec fn avail_fields_ok(f: Seq<WireField>) -> bool {
    &&& f.len() % 2 == 1
    &&& forall|j: int| 0 <= j < f.len() ==> avail_field_ok(j, #[trigger] f[j])
}

/// The 11-byte record of day `k` in a days vector.
pub open spec fn day_record(dd: Seq<u8>, k: int) -> Seq<u8> {
    dd.subrange(2 + 11 * k, 13 + 11 * k)
}

/// One day: `{"date":"YYYY-MM-DD","availability":A,"final_price":P,"rate_feature":[...]}`,
/// or `None` when the packed date is not a valid date relative to `y`.
pub open spec fn day_json(day: Seq<u8>, store: Option<Seq<Seq<char>>>, y: int) -> Option<Seq<u8>> {
    let p = read_u16(day, 0) as u16;
    if packed_date_ok(y, p) {
        Some(
            seq![123u8] + "\"date\":\"".spec_bytes() + packed_date_text(y, p)
                + "\",\"availability\":".spec_bytes() + decimal(day[2] as nat)
                + ",\"final_price\":".spec_bytes() + decimal(read_u32(day, 3) as nat) + seq![44u8]
                + rate_feature_json(store, read_u32(day, 7) as u32) + seq![125u8],
        )
    } else {
        None
    }
}

/// The first `n` days, separated by commas.
pub open spec fn days_json(dd: Seq<u8>, n: nat, store: Option<Seq<Seq<char>>>, y: int) -> Option<Seq<u8>>
    decreases n,
{
    if n == 0 {
        Some(Seq::empty())
    } else {
        match (days_json(dd, (n - 1) as nat, store, y), day_json(day_record(dd, n - 1), store, y)) {
            (Some(p), Some(q)) => Some(
                if n == 1 {
                    q
                } else {
                    p + seq![44u8] + q
                },
            ),
            _ => None,
        }
    }
}

/// One property: `{"property_id":"...","days":[...]}`, or `None` when its
/// days vector is malformed.
pub open spec fn property_json(pid: Seq<u8>, dd: Seq<u8>, store: Option<Seq<Seq<char>>>, y: int) -> Option<Seq<u8>> {
    if dd.len() >= 2 && dd.len() == 2 + 11 * read_u16(dd, 0) {
        match days_json(dd, read_u16(dd, 0) as nat, store, y) {
            Some(q) => Some(
                seq![123u8] + "\"property_id\":".spec_bytes() + quoted_property_id(pid)
                    + ",\"days\":[".spec_bytes() + q + "]}".spec_bytes(),
            ),
            None => None,
        }
    } else {
        None
    }
}

/// The first `n` properties (fields `2i+1` and `2i+2`), separated by commas.
pub open spec fn properties_json(f: Seq<WireField>, n: nat, store: Option<Seq<Seq<char>>>, y: int) -> Option<Seq<u8>>
    decreases n,
{
    if n == 0 {
        Some(Seq::empty())
    } else {
        match (
            properties_json(f, (n - 1) as nat, store, y),
            property_json(f[2 * n - 1].data, f[2 * n as int].data, store, y),
        ) {
            (Some(p), Some(q)) => Some(
                if n == 1 {
                    q
                } else {
                    p + seq![44u8] + q
                },
            ),
            _ => None,
        }
    }
}

/// The reply to a SEARCHAVAIL response, with dates relative to base year `y`.
pub open spec fn search_avail_reply(d: Seq<u8>, store: Option<Seq<Seq<char>>>, y: int) -> HttpReplyView {
    if !header_ok(d) {
        invalid_reply()
    } else if status_of(d) != success_status() {
        non_success_reply(d, status_of(d), count_of(d), fields_start(d))
    } else if count_of(d) == 0 {
        HttpReplyView {
            status: HTTP_OK,
            body: "{\"status\":\"success\",\"properties\":[".spec_bytes() + "]}".spec_bytes(),
            client_error: false,
            report_sent: true,
        }
    } else if (count_of(d) - 1) % 2 != 0 {
        invalid_reply()
    } else {
        match read_fields(d, fields_start(d)) {
            Some(f) => if f.len() == count_of(d) && avail_fields_ok(f) {
                match properties_json(f, ((f.len() - 1) / 2) as nat, store, y) {
                    Some(p) => HttpReplyView {
                        status: HTTP_OK,
                        body: "{\"status\":\"success\",\"properties\":[".spec_bytes() + p
                            + "]}".spec_bytes(),
                        client_error: false,
                        report_sent: true,
                    },
                    None => invalid_reply(),
                }
            } else {
                invalid_reply()
            },
            None => invalid_reply(),
        }
    }
}

proof fn lemma_days_json_none(dd: Seq<u8>, k: nat, n: nat, store: Option<Seq<Seq<char>>>, y: int)
    requires
        k <= n,
        days_json(dd, k, store, y) is None,
    ensures
        days_json(dd, n, store, y) is None,
    decreases n - k,
{
    if k < n {
        lemma_days_json_none(dd, k, (n - 1) as nat, store, y);
    }
}

proof fn lemma_properties_json_prefix(f: Seq<WireField>, g: Seq<WireField>, n: nat, store: Option<Seq<Seq<char>>>, y: int)
    requires
        2 * n + 1 <= f.len(),
        2 * n + 1 <= g.len(),
        forall|j: int| 0 <= j < 2 * n + 1 ==> f[j] == g[j],
    ensures
        properties_json(f, n, store, y) == properties_json(g, n, store, y),
    decreases n,
{
    if n > 0 {
        lemma_properties_json_prefix(f, g, (n - 1) as nat, store, y);
        assert(f[2 * n - 1] == g[2 * n - 1]);
        assert(f[2 * n as int] == g[2 * n as int]);
    }
}

proof fn lemma_properties_json_none(f: Seq<WireField>, k: nat, n: nat, store: Option<Seq<Seq<char>>>, y: int)
    requires
        k <= n,
        properties_json(f, k, store, y) is None,
    ensures
        properties_json(f, n, store, y) is None,
    decreases n - k,
{
    if k < n {
        lemma_properties_json_none(f, k, (n - 1) as nat, store, y);
    }
}

/// A field that breaks the pattern at its position makes the list unfit.
proof fn lemma_avail_bad_field(d: Seq<u8>, off: int, done: Seq<WireField>, all: Option<Seq<WireField>>)
    requires
        0 <= off,
        off + 7 <= d.len(),
        after(done, read_fields(d, off)) == all,
        field_end(d, off) <= d.len() ==> !avail_field_ok(done.len() as int, field_at(d, off)),
    ensures
        all matches Some(f) ==> !avail_fields_ok(f),
{
    lemma_read_fields_step(d, off, done);
    if field_end(d, off) <= d.len() {
        if let Some(f) = all {
            let k = done.len() as int;
            assert(f[k] == field_at(d, off));
        }
    }
}

/// Writes one day record; `false` when its packed date is refused.
fn write_day(json: &mut Vec<u8>, data: &[u8], day_off: usize, store: &CodecStore, base_year: i32) -> (ok: bool)
    requires
        day_off + 11 <= data@.len(),
    ensures
        ok == day_json(data@.subrange(day_off as int, day_off + 11), store@, base_year as int) is Some,
        ok ==> final(json)@ == old(json)@ + day_json(
            data@.subrange(day_off as int, day_off + 11),
            store@,
            base_year as int,
        ).unwrap(),
{
    let ghost day = data@.subrange(day_off as int, day_off + 11);
    let data_len = data.len();
    push_byte(json, 123);
    push_str(json, "\"date\":\"");
    let date_packed = get_u16_le(data, day_off);
    assert(date_packed as int == read_u16(day, 0));
    if write_packed_date_in_year(json, date_packed, base_year).is_err() {
        return false;
    }
    assert(day_off + 11 <= data_len);
    let availability = data[day_off + 2];
    push_str(json, "\",\"availability\":");
    let a = itoa_u32(availability as u32);
    push_bytes(json, a.as_slice());
    let final_price = get_u32_le(data, day_off + 3);
    assert(final_price as int == read_u32(day, 3));
    push_str(json, ",\"final_price\":");
    let p = itoa_u32(final_price);
    push_bytes(json, p.as_slice());
    let rate_mask = get_u32_le(data, day_off + 7);
    assert(rate_mask as int == read_u32(day, 7));
    push_byte(json, 44);
    write_rate_features_array(json, store, rate_mask);
    push_byte(json, 125);
    assert(final(json)@ =~= old(json)@ + day_json(day, store@, base_year as int).unwrap());
    true
}

/// Writes the days of a days vector `data[start..end]`; `false` when it is
/// malformed or a date is refused.
fn write_days(json: &mut Vec<u8>, data: &[u8], start: usize, end: usize, store: &CodecStore, base_year: i32) -> (ok: bool)
    requires
        start <= end <= data@.len(),
        end - start >= 2,
        end - start == 2 + 11 * read_u16(data@, start as int),
    ensures
        ok == days_json(
            data@.subrange(start as int, end as int),
            read_u16(data@, start as int) as nat,
            store@,
            base_year as int,
        ) is Some,
        ok ==> final(json)@ == old(json)@ + days_json(
            data@.subrange(start as int, end as int),
            read_u16(data@, start as int) as nat,
            store@,
            base_year as int,
        ).unwrap(),
{
    let ghost dd = data@.subrange(start as int, end as int);
    let days_count = get_u16_le(data, start);
    let mut k: u16 = 0;
    let mut d_off = start + 2;
    while k < days_count
        invariant
            start <= end <= data@.len(),
            dd == data@.subrange(start as int, end as int),
            days_count as int == read_u16(data@, start as int),
            end - start == 2 + 11 * days_count,
            k <= days_count,
            d_off == start + 2 + 11 * k,
            days_json(dd, k as nat, store@, base_year as int) is Some,
            json@ == old(json)@ + days_json(dd, k as nat, store@, base_year as int).unwrap(),
        decreases days_count - k,
    {
        if k > 0 {
            push_byte(json, 44);
        }
        let ghost before = json@;
        assert(day_record(dd, k as int) =~= data@.subrange(d_off as int, d_off + 11));
        if !write_day(json, data, d_off, store, base_year) {
            proof {
                lemma_days_json_none(dd, (k + 1) as nat, days_count as nat, store@, base_year as int);
            }
            return false;
        }
        k = k + 1;
        d_off = d_off + 11;
        assert(json@ =~= old(json)@ + days_json(dd, k as nat, store@, base_year as int).unwrap());
    }
    assert(read_u16(dd, 0) == read_u16(data@, start as int));
    true
}

/// Writes one property with its days; `false` when its days vector is
/// malformed or a date is refused.
fn write_property(
    json: &mut Vec<u8>,
    data: &[u8],
    pid_start: usize,
    pid_end: usize,
    days_start: usize,
    days_end: usize,
    store: &CodecStore,
    base_year: i32,
) -> (ok: bool)
    requires
        pid_start <= pid_end <= data@.len(),
        days_start <= days_end <= data@.len(),
    ensures
        ok == property_json(
            data@.subrange(pid_start as int, pid_end as int),
            data@.subrange(days_start as int, days_end as int),
            store@,
            base_year as int,
        ) is Some,
        ok ==> final(json)@ == old(json)@ + property_json(
            data@.subrange(pid_start as int, pid_end as int),
            data@.subrange(days_start as int, days_end as int),
            store@,
            base_year as int,
        ).unwrap(),
{
    let ghost dd = data@.subrange(days_start as int, days_end as int);
    push_byte(json, 123);
    push_str(json, "\"property_id\":");
    let _ = write_quoted_property_id(json, &data[pid_start..pid_end]);
    push_str(json, ",\"days\":[");
    let days_len = days_end - days_start;
    if days_len < 2 {
        return false;
    }
    let days_count = get_u16_le(data, days_start);
    assert(read_u16(dd, 0) == read_u16(data@, days_start as int));
    if days_len != 2 + 11 * (days_count as usize) {
        return false;
    }
    if !write_days(json, data, days_start, days_end, store, base_year) {
        return false;
    }
    push_str(json, "]}");
    assert(final(json)@ =~= old(json)@ + property_json(
        data@.subrange(pid_start as int, pid_end as int),
        dd,
        store@,
        base_year as int,
    ).unwrap());
    true
}

/// Decodes a SEARCHAVAIL response, with packed dates relative to base year
/// `base_year`.
#[verifier::rlimit(80)]
#[verifier::spinoff_prover]
pub fn decode_search_avail_response_in_year(payload: &[u8], store: &CodecStore, base_year: i32) -> (r: HttpReply)
    ensures
        r@ == search_avail_reply(payload@, store@, base_year as int),
{
    let data = payload;
    if data.len() == 0 {
        return invalid_response();
    }
    let status_len = data[0] as usize;
    if data.len() < 1 + status_len + 2 {
        return invalid_response();
    }
    let status = &data[1..1 + status_len];
    let total_fields = get_u16_le(data, 1 + status_len);
    let start = 1 + status_len + 2;
    if !bytes_eq(status, "SUCCESS".as_bytes()) {
        return handle_non_success_status(data, status, total_fields, start);
    }
    let mut json: Vec<u8> = Vec::new();
    push_str(&mut json, "{\"status\":\"success\",\"properties\":[");
    let ghost head = json@;
    if total_fields == 0 {
        push_str(&mut json, "]}");
        return HttpReply { status: HTTP_OK, body: json, client_error: false, report_sent: true };
    }
    if (total_fields - 1) % 2 != 0 {
        return invalid_response();
    }
    let ghost y = base_year as int;
    let mut offset = start;
    let mut current_field: u32 = 1;
    let mut nprops: usize = 0;
    let ghost mut done: Seq<WireField> = Seq::empty();
    let ghost mut body: Seq<u8> = Seq::empty();
    let ghost all = read_fields(data@, start as int);
    while offset < data.len() && data.len() - offset >= 7
        invariant
            data@ == payload@,
            start <= offset <= data@.len(),
            start == fields_start(data@),
            header_ok(data@),
            status_of(data@) == success_status(),
            total_fields as int == count_of(data@),
            total_fields != 0,
            (total_fields - 1) % 2 == 0,
            y == base_year as int,
            all == read_fields(data@, start as int),
            after(done, read_fields(data@, offset as int)) == all,
            done.len() == current_field - 1,
            done.len() == 0 || done.len() == 2 * nprops + 1,
            done.len() == 0 ==> nprops == 0,
            forall|j: int| 0 <= j < done.len() ==> avail_field_ok(j, #[trigger] done[j]),
            properties_json(done, nprops as nat, store@, y) == Some(body),
            json@ == head + body,
        decreases data@.len() - offset,
    {
        let (field_id, field_type, field_len) = match field_header(data, offset) {
            Some(h) => h,
            None => {
                assert(false);
                return invalid_response();
            },
        };
        proof {
            lemma_read_fields_step(data@, offset as int, done);
        }
        if field_id as u32 != current_field || field_len > data.len() - (offset + 7) {
            proof {
                lemma_avail_bad_field(data@, offset as int, done, all);
            }
            return invalid_response();
        }
        let field_start = offset + 7;
        let ghost fa = field_at(data@, offset as int);
        offset = field_start + field_len;
        if current_field == 1 {
            if field_type != 0x02 || field_len != 2 {
                proof {
                    lemma_avail_bad_field(data@, (field_start - 7) as int, done, all);
                }
                return invalid_response();
            }
            proof {
                assert forall|j: int| 0 <= j < done.push(fa).len() implies avail_field_ok(
                    j,
                    #[trigger] done.push(fa)[j],
                ) by {}
                done = done.push(fa);
            }
            current_field = 2;
        } else {
            if field_type != 0x01 {
                proof {
                    lemma_avail_bad_field(data@, (field_start - 7) as int, done, all);
                }
                return invalid_response();
            }
            let ghost body_before = body;
            let pid_end = offset;
            let ghost done1 = done.push(fa);
            let (next_id, days_type, days_len) = match field_header(data, offset) {
                Some(h) => h,
                None => {
                    proof {
                        lemma_read_fields_end(data@, offset as int, done1);
                    }
                    return invalid_response();
                },
            };
            proof {
                lemma_read_fields_step(data@, offset as int, done1);
            }
            if next_id as u32 != current_field + 1 || days_type != 0x08 || days_len > data.len() - (
            offset + 7) {
                proof {
                    lemma_avail_bad_field(data@, offset as int, done1, all);
                }
                return invalid_response();
            }
            let days_start = offset + 7;
            let ghost db = field_at(data@, offset as int);
            offset = days_start + days_len;
            let ghost done2 = done1.push(db);
            proof {
                assert forall|j: int| 0 <= j < done2.len() implies avail_field_ok(j, #[trigger] done2[j]) by {
                    if j < done.len() {
                        assert(done2[j] == done[j]);
                    }
                }
                lemma_properties_json_prefix(done, done2, nprops as nat, store@, y);
                assert(done2[2 * nprops + 1] == fa);
                assert(done2[2 * nprops + 2] == db);
            }
            if nprops > 0 {
                push_byte(&mut json, 44);
            }
            let ghost before_prop = json@;
            if !write_property(&mut json, data, field_start, pid_end, days_start, offset, store, base_year) {
                proof {
                    lemma_avail_none(data@, offset as int, done2, all, nprops as nat, store@, y);
                }
                return invalid_response();
            }
            proof {
                let q = property_json(fa.data, db.data, store@, y).unwrap();
                body = if nprops == 0 { q } else { body_before + seq![44u8] + q };
                done = done2;
            }
            assert(json@ =~= head + body);
            nprops = nprops + 1;
            current_field = current_field + 2;
        }
    }
    proof {
        lemma_read_fields_end(data@, offset as int, done);
    }
    if current_field - 1 != total_fields as u32 {
        return invalid_response();
    }
    push_str(&mut json, "]}");
    assert(json@ =~= "{\"status\":\"success\",\"properties\":[".spec_bytes() + body + "]}".spec_bytes());
    HttpReply { status: HTTP_OK, body: json, client_error: false, report_sent: true }
}

/// When the property just read cannot be rendered, neither can the reply.
proof fn lemma_avail_none(
    d: Seq<u8>,
    off: int,
    done2: Seq<WireField>,
    all: Option<Seq<WireField>>,
    nprops: nat,
    store: Option<Seq<Seq<char>>>,
    y: int,
)
    requires
        0 <= off,
        after(done2, read_fields(d, off)) == all,
        done2.len() == 2 * nprops + 3,
        property_json(done2[2 * nprops as int + 1].data, done2[2 * nprops as int + 2].data, store, y) is None,
    ensures
        all matches Some(f) ==> properties_json(f, ((f.len() - 1) / 2) as nat, store, y) is None
            || !avail_fields_ok(f),
{
    if let Some(f) = all {
        if avail_fields_ok(f) {
            let rest = read_fields(d, off).unwrap();
            assert(f == done2 + rest);
            assert(f[2 * nprops as int + 1] == done2[2 * nprops as int + 1]);
            assert(f[2 * nprops as int + 2] == done2[2 * nprops as int + 2]);
            lemma_properties_json_none(f, nprops + 1, ((f.len() - 1) / 2) as nat, store, y);
        }
    }
}

/// The base year used when the clock cannot be read: every packed date is
/// past 9999 relative to it, so no date can be written.
pub const UNDATED_BASE_YEAR: i32 = 10000;

/// Decodes a SEARCHAVAIL response, with packed dates relative to the
/// current year, which is read from the clock. When the clock cannot be
/// read, no date can be written, and a response that carries a date is
/// answered as not following the protocol.
pub fn decode_search_avail_response(payload: &[u8], store: &CodecStore) -> (r: HttpReply)
    ensures
        exists|y: int| UNIX_EPOCH_YEAR <= y <= CHRONO_MAX_YEAR && r@ == #[trigger] search_avail_reply(payload@, store@, y),
{
    let year = match current_utc_year() {
        Some(y) => y,
        None => UNDATED_BASE_YEAR,
    };
    decode_search_avail_response_in_year(payload, store, year)
}

} // verus!

verus! {

/// The JSON objects of the first `n` properties, one per property.
pub open spec fn property_objects(f: Seq<WireField>, n: nat, store: Option<Seq<Seq<char>>>, y: int) -> Seq<Seq<u8>> {
    Seq::new(n, |i: int| property_json(f[2 * i + 1].data, f[2 * i + 2].data, store, y).unwrap())
}

/// A property object starts with `{` and ends with `}`.
proof fn lemma_property_object_braces(pid: Seq<u8>, dd: Seq<u8>, store: Option<Seq<Seq<char>>>, y: int)
    requires
        property_json(pid, dd, store, y) is Some,
    ensures
        property_json(pid, dd, store, y).unwrap().len() >= 2,
        property_json(pid, dd, store, y).unwrap()[0] == 123u8,
        property_json(pid, dd, store, y).unwrap().last() == 125u8,
{
    let q = property_json(pid, dd, store, y).unwrap();
    let inner = days_json(dd, read_u16(dd, 0) as nat, store, y).unwrap();
    let head = seq![123u8] + "\"property_id\":".spec_bytes() + quoted_property_id(pid)
        + ",\"days\":[".spec_bytes() + inner;
    reveal_strlit("]}");
    let tail = "]}".spec_bytes();
    assert(tail =~= seq![93u8, 125u8]) by {
        vstd::utf8::is_ascii_chars_encode_utf8("]}"@);
    }
    assert(q == head + tail);
    assert(head[0] == 123u8);
    assert((head + tail)[0] == head[0]);
    assert((head + tail).last() == tail[1]);
}

/// The properties of a SEARCHAVAIL answer form a JSON array: one object per
/// property, each `{...}`, in answer order, with a single comma between
/// neighbours.
#[verifier::rlimit(40)]
pub proof fn law_properties_comma_separated(f: Seq<WireField>, n: nat, store: Option<Seq<Seq<char>>>, y: int)
    requires
        properties_json(f, n, store, y) is Some,
    ensures
        property_objects(f, n, store, y).len() == n,
        properties_json(f, n, store, y) == Some(comma_separated(property_objects(f, n, store, y))),
        forall|i: int|
            0 <= i < n ==> property_json(f[2 * i + 1].data, f[2 * i + 2].data, store, y) == Some(
                #[trigger] property_objects(f, n, store, y)[i],
            ),
        forall|i: int|
            0 <= i < n ==> (#[trigger] property_objects(f, n, store, y)[i])[0] == 123u8
                && property_objects(f, n, store, y)[i].last() == 125u8,
    decreases n,
{
    let objs = property_objects(f, n, store, y);
    if n > 0 {
        let m = (n - 1) as nat;
        assert(properties_json(f, m, store, y) is Some);
        law_properties_comma_separated(f, m, store, y);
        let prev = property_objects(f, m, store, y);
        assert(objs.drop_last() =~= prev);
        let pid = f[2 * n - 1].data;
        let dd = f[2 * n as int].data;
        assert(property_json(pid, dd, store, y) is Some);
        lemma_property_object_braces(pid, dd, store, y);
        assert(2 * m + 1 == 2 * n - 1 && 2 * m + 2 == 2 * n);
        assert(objs[m as int] == property_json(pid, dd, store, y).unwrap());
        assert forall|i: int| 0 <= i < n implies property_json(f[2 * i + 1].data, f[2 * i + 2].data, store, y)
            == Some(#[trigger] objs[i]) && objs[i][0] == 123u8 && objs[i].last() == 125u8 by {
            if i < m {
                assert(objs[i] == prev[i]);
            }
        }
    }
}

/// A successful SEARCHAVAIL reply with properties lists them as a JSON
/// array: `{"status":"success","properties":[` then one object per property
/// (as many as the answer's property count), separated by single commas,
/// then `]}`.
pub proof fn law_search_avail_reply_lists_properties(d: Seq<u8>, store: Option<Seq<Seq<char>>>, y: int)
    requires
        header_ok(d),
        status_of(d) == success_status(),
        count_of(d) > 0,
        search_avail_reply(d, store, y).status == HTTP_OK,
    ensures
        read_fields(d, fields_start(d)) matches Some(f) && {
            let objs = property_objects(f, ((count_of(d) - 1) / 2) as nat, store, y);
            &&& objs.len() == (count_of(d) - 1) / 2
            &&& search_avail_reply(d, store, y).body == "{\"status\":\"success\",\"properties\":[".spec_bytes()
                + comma_separated(objs) + "]}".spec_bytes()
        },
{
    let f = read_fields(d, fields_start(d)).unwrap();
    law_properties_comma_separated(f, ((f.len() - 1) / 2) as nat, store, y);
}

} // verus!

verus! {

/// The JSON objects of the first `n` days of a days vector.
pub open spec fn day_objects(dd: Seq<u8>, n: nat, store: Option<Seq<Seq<char>>>, y: int) -> Seq<Seq<u8>> {
    Seq::new(n, |i: int| day_json(day_record(dd, i), store, y).unwrap())
}

/// The days of a property form a JSON array: one object per day, in
/// record order, with a single comma between neighbours.
pub proof fn law_days_comma_separated(dd: Seq<u8>, n: nat, store: Option<Seq<Seq<char>>>, y: int)
    requires
        days_json(dd, n, store, y) is Some,
    ensures
        day_objects(dd, n, store, y).len() == n,
        days_json(dd, n, store, y) == Some(comma_separated(day_objects(dd, n, store, y))),
        forall|i: int|
            0 <= i < n ==> day_json(day_record(dd, i), store, y) == Some(
                #[trigger] day_objects(dd, n, store, y)[i],
            ),
    decreases n,
{
    let objs = day_objects(dd, n, store, y);
    if n > 0 {
        let m = (n - 1) as nat;
        assert(days_json(dd, m, store, y) is Some);
        law_days_comma_separated(dd, m, store, y);
        let prev = day_objects(dd, m, store, y);
        assert(objs.drop_last() =~= prev);
        assert(day_json(day_record(dd, m as int), store, y) is Some);
        assert forall|i: int| 0 <= i < n implies day_json(day_record(dd, i), store, y) == Some(
            #[trigger] objs[i],
        ) by {
            if i < m {
                assert(objs[i] == prev[i]);
            }
        }
    }
}

} // verus!
