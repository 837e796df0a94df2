//! Rendering helpers: rate-feature names, property ids and packed dates.
use crate::bitmask::{get_rate_features, CodecStore};
use crate::error::{internal_error, validation_error, RZError, RZErrorView};
use crate::text::{
    ascii_chars, hex_pair, hex_run, string_from_utf8, string_from_utf8_lossy, utf8_lossy,
    uuid_hyphenated, uuid_text,
};
use crate::wire::{push_byte, push_str};
use std::time::{SystemTime, UNIX_EPOCH};
use vstd::prelude::*;
use vstd::string::StringSliceAdditionalSpecFns;
use vstd::utf8::{
    decode_utf8, encode_utf8, encode_utf8_decode_utf8, encode_utf8_valid_utf8, is_ascii_chars,
    is_ascii_chars_encode_utf8, valid_utf8,
};

verus! {

// ---------------------------------------------------------------------------
// Rate features
// ---------------------------------------------------------------------------

/// Bit `i` of a rate-feature mask.
pub open spec fn bit_set(mask: u32, i: u32) -> bool {
    (mask >> i) & 1u32 == 1u32
}

/// The names among the first `n` whose bit is set, in bit order.
pub open spec fn selected_names(names: Seq<Seq<char>>, mask: u32, n: nat) -> Seq<Seq<char>>
    decreases n,
{
    if n == 0 {
        Seq::empty()
    } else {
        let prev = selected_names(names, mask, (n - 1) as nat);
        if bit_set(mask, (n - 1) as u32) {
            prev.push(names[n - 1])
        } else {
            prev
        }
    }
}

/// How many names a mask can select: at most 24.
pub open spec fn mask_width(names: Seq<Seq<char>>) -> nat {
    if names.len() < 24 {
        names.len()
    } else {
        24
    }
}

/// The rate-feature names a 24-bit mask selects, in bit order.
pub open spec fn mask_names(names: Seq<Seq<char>>, mask: u32) -> Seq<Seq<char>> {
    selected_names(names, mask, mask_width(names))
}

/// `"x"`
pub open spec fn quoted(x: Seq<u8>) -> Seq<u8> {
    seq![34u8] + x + seq![34u8]
}

/// Quoted items separated by commas.
pub open spec fn quoted_list(items: Seq<Seq<u8>>) -> Seq<u8>
    decreases items.len(),
{
    if items.len() == 0 {
        Seq::empty()
    } else if items.len() == 1 {
        quoted(items[0])
    } else {
        quoted_list(items.drop_last()) + seq![44u8] + quoted(items.last())
    }
}

/// Items one after the other, with a single comma between neighbours.
pub open spec fn comma_separated(items: Seq<Seq<u8>>) -> Seq<u8>
    decreases items.len(),
{
    if items.len() == 0 {
        Seq::empty()
    } else if items.len() == 1 {
        items[0]
    } else {
        comma_separated(items.drop_last()) + seq![44u8] + items.last()
    }
}

/// A quoted list is the items, each in double quotes, with a single comma
/// between neighbours.
pub proof fn law_quoted_list_is_comma_separated(items: Seq<Seq<u8>>)
    ensures
        quoted_list(items) == comma_separated(items.map_values(|x: Seq<u8>| quoted(x))),
        items.map_values(|x: Seq<u8>| quoted(x)).len() == items.len(),
    decreases items.len(),
{
    let q = items.map_values(|x: Seq<u8>| quoted(x));
    if items.len() > 1 {
        law_quoted_list_is_comma_separated(items.drop_last());
        assert(items.drop_last().map_values(|x: Seq<u8>| quoted(x)) =~= q.drop_last());
    }
}

/// The UTF-8 encodings of a list of names.
pub open spec fn utf8_names(names: Seq<Seq<char>>) -> Seq<Seq<u8>> {
    names.map_values(|c: Seq<char>| encode_utf8(c))
}

/// `"rate_feature":[...]` for a mask; the list is empty while no names are set.
pub open spec fn rate_feature_json(store: Option<Seq<Seq<char>>>, mask: u32) -> Seq<u8> {
    "\"rate_feature\":[".spec_bytes() + match store {
        Some(names) => quoted_list(utf8_names(mask_names(names, mask))),
        None => Seq::empty(),
    } + "]".spec_bytes()
}

pub proof fn lemma_quoted_list_push(items: Seq<Seq<u8>>, x: Seq<u8>)
    ensures
        quoted_list(items.push(x)) == if items.len() == 0 {
            quoted(x)
        } else {
            quoted_list(items) + seq![44u8] + quoted(x)
        },
{
    assert(items.push(x).drop_last() =~= items);
}

proof fn lemma_bit_test(mask: u32, i: u32)
    requires
        i < 32,
    ensures
        ((mask & (1u32 << i)) != 0) == bit_set(mask, i),
{
    assert(((mask & (1u32 << i)) != 0) == ((mask >> i) & 1u32 == 1u32)) by (bit_vector)
        requires i < 32;
}

/// Converts a 24-bit rate feature mask into the feature names it selects.
pub fn bitmask_to_rate_feature_strings(store: &CodecStore, mask: u32) -> (r: Result<Vec<String>, RZError>)
    ensures
        match store@ {
            Some(names) => r matches Ok(v) && v.deep_view() == mask_names(names, mask),
            None => r matches Err(e) && e@ == RZErrorView::Validation("RATE_FEATURES not initialized"@),
        },
{
    let rate_features = get_rate_features(store)?;
    let ghost names = rate_features.deep_view();
    let mut out: Vec<String> = Vec::new();
    let mut i: u32 = 0;
    let n: usize = rate_features.len();
    while i < 24 && (i as usize) < n
        invariant
            n == rate_features@.len(),
            names == rate_features.deep_view(),
            i as nat <= mask_width(names),
            out.deep_view() == selected_names(names, mask, i as nat),
        decreases 24 - i,
    {
        proof {
            lemma_bit_test(mask, i);
        }
        let ghost prev = out.deep_view();
        if (mask & (1u32 << i)) != 0 {
            out.push(rate_features[i as usize].clone());
            assert(out.deep_view() =~= prev.push(names[i as int]));
        }
        i = i + 1;
    }
    Ok(out)
}

/// Writes the "rate_feature":[...] JSON array for a mask.
pub fn write_rate_features_array(json: &mut Vec<u8>, store: &CodecStore, mask: u32)
    ensures
        final(json)@ == old(json)@ + rate_feature_json(store@, mask),
{
    push_str(json, "\"rate_feature\":[");
    let ghost after_open = json@;
    if let Ok(features) = get_rate_features(store) {
        let ghost names = features.deep_view();
        let n: usize = if features.len() < 24 {
            features.len()
        } else {
            24
        };
        let mut wrote_any = false;
        let mut i: usize = 0;
        while i < n
            invariant
                n == mask_width(names),
                n <= features@.len(),
                i <= n,
                names == features.deep_view(),
                wrote_any == (selected_names(names, mask, i as nat).len() > 0),
                json@ == after_open + quoted_list(utf8_names(selected_names(names, mask, i as nat))),
            decreases n - i,
        {
            proof {
                lemma_bit_test(mask, i as u32);
            }
            let ghost sel = selected_names(names, mask, i as nat);
            if (mask & (1u32 << (i as u32))) != 0 {
                if wrote_any {
                    push_byte(json, 44);
                }
                wrote_any = true;
                push_byte(json, 34);
                push_str(json, features[i].as_str());
                push_byte(json, 34);
                proof {
                    lemma_quoted_list_push(utf8_names(sel), encode_utf8(names[i as int]));
                    assert(utf8_names(sel.push(names[i as int])) =~= utf8_names(sel).push(
                        encode_utf8(names[i as int]),
                    ));
                    assert(json@ =~= after_open + quoted_list(utf8_names(sel.push(names[i as int]))));
                }
            }
            i = i + 1;
        }
    }
    push_str(json, "]");
    assert(final(json)@ =~= old(json)@ + rate_feature_json(store@, mask));
}

/// The mask array written into a reply lists exactly the names that
/// `bitmask_to_rate_feature_strings` returns for the same mask, quoted and
/// separated by commas.
pub proof fn law_rate_feature_array_lists_mask_names(names: Seq<Seq<char>>, mask: u32)
    ensures
        rate_feature_json(Some(names), mask) == "\"rate_feature\":[".spec_bytes() + quoted_list(
            utf8_names(mask_names(names, mask)),
        ) + "]".spec_bytes(),
        mask_names(names, mask).len() <= 24,
{
    lemma_selected_len(names, mask, mask_width(names));
}

proof fn lemma_selected_len(names: Seq<Seq<char>>, mask: u32, n: nat)
    ensures
        selected_names(names, mask, n).len() <= n,
    decreases n,
{
    if n > 0 {
        lemma_selected_len(names, mask, (n - 1) as nat);
    }
}

// ---------------------------------------------------------------------------
// Property ids
// ---------------------------------------------------------------------------

/// The bytes of `s` before its first zero byte.
pub open spec fn until_zero(s: Seq<u8>) -> Seq<u8>
    decreases s.len(),
{
    if s.len() == 0 {
        s
    } else if s[0] == 0 {
        Seq::empty()
    } else {
        seq![s[0]] + until_zero(s.drop_first())
    }
}

/// Short string form of a property id: two zero-terminated parts,
/// bytes 0..6 and bytes 7.., joined.
pub open spec fn short_id_bytes(d: Seq<u8>) -> Seq<u8> {
    until_zero(d.subrange(0, 6)) + until_zero(d.subrange(7, d.len() as int))
}

/// Byte 6 of a UUID holds a known version (1 to 5, or 7) in its high nibble.
pub open spec fn uuid_version_ok(b: u8) -> bool {
    let v = b / 16;
    v == 1 || v == 2 || v == 3 || v == 4 || v == 5 || v == 7
}

/// The first 16 bytes, padded with zeros.
pub open spec fn padded16(d: Seq<u8>) -> Seq<u8> {
    Seq::new(16, |i: int| if i < d.len() { d[i] } else { 0u8 })
}

/// The quoted JSON string written for a raw property id: the short string
/// form (marker 0xF0 in byte 6), the hyphenated UUID form, or `""`.
pub open spec fn quoted_property_id(d: Seq<u8>) -> Seq<u8> {
    if d.len() < 7 {
        quoted(Seq::empty())
    } else if d[6] == 0xF0 {
        quoted(short_id_bytes(d))
    } else if uuid_version_ok(d[6]) {
        quoted(uuid_text(padded16(d)))
    } else {
        quoted(Seq::empty())
    }
}

/// The text of a raw property id.
pub open spec fn property_id_text(d: Seq<u8>) -> Seq<char> {
    if d.len() < 7 {
        Seq::empty()
    } else if d[6] == 0xF0 {
        if valid_utf8(short_id_bytes(d)) {
            decode_utf8(short_id_bytes(d))
        } else {
            utf8_lossy(short_id_bytes(d))
        }
    } else if uuid_version_ok(d[6]) {
        ascii_chars(uuid_text(padded16(d)))
    } else {
        Seq::empty()
    }
}

proof fn lemma_until_zero_prefix(s: Seq<u8>, k: int)
    requires
        0 <= k <= s.len(),
        forall|j: int| 0 <= j < k ==> s[j] != 0,
    ensures
        until_zero(s) == s.subrange(0, k) + until_zero(s.subrange(k, s.len() as int)),
    decreases k,
{
    if k > 0 {
        lemma_until_zero_prefix(s.drop_first(), k - 1);
        assert(s.drop_first().subrange(0, k - 1) =~= s.subrange(1, k));
        assert(s.drop_first().subrange(k - 1, s.len() - 1) =~= s.subrange(k, s.len() as int));
        assert(seq![s[0]] + s.subrange(1, k) =~= s.subrange(0, k));
    } else {
        assert(s.subrange(0, s.len() as int) =~= s);
    }
}

/// Appends the bytes of `data[start..end]` before its first zero byte.
fn push_until_zero(out: &mut Vec<u8>, data: &[u8], start: usize, end: usize)
    requires
        start <= end <= data@.len(),
    ensures
        final(out)@ == old(out)@ + until_zero(data@.subrange(start as int, end as int)),
{
    let ghost s = data@.subrange(start as int, end as int);
    let mut i: usize = start;
    while i < end && data[i] != 0
        invariant
            start <= i <= end <= data@.len(),
            s == data@.subrange(start as int, end as int),
            forall|j: int| 0 <= j < i - start ==> s[j] != 0,
            out@ == old(out)@ + s.subrange(0, i - start),
        decreases end - i,
    {
        out.push(data[i]);
        i = i + 1;
        assert(out@ =~= old(out)@ + s.subrange(0, i - start));
    }
    proof {
        lemma_until_zero_prefix(s, i - start);
        assert(s.subrange(i - start, s.len() as int).len() == 0 || s.subrange(
            i - start,
            s.len() as int,
        )[0] == 0);
    }
}

/// Appends two lower-case hexadecimal digits of a byte.
fn push_hex_pair(out: &mut Vec<u8>, b: u8)
    ensures
        final(out)@ == old(out)@ + hex_pair(b),
{
    let hi = b / 16;
    let lo = b % 16;
    out.push(if hi < 10 { 48 + hi } else { 87 + hi });
    out.push(if lo < 10 { 48 + lo } else { 87 + lo });
    assert(final(out)@ =~= old(out)@ + hex_pair(b));
}

/// Appends the hexadecimal digits of `b[i..j]`.
fn push_hex_run(out: &mut Vec<u8>, b: &[u8], i: usize, j: usize)
    requires
        i <= j <= b@.len(),
    ensures
        final(out)@ == old(out)@ + hex_run(b@, i as int, j as int),
{
    let mut k: usize = i;
    while k < j
        invariant
            i <= k <= j <= b@.len(),
            out@ == old(out)@ + hex_run(b@, i as int, k as int),
        decreases j - k,
    {
        push_hex_pair(out, b[k]);
        k = k + 1;
        assert(out@ =~= old(out)@ + hex_run(b@, i as int, k as int));
    }
}

/// The first 16 bytes of `data`, padded with zeros.
fn padded_uuid_bytes(data: &[u8]) -> (r: Vec<u8>)
    ensures
        r@ == padded16(data@),
{
    let mut out: Vec<u8> = Vec::new();
    let mut i: usize = 0;
    while i < 16
        invariant
            i <= 16,
            out@ =~= padded16(data@).subrange(0, i as int),
        decreases 16 - i,
    {
        out.push(if i < data.len() { data[i] } else { 0 });
        i = i + 1;
    }
    out
}

/// Writes a quoted property_id directly into the JSON buffer: the short
/// string form, the hyphenated UUID form, or `""` for anything else.
pub fn write_quoted_property_id(json: &mut Vec<u8>, data: &[u8]) -> (r: Result<(), RZError>)
    ensures
        r is Ok,
        final(json)@ == old(json)@ + quoted_property_id(data@),
{
    if data.len() < 7 {
        push_byte(json, 34);
        push_byte(json, 34);
        assert(final(json)@ =~= old(json)@ + quoted_property_id(data@));
        return Ok(());
    }
    if data[6] == 0xF0 {
        push_byte(json, 34);
        push_until_zero(json, data, 0, 6);
        push_until_zero(json, data, 7, data.len());
        push_byte(json, 34);
        assert(final(json)@ =~= old(json)@ + quoted_property_id(data@));
        return Ok(());
    }
    let version = data[6] / 16;
    if version == 1 || version == 2 || version == 3 || version == 4 || version == 5 || version == 7 {
        let uuid_bytes = padded_uuid_bytes(data);
        let b = uuid_bytes.as_slice();
        push_byte(json, 34);
        push_hex_run(json, b, 0, 4);
        push_byte(json, 45);
        push_hex_run(json, b, 4, 6);
        push_byte(json, 45);
        push_hex_run(json, b, 6, 8);
        push_byte(json, 45);
        push_hex_run(json, b, 8, 10);
        push_byte(json, 45);
        push_hex_run(json, b, 10, 16);
        push_byte(json, 34);
        assert(final(json)@ =~= old(json)@ + quoted_property_id(data@));
        return Ok(());
    }
    push_byte(json, 34);
    push_byte(json, 34);
    assert(final(json)@ =~= old(json)@ + quoted_property_id(data@));
    Ok(())
}

/// Converts raw property ID bytes into text.
pub fn bytes_to_property_id(data: &[u8]) -> (r: String)
    ensures
        r@ == property_id_text(data@),
{
    if data.len() < 7 {
        return String::new();
    }
    if data[6] == 0xF0 {
        let mut result: Vec<u8> = Vec::new();
        push_until_zero(&mut result, data, 0, 6);
        push_until_zero(&mut result, data, 7, data.len());
        return string_from_utf8_lossy(result.as_slice());
    }
    let version = data[6] / 16;
    if version == 1 || version == 2 || version == 3 || version == 4 || version == 5 || version == 7 {
        let p = padded_uuid_bytes(data);
        let arr: [u8; 16] = [
            p[0], p[1], p[2], p[3], p[4], p[5], p[6], p[7], p[8], p[9], p[10], p[11], p[12], p[13],
            p[14], p[15],
        ];
        assert(arr@ =~= padded16(data@));
        return uuid_hyphenated(arr);
    }
    String::new()
}

proof fn lemma_hex_run_ascii(b: Seq<u8>, i: int, j: int)
    ensures
        forall|k: int| 0 <= k < hex_run(b, i, j).len() ==> #[trigger] hex_run(b, i, j)[k] < 128,
    decreases j - i,
{
    if j > i {
        lemma_hex_run_ascii(b, i, j - 1);
        let prev = hex_run(b, i, j - 1);
        let h = hex_pair(b[j - 1]);
        assert(hex_run(b, i, j) == prev + h);
        assert forall|k: int| 0 <= k < hex_run(b, i, j).len() implies #[trigger] hex_run(b, i, j)[k]
            < 128 by {
            if k >= prev.len() {
                assert(hex_run(b, i, j)[k] == h[k - prev.len()]);
            } else {
                assert(hex_run(b, i, j)[k] == prev[k]);
            }
        }
    }
}

/// Bytes below 128 read as characters encode back to the same bytes, which
/// form valid UTF-8 that decodes to those characters.
pub proof fn lemma_ascii_text(x: Seq<u8>)
    requires
        forall|k: int| 0 <= k < x.len() ==> #[trigger] x[k] < 128,
    ensures
        encode_utf8(ascii_chars(x)) == x,
        valid_utf8(x),
        decode_utf8(x) == ascii_chars(x),
{
    let c = ascii_chars(x);
    assert(is_ascii_chars(c)) by {
        assert forall|i: int| 0 <= i < c.len() implies '\0' <= #[trigger] c[i] <= '\u{7f}' by {
            assert(c[i] == x[i] as char);
        }
    }
    is_ascii_chars_encode_utf8(c);
    assert(encode_utf8(c) =~= x) by {
        assert forall|i: int| 0 <= i < x.len() implies encode_utf8(c)[i] == x[i] by {
            assert(c[i] as u8 == encode_utf8(c)[i]);
        }
    }
    encode_utf8_valid_utf8(c);
    encode_utf8_decode_utf8(c);
}

proof fn lemma_uuid_text_ascii(b: Seq<u8>)
    ensures
        forall|k: int| 0 <= k < uuid_text(b).len() ==> #[trigger] uuid_text(b)[k] < 128,
{
    lemma_hex_run_ascii(b, 0, 4);
    lemma_hex_run_ascii(b, 4, 6);
    lemma_hex_run_ascii(b, 6, 8);
    lemma_hex_run_ascii(b, 8, 10);
    lemma_hex_run_ascii(b, 10, 16);
    let t = uuid_text(b);
    let a0 = hex_run(b, 0, 4);
    let a1 = hex_run(b, 4, 6);
    let a2 = hex_run(b, 6, 8);
    let a3 = hex_run(b, 8, 10);
    let a4 = hex_run(b, 10, 16);
    let h = seq![45u8];
    assert forall|k: int| 0 <= k < t.len() implies #[trigger] t[k] < 128 by {
        let p1 = a0 + h;
        let p2 = p1 + a1 + h;
        let p3 = p2 + a2 + h;
        let p4 = p3 + a3 + h;
        assert(t == p4 + a4);
        if k >= p4.len() {
            assert(t[k] == a4[k - p4.len()]);
        } else if k >= p3.len() + a3.len() {
            assert(t[k] == 45u8);
        } else if k >= p3.len() {
            assert(t[k] == a3[k - p3.len()]);
        } else if k >= p2.len() + a2.len() {
            assert(t[k] == 45u8);
        } else if k >= p2.len() {
            assert(t[k] == a2[k - p2.len()]);
        } else if k >= p1.len() + a1.len() {
            assert(t[k] == 45u8);
        } else if k >= p1.len() {
            assert(t[k] == a1[k - p1.len()]);
        } else if k >= a0.len() {
            assert(t[k] == 45u8);
        } else {
            assert(t[k] == a0[k]);
        }
    }
}

/// The quoted id written into a reply is the text that
/// `bytes_to_property_id` returns, quoted, whenever the short-string form
/// holds valid UTF-8 (lossy decoding can only differ on invalid bytes).
pub proof fn law_quoted_property_id_matches_text(d: Seq<u8>)
    requires
        d.len() >= 7 && d[6] == 0xF0 ==> valid_utf8(short_id_bytes(d)),
    ensures
        quoted_property_id(d) == quoted(encode_utf8(property_id_text(d))),
{
    if d.len() < 7 {
        assert(encode_utf8(Seq::<char>::empty()) =~= Seq::<u8>::empty());
    } else if d[6] == 0xF0 {
        vstd::utf8::decode_utf8_encode_utf8(short_id_bytes(d));
    } else if uuid_version_ok(d[6]) {
        lemma_uuid_text_ascii(padded16(d));
        lemma_ascii_text(uuid_text(padded16(d)));
    } else {
        assert(encode_utf8(Seq::<char>::empty()) =~= Seq::<u8>::empty());
    }
}

// ---------------------------------------------------------------------------
// Packed dates
// ---------------------------------------------------------------------------

/// Smallest year chrono's `NaiveDate` supports.
pub const CHRONO_MIN_YEAR: i32 = -262143;

/// Largest year chrono's `NaiveDate` supports.
pub const CHRONO_MAX_YEAR: i32 = 262142;

/// The year of the Unix epoch, the earliest year the clock reports.
pub const UNIX_EPOCH_YEAR: i32 = 1970;

/// Gregorian leap year.
pub open spec fn is_leap_year(y: int) -> bool {
    (y % 4 == 0 && y % 100 != 0) || y % 400 == 0
}

/// Number of days of a month of the proleptic Gregorian calendar.
pub open spec fn days_in_month(y: int, m: int) -> int {
    if m == 2 {
        if is_leap_year(y) {
            29
        } else {
            28
        }
    } else if m == 4 || m == 6 || m == 9 || m == 11 {
        30
    } else {
        31
    }
}

/// A calendar date chrono accepts.
pub open spec fn valid_civil_date(y: int, m: int, d: int) -> bool {
    CHRONO_MIN_YEAR <= y <= CHRONO_MAX_YEAR && 1 <= m <= 12 && 1 <= d <= days_in_month(y, m)
}

/// chrono's `NaiveDate::from_ymd_opt`, with the date read back as
/// `(year(), month(), day())`: a date exists exactly for valid calendar
/// dates within chrono's year range, as its documentation states, and it
/// holds the requested year, month and day.
#[verifier::external_body]
fn naive_date_from_ymd(year: i32, month: u32, day: u32) -> (r: Option<(i32, u32, u32)>)
    ensures
        r is Some <==> valid_civil_date(year as int, month as int, day as int),
        r matches Some(t) ==> t == (year, month, day),
{
    match chrono::NaiveDate::from_ymd_opt(year, month, day) {
        Some(d) => Some((chrono::Datelike::year(&d), chrono::Datelike::month(&d), chrono::Datelike::day(&d))),
        None => None,
    }
}

/// std's `SystemTime`: a reading of the system clock.
#[verifier::external_type_specification]
#[verifier::external_body]
pub struct ExSystemTime(SystemTime);

/// std's `SystemTime::now`: the system clock's current reading. Nothing is
/// stated of it: it depends on the clock.
#[verifier::external_body]
fn system_time_now() -> (r: SystemTime) {
    SystemTime::now()
}

/// std's `SystemTime::duration_since(UNIX_EPOCH)`, read back as whole
/// seconds and the nanoseconds of the second: `None` when `t` lies before
/// the Unix epoch. The nanoseconds are below one billion, as
/// `Duration::subsec_nanos` documents; which time it is depends on `t`,
/// which is opaque, and is not stated.
#[verifier::external_body]
fn elapsed_since_unix_epoch(t: &SystemTime) -> (r: Option<(u64, u32)>)
    ensures
        r matches Some((_, n)) ==> n < 1_000_000_000,
{
    match t.duration_since(UNIX_EPOCH) {
        Ok(d) => Some((d.as_secs(), d.subsec_nanos())),
        Err(_) => None,
    }
}

/// Name for the UTC year of a Unix timestamp as chrono gives it: the year
/// of `DateTime::from_timestamp(secs, nanos)`, or `None` when chrono
/// refuses the timestamp.
pub uninterp spec fn utc_year_at(secs: i64, nanos: u32) -> Option<i32>;

/// chrono's `DateTime::<Utc>::from_timestamp`, read back as its year. The
/// result is the name `utc_year_at` of the arguments; a year it gives lies
/// in chrono's range, and, as chrono counts the seconds from
/// 1970-01-01 00:00:00 UTC, a timestamp that is not negative gives a year
/// from 1970 on. Which timestamps chrono accepts is not stated.
#[verifier::external_body]
fn utc_year_of_timestamp(secs: i64, nanos: u32) -> (r: Option<i32>)
    ensures
        r == utc_year_at(secs, nanos),
        r matches Some(y) ==> CHRONO_MIN_YEAR <= y <= CHRONO_MAX_YEAR,
        secs >= 0 ==> (r matches Some(y) ==> UNIX_EPOCH_YEAR <= y),
{
    match chrono::DateTime::<chrono::Utc>::from_timestamp(secs, nanos) {
        Some(d) => Some(chrono::Datelike::year(&d)),
        None => None,
    }
}

/// The current UTC year, read from the system clock: `None` when the clock
/// reads before the Unix epoch or past what chrono can date; otherwise the
/// year chrono gives for a non-negative timestamp, a year from 1970 on.
pub fn current_utc_year() -> (r: Option<i32>)
    ensures
        r matches Some(y) ==> UNIX_EPOCH_YEAR <= y <= CHRONO_MAX_YEAR,
        r is Some ==> exists|secs: i64, nanos: u32|
            secs >= 0 && nanos < 1_000_000_000 && #[trigger] utc_year_at(secs, nanos) == r,
{
    let now = system_time_now();
    match elapsed_since_unix_epoch(&now) {
        None => None,
        Some((secs, nanos)) => {
            if secs <= 0x7fff_ffff_ffff_ffff {
                let r = utc_year_of_timestamp(secs as i64, nanos);
                assert(r is Some ==> utc_year_at(secs as i64, nanos) == r);
                r
            } else {
                None
            }
        },
    }
}

/// The error reported when the system clock cannot be read as a date.
pub open spec fn clock_unreadable() -> RZErrorView {
    RZErrorView::Internal("system clock is not readable"@)
}

/// Year offset (bits 9..12) of a packed date.
pub open spec fn packed_year_offset(p: u16) -> int {
    (p as int / 512) % 8
}

/// Month (bits 5..9, plus one) of a packed date: 1 to 16.
pub open spec fn packed_month(p: u16) -> int {
    (p as int / 32) % 16 + 1
}

/// Day (bits 0..5, plus one) of a packed date: 1 to 32.
pub open spec fn packed_day(p: u16) -> int {
    p as int % 32 + 1
}

/// Four decimal digits of `n < 10000`.
pub open spec fn four_digits(n: int) -> Seq<u8> {
    seq![(48 + n / 1000) as u8, (48 + n / 100 % 10) as u8, (48 + n / 10 % 10) as u8, (48 + n % 10) as u8]
}

/// Two decimal digits of `n < 100`.
pub open spec fn two_digits(n: int) -> Seq<u8> {
    seq![(48 + n / 10) as u8, (48 + n % 10) as u8]
}

/// `YYYY-MM-DD`
pub open spec fn ymd_text(y: int, m: int, d: int) -> Seq<u8> {
    four_digits(y) + seq![45u8] + two_digits(m) + seq![45u8] + two_digits(d)
}

/// The date a packed value denotes relative to a base year.
pub open spec fn packed_date_valid(base_year: int, p: u16) -> bool {
    valid_civil_date(base_year + packed_year_offset(p), packed_month(p), packed_day(p))
}

/// `YYYY-MM-DD` of a packed value relative to a base year.
pub open spec fn packed_date_text(base_year: int, p: u16) -> Seq<u8> {
    ymd_text(base_year + packed_year_offset(p), packed_month(p), packed_day(p))
}

/// Writes a 4-digit year.
pub fn write_u32_four_digits(buf: &mut Vec<u8>, n: u32)
    requires
        n < 10000,
    ensures
        final(buf)@ == old(buf)@ + four_digits(n as int),
{
    buf.push(48 + (n / 1000) as u8);
    buf.push(48 + (n / 100 % 10) as u8);
    buf.push(48 + (n / 10 % 10) as u8);
    buf.push(48 + (n % 10) as u8);
    assert(final(buf)@ =~= old(buf)@ + four_digits(n as int));
}

/// Writes a 2-digit number with leading zero.
pub fn write_u32_two_digits(buf: &mut Vec<u8>, n: u32)
    requires
        n < 100,
    ensures
        final(buf)@ == old(buf)@ + two_digits(n as int),
{
    if n < 10 {
        buf.push(48);
        buf.push(48 + n as u8);
    } else {
        buf.push(48 + (n / 10) as u8);
        buf.push(48 + (n % 10) as u8);
    }
    assert(final(buf)@ =~= old(buf)@ + two_digits(n as int));
}

/// The packed date, relative to a base year, is a valid date whose year
/// lies in 0 to 9999, the years the four-digit reply writer renders.
pub open spec fn packed_date_ok(base_year: int, p: u16) -> bool {
    0 <= base_year + packed_year_offset(p) <= 9999 && packed_date_valid(base_year, p)
}

/// Writes a packed date as `YYYY-MM-DD` relative to the given base year,
/// after full calendar validation (month lengths and leap years). Nothing is
/// written on error; a date whose year falls outside 0 to 9999 is refused,
/// as the four-digit rendering does not apply to it.
pub fn write_packed_date_in_year(json: &mut Vec<u8>, packed: u16, base_year: i32) -> (r: Result<(), RZError>)
    ensures
        packed_month(packed) > 12 || packed_day(packed) > 31 ==> (r matches Err(e) && e@
            == RZErrorView::Validation("invalid packed date: month/day out of range"@)),
        packed_month(packed) <= 12 && packed_day(packed) <= 31 && !packed_date_ok(
            base_year as int,
            packed,
        ) ==> (r matches Err(e) && e@ == RZErrorView::Validation("invalid packed date"@)),
        r is Ok <==> packed_date_ok(base_year as int, packed),
        r is Ok ==> final(json)@ == old(json)@ + packed_date_text(base_year as int, packed),
        r is Err ==> final(json)@ == old(json)@,
{
    let year_offset = ((packed / 512) % 8) as i32;
    let month = ((packed / 32) % 16) as u32 + 1;
    let day = (packed % 32) as u32 + 1;
    if month > 12 || day > 31 {
        return Err(validation_error("invalid packed date: month/day out of range"));
    }
    if base_year < -7 || base_year > 9999 {
        return Err(validation_error("invalid packed date"));
    }
    let target_year = base_year + year_offset;
    if target_year < 0 || target_year > 9999 {
        return Err(validation_error("invalid packed date"));
    }
    let (dy, dm, dd) = match naive_date_from_ymd(target_year, month, day) {
        Some(t) => t,
        None => return Err(validation_error("invalid packed date")),
    };
    if dm != month || dd != day {
        return Err(validation_error("invalid packed date: overflow"));
    }
    write_u32_four_digits(json, dy as u32);
    json.push(45);
    write_u32_two_digits(json, month);
    json.push(45);
    write_u32_two_digits(json, day);
    assert(final(json)@ =~= old(json)@ + packed_date_text(base_year as int, packed));
    Ok(())
}

/// What writing a packed date relative to base year `y` does: it succeeds
/// exactly when the date is valid in that year, appends its `YYYY-MM-DD`
/// text on success and nothing on error, and a refused date whose month and
/// day are in range is reported as "invalid packed date".
pub open spec fn packed_date_written(y: int, packed: u16, before: Seq<u8>, after: Seq<u8>, r: Result<(), RZError>) -> bool {
    &&& (r is Ok <==> packed_date_ok(y, packed))
    &&& (r is Ok ==> after == before + packed_date_text(y, packed))
    &&& (r is Err ==> after == before)
    &&& (packed_month(packed) <= 12 && packed_day(packed) <= 31 ==> (r matches Err(e) ==> e@
        == RZErrorView::Validation("invalid packed date"@)))
}

/// Writes a packed u16 date directly as "YYYY-MM-DD", relative to the
/// current year, which is read from the clock after the month and day are
/// checked: the outcome is that of `write_packed_date_in_year` for that
/// year, a year from 1970 on, or an internal error, with nothing written,
/// when the clock cannot be read.
pub fn write_packed_date(json: &mut Vec<u8>, packed: u16) -> (r: Result<(), RZError>)
    ensures
        packed_month(packed) > 12 || packed_day(packed) > 31 ==> (r matches Err(e) && e@
            == RZErrorView::Validation("invalid packed date: month/day out of range"@)),
        (r matches Err(e) && e@ == clock_unreadable() && final(json)@ == old(json)@) || exists|y: int|
            UNIX_EPOCH_YEAR <= y <= CHRONO_MAX_YEAR && #[trigger] packed_date_written(
                y,
                packed,
                old(json)@,
                final(json)@,
                r,
            ),
{
    let month = ((packed / 32) % 16) as u32 + 1;
    let day = (packed % 32) as u32 + 1;
    if month > 12 || day > 31 {
        let r = Err(validation_error("invalid packed date: month/day out of range"));
        assert(packed_date_written(UNIX_EPOCH_YEAR as int, packed, old(json)@, final(json)@, r));
        return r;
    }
    match current_utc_year() {
        None => Err(internal_error("system clock is not readable")),
        Some(year) => {
            let r = write_packed_date_in_year(json, packed, year);
            assert(packed_date_written(year as int, packed, old(json)@, final(json)@, r));
            r
        },
    }
}

/// Decimal digits of `n` (below one million), at least four, zero-padded.
pub open spec fn digits_min4(n: int) -> Seq<u8> {
    if n < 10000 {
        four_digits(n)
    } else if n < 100000 {
        seq![(48 + n / 10000) as u8] + four_digits(n % 10000)
    } else {
        seq![(48 + n / 100000) as u8, (48 + n / 10000 % 10) as u8] + four_digits(n % 10000)
    }
}

/// A year as chrono's `%Y` renders it: four digits for 0 to 9999, otherwise
/// a sign (`+` or `-`) followed by at least four digits.
pub open spec fn chrono_year_text(y: int) -> Seq<u8> {
    if 0 <= y <= 9999 {
        four_digits(y)
    } else if y > 9999 {
        seq![43u8] + digits_min4(y)
    } else {
        seq![45u8] + digits_min4(-y)
    }
}

/// The date a packed value denotes relative to a base year, as chrono's
/// `%Y-%m-%d` renders it.
pub open spec fn packed_date_iso_text(base_year: int, p: u16) -> Seq<u8> {
    chrono_year_text(base_year + packed_year_offset(p)) + seq![45u8] + two_digits(packed_month(p))
        + seq![45u8] + two_digits(packed_day(p))
}

/// Every byte is below 128.
pub open spec fn all_ascii(s: Seq<u8>) -> bool {
    forall|k: int| 0 <= k < s.len() ==> #[trigger] s[k] < 128
}

/// Writes `n` (below one million) with at least four digits.
fn write_digits_min4(buf: &mut Vec<u8>, n: u32)
    requires
        n < 1000000,
    ensures
        final(buf)@ == old(buf)@ + digits_min4(n as int),
{
    if n >= 100000 {
        buf.push(48 + (n / 100000) as u8);
        buf.push(48 + (n / 10000 % 10) as u8);
        write_u32_four_digits(buf, n % 10000);
    } else if n >= 10000 {
        buf.push(48 + (n / 10000) as u8);
        write_u32_four_digits(buf, n % 10000);
    } else {
        write_u32_four_digits(buf, n);
    }
    assert(final(buf)@ =~= old(buf)@ + digits_min4(n as int));
}

/// Writes a year of chrono's range as chrono's `%Y` renders it.
fn write_chrono_year(buf: &mut Vec<u8>, y: i32)
    requires
        CHRONO_MIN_YEAR <= y <= CHRONO_MAX_YEAR,
    ensures
        final(buf)@ == old(buf)@ + chrono_year_text(y as int),
{
    if 0 <= y && y <= 9999 {
        write_u32_four_digits(buf, y as u32);
    } else if y > 9999 {
        buf.push(43);
        write_digits_min4(buf, y as u32);
    } else {
        buf.push(45);
        write_digits_min4(buf, (-y) as u32);
    }
    assert(final(buf)@ =~= old(buf)@ + chrono_year_text(y as int));
}

/// The text of a date of chrono's range holds ASCII bytes only.
proof fn lemma_iso_text_ascii(base_year: int, p: u16)
    requires
        CHRONO_MIN_YEAR <= base_year + packed_year_offset(p) <= CHRONO_MAX_YEAR,
    ensures
        all_ascii(packed_date_iso_text(base_year, p)),
{
    let y = base_year + packed_year_offset(p);
    let a = if y < 0 { -y } else { y };
    assert(all_ascii(four_digits(a % 10000)));
    assert(all_ascii(digits_min4(a)));
    assert(all_ascii(chrono_year_text(y)));
    assert(all_ascii(two_digits(packed_month(p))));
    assert(all_ascii(two_digits(packed_day(p))));
    let t = packed_date_iso_text(base_year, p);
    assert forall|k: int| 0 <= k < t.len() implies #[trigger] t[k] < 128 by {
        let c = chrono_year_text(y);
        let m = two_digits(packed_month(p));
        if k < c.len() {
            assert(t[k] == c[k]);
        } else if k == c.len() || k == c.len() + 3 {
        } else if k < c.len() + 3 {
            assert(t[k] == m[k - c.len() - 1]);
        } else {
            assert(t[k] == two_digits(packed_day(p))[k - c.len() - 4]);
        }
    }
}

/// Unpacks a packed date into "YYYY-MM-DD" relative to the given base year,
/// as chrono renders it: any date of chrono's range is accepted, and years
/// outside 0 to 9999 carry a sign.
pub fn u16_to_date_in_year(packed: u16, base_year: i32) -> (r: Result<String, RZError>)
    ensures
        r is Ok <==> packed_date_valid(base_year as int, packed),
        r matches Ok(s) ==> s@ == ascii_chars(packed_date_iso_text(base_year as int, packed)),
        r matches Err(e) ==> e@ == RZErrorView::Validation("invalid packed date"@),
{
    if base_year < CHRONO_MIN_YEAR - 7 || base_year > CHRONO_MAX_YEAR {
        return Err(validation_error("invalid packed date"));
    }
    let year_offset = ((packed / 512) % 8) as i32;
    let month = ((packed / 32) % 16) as u32 + 1;
    let day = (packed % 32) as u32 + 1;
    let target_year = base_year + year_offset;
    let (dy, dm, dd) = match naive_date_from_ymd(target_year, month, day) {
        Some(t) => t,
        None => return Err(validation_error("invalid packed date")),
    };
    if dm != month || dd != day {
        return Err(validation_error("invalid packed date"));
    }
    let mut text: Vec<u8> = Vec::new();
    write_chrono_year(&mut text, dy);
    text.push(45);
    write_u32_two_digits(&mut text, dm);
    text.push(45);
    write_u32_two_digits(&mut text, dd);
    let ghost t = packed_date_iso_text(base_year as int, packed);
    assert(text@ =~= t);
    proof {
        lemma_iso_text_ascii(base_year as int, packed);
        lemma_ascii_text(t);
    }
    match string_from_utf8(text) {
        Some(s) => Ok(s),
        None => Err(validation_error("invalid packed date")),
    }
}

/// A month and day that make a valid date in every year.
pub open spec fn valid_every_year(m: int, d: int) -> bool {
    1 <= m <= 12 && 1 <= d && (d <= 28 || (m != 2 && d <= days_in_month(0, m)))
}

/// What unpacking a packed date relative to base year `y` gives: a text
/// exactly when the date is valid in that year, chrono's rendering of it.
pub open spec fn packed_date_read(y: int, packed: u16, r: Result<String, RZError>) -> bool {
    &&& (r is Ok <==> packed_date_valid(y, packed))
    &&& (r matches Ok(s) ==> s@ == ascii_chars(packed_date_iso_text(y, packed)))
}

/// Unpacks a 16-bit packed date into a "YYYY-MM-DD" string, relative to the
/// current year, which is read from the clock: the outcome is that of
/// `u16_to_date_in_year` for that year, a year from 1970 on, or an internal
/// error when the clock cannot be read. A date in the current year whose
/// month and day exist in every year is unpacked whenever the clock reads.
pub fn u16_to_date(packed: u16) -> (r: Result<String, RZError>)
    ensures
        (r matches Err(e) && e@ == clock_unreadable()) || exists|y: int|
            UNIX_EPOCH_YEAR <= y <= CHRONO_MAX_YEAR && #[trigger] packed_date_read(y, packed, r),
        r matches Err(e) ==> e@ == RZErrorView::Validation("invalid packed date"@) || e@
            == clock_unreadable(),
        packed_month(packed) > 12 ==> r is Err,
        packed_year_offset(packed) == 0 && valid_every_year(packed_month(packed), packed_day(packed))
            ==> (r is Ok || (r matches Err(e) && e@ == clock_unreadable())),
{
    match current_utc_year() {
        None => Err(internal_error("system clock is not readable")),
        Some(year) => {
            let r = u16_to_date_in_year(packed, year);
            assert(packed_date_read(year as int, packed, r));
            r
        },
    }
}

/// Both renderings of a packed date agree: for a date whose year has four
/// digits, the text `u16_to_date` returns is exactly what
/// `write_packed_date` writes into a reply, ten ASCII bytes.
pub proof fn law_packed_date_renderings_agree(y: int, p: u16)
    requires
        packed_date_ok(y, p),
    ensures
        packed_date_iso_text(y, p) == packed_date_text(y, p),
        encode_utf8(ascii_chars(packed_date_text(y, p))) == packed_date_text(y, p),
        packed_date_text(y, p).len() == 10,
{
    let t = packed_date_text(y, p);
    assert(packed_date_iso_text(y, p) =~= t);
    lemma_iso_text_ascii(y, p);
    lemma_ascii_text(t);
}

} // verus!
