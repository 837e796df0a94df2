//! One encoder per command: reads the request body, checks it and writes
//! the binary request payload.
use crate::error::{validation_error, RZError, RZErrorView};
use crate::protocol::fields::WireField;
use crate::request::encode::{out_field, request_bytes, RequestBuilder, KIND_NUMBER, KIND_STRING, KIND_U8};
use crate::request::json::{
    get_f64_bits, get_joined_strings, get_str, get_u64, join_commas, json_array, json_f64_bits,
    json_get, json_str, json_u64, string_items, JsonValue,
};
use crate::wire::{u32_le, u64_le};
use vstd::prelude::*;
use vstd::string::StringSliceAdditionalSpecFns;
use vstd::utf8::encode_utf8;

verus! {

/// Bits of `90.0`.
pub const LATITUDE_LIMIT_BITS: u64 = 0x4056_8000_0000_0000;

/// Bits of `180.0`.
pub const LONGITUDE_LIMIT_BITS: u64 = 0x4066_8000_0000_0000;

/// Bits of a double with the sign cleared: `|x|`.
pub open spec fn magnitude_bits(bits: u64) -> u64 {
    bits & 0x7FFF_FFFF_FFFF_FFFF
}

/// `-limit <= x <= limit` for the double `x` with bits `bits` and a
/// positive finite `limit` with bits `limit_bits`. Non-negative doubles are
/// ordered as their bit patterns, and NaN lies above every finite value, so
/// the test is one comparison of magnitudes.
pub open spec fn within_limit(bits: u64, limit_bits: u64) -> bool {
    magnitude_bits(bits) <= limit_bits
}

/// `-limit <= x <= limit`, for the bits of `x` and of a positive `limit`.
pub fn double_within(bits: u64, limit_bits: u64) -> (r: bool)
    ensures
        r == within_limit(bits, limit_bits),
{
    (bits & 0x7FFF_FFFF_FFFF_FFFF) <= limit_bits
}

/// The string member `key`.
pub open spec fn text_of(b: JsonValue, key: Seq<char>) -> Option<Seq<char>> {
    json_str(json_get(b, key))
}

/// The string member `key`, when it is not empty.
pub open spec fn nonempty_text_of(b: JsonValue, key: Seq<char>) -> Option<Seq<char>> {
    match text_of(b, key) {
        Some(s) => if s.len() > 0 {
            Some(s)
        } else {
            None
        },
        None => None,
    }
}

/// The non-negative integer member `key`.
pub open spec fn u64_of(b: JsonValue, key: Seq<char>) -> Option<u64> {
    json_u64(json_get(b, key))
}

/// The non-negative integer member `key`, when it fits in a byte.
pub open spec fn byte_of(b: JsonValue, key: Seq<char>) -> Option<u8> {
    match u64_of(b, key) {
        Some(v) => if v <= 255 {
            Some(v as u8)
        } else {
            None
        },
        None => None,
    }
}

/// The number member `key`, as double bits.
pub open spec fn bits_of(b: JsonValue, key: Seq<char>) -> Option<u64> {
    json_f64_bits(json_get(b, key))
}

/// The string items of the array member `key` (none when it is no array).
pub open spec fn list_of(b: JsonValue, key: Seq<char>) -> Seq<Seq<char>> {
    match json_array(json_get(b, key)) {
        Some(items) => string_items(items),
        None => Seq::empty(),
    }
}

/// The string items of the array member `key` joined with `,`, when there
/// is at least one.
pub open spec fn joined_list_of(b: JsonValue, key: Seq<char>) -> Option<Seq<char>> {
    if list_of(b, key).len() > 0 {
        Some(join_commas(list_of(b, key)))
    } else {
        None
    }
}

/// A text field.
pub open spec fn text_field(id: int, s: Seq<char>) -> WireField {
    out_field(id, KIND_STRING, encode_utf8(s))
}

/// A one-byte field.
pub open spec fn byte_field(id: int, v: u8) -> WireField {
    out_field(id, KIND_U8, seq![v])
}

/// An 8-byte number field.
pub open spec fn u64_field(id: int, v: u64) -> WireField {
    out_field(id, KIND_NUMBER, u64_le(v as int))
}

/// A 4-byte number field.
pub open spec fn u32_field(id: int, v: u32) -> WireField {
    out_field(id, KIND_NUMBER, u32_le(v as int))
}

/// `fs` with `f` appended when `o` is present.
pub open spec fn push_if<T>(fs: Seq<WireField>, o: Option<T>, f: spec_fn(T) -> WireField) -> Seq<WireField> {
    match o {
        Some(v) => fs.push(f(v)),
        None => fs,
    }
}

/// What an encoder returned, against what it should: the payload, or a
/// validation error with the expected message.
pub open spec fn encoded(r: Result<Vec<u8>, RZError>, expected: Result<Seq<u8>, Seq<char>>) -> bool {
    match expected {
        Ok(bytes) => r matches Ok(v) && v@ == bytes,
        Err(msg) => r matches Err(e) && e@ == RZErrorView::Validation(msg),
    }
}

/// The string member `key`, or the validation error `msg`.
fn require_text<'a>(b: &'a JsonValue, key: &str, msg: &str) -> (r: Result<&'a str, RZError>)
    ensures
        match r {
            Ok(s) => text_of(*b, key@) == Some(s@),
            Err(e) => text_of(*b, key@) is None && e@ == RZErrorView::Validation(msg@),
        },
{
    match get_str(b, key) {
        Some(s) => Ok(s),
        None => Err(validation_error(msg)),
    }
}

/// The non-empty string member `key`, or the validation error `msg`.
fn require_nonempty_text<'a>(b: &'a JsonValue, key: &str, msg: &str) -> (r: Result<&'a str, RZError>)
    ensures
        match r {
            Ok(s) => nonempty_text_of(*b, key@) == Some(s@),
            Err(e) => nonempty_text_of(*b, key@) is None && e@ == RZErrorView::Validation(msg@),
        },
{
    match get_str(b, key) {
        Some(s) => if s.is_empty() {
            Err(validation_error(msg))
        } else {
            Ok(s)
        },
        None => Err(validation_error(msg)),
    }
}

/// The non-negative integer member `key`, when it fits in a byte.
fn optional_byte(b: &JsonValue, key: &str) -> (r: Option<u8>)
    ensures
        r == byte_of(*b, key@),
{
    match get_u64(b, key) {
        Some(v) => if v <= 255 {
            Some(v as u8)
        } else {
            None
        },
        None => None,
    }
}

/// The joined string items of the array member `key`, when there is one.
fn optional_list(b: &JsonValue, key: &str) -> (r: Option<String>)
    ensures
        match r {
            Some(s) => joined_list_of(*b, key@) == Some(s@),
            None => joined_list_of(*b, key@) is None,
        },
{
    match get_joined_strings(b, key) {
        Some((joined, n)) => if n > 0 {
            Some(joined)
        } else {
            None
        },
        None => None,
    }
}

// ---------------------------------------------------------------------------
// SETPROP
// ---------------------------------------------------------------------------

/// The SETPROP payload for body `b`, or the validation message.
pub open spec fn set_prop_request(b: JsonValue) -> Result<Seq<u8>, Seq<char>> {
    if text_of(b, "segment"@) is None {
        Err("segment is required"@)
    } else if text_of(b, "area"@) is None {
        Err("area is required"@)
    } else if text_of(b, "property_id"@) is None {
        Err("property_id is required"@)
    } else if text_of(b, "property_type"@) is None {
        Err("property_type is required"@)
    } else if text_of(b, "category"@) is None {
        Err("category is required"@)
    } else if !(u64_of(b, "stars"@) matches Some(s) && 1 <= s <= 5) {
        Err("stars must be between 1 and 5"@)
    } else if !(bits_of(b, "latitude"@) matches Some(x) && within_limit(x, LATITUDE_LIMIT_BITS)) {
        Err("latitude must be between -90 and 90"@)
    } else if !(bits_of(b, "longitude"@) matches Some(x) && within_limit(x, LONGITUDE_LIMIT_BITS)) {
        Err("longitude must be between -180 and 180"@)
    } else {
        Ok(
            request_bytes(
                "SETPROP".spec_bytes(),
                seq![
                    text_field(1, text_of(b, "segment"@).unwrap()),
                    text_field(2, text_of(b, "area"@).unwrap()),
                    text_field(3, text_of(b, "property_id"@).unwrap()),
                    text_field(4, text_of(b, "property_type"@).unwrap()),
                    text_field(5, text_of(b, "category"@).unwrap()),
                    byte_field(6, u64_of(b, "stars"@).unwrap() as u8),
                    u64_field(7, bits_of(b, "latitude"@).unwrap()),
                    u64_field(8, bits_of(b, "longitude"@).unwrap()),
                    text_field(9, join_commas(list_of(b, "amenities"@))),
                ],
            ),
        )
    }
}

/// Encodes SETPROP: creates or updates a property.
pub fn build_set_prop(b: &JsonValue) -> (r: Result<Vec<u8>, RZError>)
    ensures
        encoded(r, set_prop_request(*b)),
{
    let segment = require_text(b, "segment", "segment is required")?;
    let area = require_text(b, "area", "area is required")?;
    let property_id = require_text(b, "property_id", "property_id is required")?;
    let property_type = require_text(b, "property_type", "property_type is required")?;
    let category = require_text(b, "category", "category is required")?;
    let stars = match get_u64(b, "stars") {
        Some(s) => if 1 <= s && s <= 5 {
            s as u8
        } else {
            return Err(validation_error("stars must be between 1 and 5"));
        },
        None => return Err(validation_error("stars must be between 1 and 5")),
    };
    let latitude = match get_f64_bits(b, "latitude") {
        Some(x) => if double_within(x, LATITUDE_LIMIT_BITS) {
            x
        } else {
            return Err(validation_error("latitude must be between -90 and 90"));
        },
        None => return Err(validation_error("latitude must be between -90 and 90")),
    };
    let longitude = match get_f64_bits(b, "longitude") {
        Some(x) => if double_within(x, LONGITUDE_LIMIT_BITS) {
            x
        } else {
            return Err(validation_error("longitude must be between -180 and 180"));
        },
        None => return Err(validation_error("longitude must be between -180 and 180")),
    };
    let amenities = match get_joined_strings(b, "amenities") {
        Some((joined, _)) => joined,
        None => String::new(),
    };
    proof {
        reveal_strlit("SETPROP");
        assert(vstd::string::is_ascii("SETPROP"));
    }
    let mut req = RequestBuilder::new("SETPROP");
    req.add_str(1, segment);
    req.add_str(2, area);
    req.add_str(3, property_id);
    req.add_str(4, property_type);
    req.add_str(5, category);
    req.add_u8(6, stars);
    req.add_u64(7, latitude);
    req.add_u64(8, longitude);
    req.add_str(9, amenities.as_str());
    let ghost fs = req.fields();
    let out = req.finish();
    assert(fs =~= seq![
        text_field(1, text_of(*b, "segment"@).unwrap()),
        text_field(2, text_of(*b, "area"@).unwrap()),
        text_field(3, text_of(*b, "property_id"@).unwrap()),
        text_field(4, text_of(*b, "property_type"@).unwrap()),
        text_field(5, text_of(*b, "category"@).unwrap()),
        byte_field(6, u64_of(*b, "stars"@).unwrap() as u8),
        u64_field(7, bits_of(*b, "latitude"@).unwrap()),
        u64_field(8, bits_of(*b, "longitude"@).unwrap()),
        text_field(9, join_commas(list_of(*b, "amenities"@))),
    ]);
    Ok(out)
}

} // verus!

verus! {

// ---------------------------------------------------------------------------
// Commands whose body is a list of required non-empty strings
// ---------------------------------------------------------------------------

/// The message for a missing or empty required member.
pub open spec fn missing_message(key: Seq<char>) -> Seq<char> {
    key + " is required"@
}

/// The text fields `1..` for the members `keys`, in order, or the message
/// for the first one that is missing or empty.
pub open spec fn text_fields(b: JsonValue, keys: Seq<Seq<char>>) -> Result<Seq<WireField>, Seq<char>>
    decreases keys.len(),
{
    if keys.len() == 0 {
        Ok(Seq::empty())
    } else {
        match text_fields(b, keys.drop_last()) {
            Err(m) => Err(m),
            Ok(fs) => match nonempty_text_of(b, keys.last()) {
                Some(s) => Ok(fs.push(text_field(keys.len() as int, s))),
                None => Err(missing_message(keys.last())),
            },
        }
    }
}

/// The payload of command `cmd` whose fields are the members `keys`.
pub open spec fn text_request(cmd: Seq<u8>, b: JsonValue, keys: Seq<Seq<char>>) -> Result<Seq<u8>, Seq<char>> {
    match text_fields(b, keys) {
        Ok(fs) => Ok(request_bytes(cmd, fs)),
        Err(m) => Err(m),
    }
}

/// The views of the keys.
pub open spec fn key_views(keys: Seq<&str>) -> Seq<Seq<char>> {
    keys.map_values(|k: &str| k@)
}

/// Adds the text fields for `keys` to `req`, or returns the validation
/// error for the first missing one.
fn add_text_fields(req: &mut RequestBuilder, b: &JsonValue, keys: &[&str]) -> (r: Result<(), RZError>)
    requires
        old(req).wf(),
        old(req).fields().len() == 0,
        keys@.len() < 65535,
    ensures
        final(req).wf(),
        final(req).command() == old(req).command(),
        r is Ok ==> final(req).fields().len() == keys@.len(),
        match text_fields(*b, key_views(keys@)) {
            Ok(fs) => r is Ok && final(req).fields() == fs,
            Err(m) => r matches Err(e) && e@ == RZErrorView::Validation(m),
        },
{
    let mut i: usize = 0;
    assert(key_views(keys@.subrange(0, 0)) =~= Seq::<Seq<char>>::empty());
    assert(req.fields() =~= Seq::<WireField>::empty());
    while i < keys.len()
        invariant
            i <= keys@.len(),
            keys@.len() < 65535,
            req.wf(),
            req.command() == old(req).command(),
            text_fields(*b, key_views(keys@.subrange(0, i as int))) == Ok::<Seq<WireField>, Seq<char>>(
                req.fields(),
            ),
            req.fields().len() == i,
        decreases keys@.len() - i,
    {
        let key = keys[i];
        let ghost prefix = key_views(keys@.subrange(0, i + 1));
        assert(prefix.drop_last() =~= key_views(keys@.subrange(0, i as int)));
        assert(prefix.last() == key@);
        match get_str(b, key) {
            Some(s) => {
                if s.is_empty() {
                    let mut msg = key.to_owned();
                    msg.append(" is required");
                    proof {
                        lemma_text_fields_err(*b, key_views(keys@), (i + 1) as nat);
                        assert(key_views(keys@).subrange(0, i + 1) =~= prefix);
                    }
                    return Err(RZError::Validation(msg));
                }
                req.add_str((i + 1) as u16, s);
            },
            None => {
                let mut msg = key.to_owned();
                msg.append(" is required");
                proof {
                    lemma_text_fields_err(*b, key_views(keys@), (i + 1) as nat);
                    assert(key_views(keys@).subrange(0, i + 1) =~= prefix);
                }
                return Err(RZError::Validation(msg));
            },
        }
        i = i + 1;
    }
    assert(keys@.subrange(0, keys@.len() as int) =~= keys@);
    Ok(())
}

/// An error in the first `k` keys is the error of all of them.
proof fn lemma_text_fields_err(b: JsonValue, keys: Seq<Seq<char>>, k: nat)
    requires
        k <= keys.len(),
        text_fields(b, keys.subrange(0, k as int)) is Err,
    ensures
        text_fields(b, keys) == text_fields(b, keys.subrange(0, k as int)),
    decreases keys.len() - k,
{
    if k < keys.len() {
        let next = keys.subrange(0, k as int + 1);
        assert(next.drop_last() =~= keys.subrange(0, k as int));
        lemma_text_fields_err(b, keys, k + 1);
    } else {
        assert(keys.subrange(0, k as int) =~= keys);
    }
}

/// Encodes a command whose body is the required members `keys`.
fn build_text_request(cmd: &str, b: &JsonValue, keys: &[&str]) -> (r: Result<Vec<u8>, RZError>)
    requires
        cmd.spec_bytes().len() < 256,
        keys@.len() < 65535,
    ensures
        encoded(r, text_request(cmd.spec_bytes(), *b, key_views(keys@))),
{
    let mut req = RequestBuilder::new(cmd);
    add_text_fields(&mut req, b, keys)?;
    Ok(req.finish())
}

/// The PROPEXIST payload.
pub open spec fn prop_exist_request(b: JsonValue) -> Result<Seq<u8>, Seq<char>> {
    text_request("PROPEXIST".spec_bytes(), b, seq!["property_id"@])
}

/// Encodes PROPEXIST: does a property exist.
pub fn build_prop_exist(b: &JsonValue) -> (r: Result<Vec<u8>, RZError>)
    ensures
        encoded(r, prop_exist_request(*b)),
{
    proof {
        reveal_strlit("PROPEXIST");
        assert(vstd::string::is_ascii("PROPEXIST"));
    }
    let keys: [&str; 1] = ["property_id"];
    assert(key_views(keys@) =~= seq!["property_id"@]);
    build_text_request("PROPEXIST", b, &keys)
}

} // verus!

verus! {

/// The PROPROOMLIST payload.
pub open spec fn prop_room_list_request(b: JsonValue) -> Result<Seq<u8>, Seq<char>> {
    text_request("PROPROOMLIST".spec_bytes(), b, seq!["property_id"@])
}

/// Encodes PROPROOMLIST: the room types of a property.
pub fn build_prop_room_list(b: &JsonValue) -> (r: Result<Vec<u8>, RZError>)
    ensures
        encoded(r, prop_room_list_request(*b)),
{
    proof {
        reveal_strlit("PROPROOMLIST");
        assert(vstd::string::is_ascii("PROPROOMLIST"));
    }
    let keys: [&str; 1] = ["property_id"];
    assert(key_views(keys@) =~= seq!["property_id"@]);
    build_text_request("PROPROOMLIST", b, &keys)
}

/// The PROPROOMEXIST payload.
pub open spec fn prop_room_exist_request(b: JsonValue) -> Result<Seq<u8>, Seq<char>> {
    text_request("PROPROOMEXIST".spec_bytes(), b, seq!["property_id"@, "room_type"@])
}

/// Encodes PROPROOMEXIST: does a property have a room type.
pub fn build_prop_room_exist(b: &JsonValue) -> (r: Result<Vec<u8>, RZError>)
    ensures
        encoded(r, prop_room_exist_request(*b)),
{
    proof {
        reveal_strlit("PROPROOMEXIST");
        assert(vstd::string::is_ascii("PROPROOMEXIST"));
    }
    let keys: [&str; 2] = ["property_id", "room_type"];
    assert(key_views(keys@) =~= seq!["property_id"@, "room_type"@]);
    build_text_request("PROPROOMEXIST", b, &keys)
}

/// The GETPROPROOMDAY payload.
pub open spec fn get_prop_room_day_request(b: JsonValue) -> Result<Seq<u8>, Seq<char>> {
    text_request("GETPROPROOMDAY".spec_bytes(), b, seq!["property_id"@, "room_type"@, "date"@])
}

/// Encodes GETPROPROOMDAY: fetches one room-day record.
pub fn build_get_prop_room_day(b: &JsonValue) -> (r: Result<Vec<u8>, RZError>)
    ensures
        encoded(r, get_prop_room_day_request(*b)),
{
    proof {
        reveal_strlit("GETPROPROOMDAY");
        assert(vstd::string::is_ascii("GETPROPROOMDAY"));
    }
    let keys: [&str; 3] = ["property_id", "room_type", "date"];
    assert(key_views(keys@) =~= seq!["property_id"@, "room_type"@, "date"@]);
    build_text_request("GETPROPROOMDAY", b, &keys)
}

/// The PROPROOMDATELIST payload.
pub open spec fn prop_room_date_list_request(b: JsonValue) -> Result<Seq<u8>, Seq<char>> {
    text_request("PROPROOMDATELIST".spec_bytes(), b, seq!["property_id"@, "room_type"@])
}

/// Encodes PROPROOMDATELIST: lists the dates with data for a room type.
pub fn build_prop_room_date_list(b: &JsonValue) -> (r: Result<Vec<u8>, RZError>)
    ensures
        encoded(r, prop_room_date_list_request(*b)),
{
    proof {
        reveal_strlit("PROPROOMDATELIST");
        assert(vstd::string::is_ascii("PROPROOMDATELIST"));
    }
    let keys: [&str; 2] = ["property_id", "room_type"];
    assert(key_views(keys@) =~= seq!["property_id"@, "room_type"@]);
    build_text_request("PROPROOMDATELIST", b, &keys)
}

/// The DELROOMDAY payload.
pub open spec fn del_room_day_request(b: JsonValue) -> Result<Seq<u8>, Seq<char>> {
    text_request("DELROOMDAY".spec_bytes(), b, seq!["property_id"@, "room_type"@, "date"@])
}

/// Encodes DELROOMDAY: deletes one room-day record.
pub fn build_del_room_day(b: &JsonValue) -> (r: Result<Vec<u8>, RZError>)
    ensures
        encoded(r, del_room_day_request(*b)),
{
    proof {
        reveal_strlit("DELROOMDAY");
        assert(vstd::string::is_ascii("DELROOMDAY"));
    }
    let keys: [&str; 3] = ["property_id", "room_type", "date"];
    assert(key_views(keys@) =~= seq!["property_id"@, "room_type"@, "date"@]);
    build_text_request("DELROOMDAY", b, &keys)
}

/// The DELSEGMENT payload.
pub open spec fn del_segment_request(b: JsonValue) -> Result<Seq<u8>, Seq<char>> {
    text_request("DELSEGMENT".spec_bytes(), b, seq!["segment"@])
}

/// Encodes DELSEGMENT: deletes a whole segment.
pub fn build_del_segment(b: &JsonValue) -> (r: Result<Vec<u8>, RZError>)
    ensures
        encoded(r, del_segment_request(*b)),
{
    proof {
        reveal_strlit("DELSEGMENT");
        assert(vstd::string::is_ascii("DELSEGMENT"));
    }
    let keys: [&str; 1] = ["segment"];
    assert(key_views(keys@) =~= seq!["segment"@]);
    build_text_request("DELSEGMENT", b, &keys)
}

/// The DELPROP payload.
pub open spec fn del_prop_request(b: JsonValue) -> Result<Seq<u8>, Seq<char>> {
    text_request("DELPROP".spec_bytes(), b, seq!["property_id"@])
}

/// Encodes DELPROP: deletes a property.
pub fn build_del_prop(b: &JsonValue) -> (r: Result<Vec<u8>, RZError>)
    ensures
        encoded(r, del_prop_request(*b)),
{
    proof {
        reveal_strlit("DELPROP");
        assert(vstd::string::is_ascii("DELPROP"));
    }
    let keys: [&str; 1] = ["property_id"];
    assert(key_views(keys@) =~= seq!["property_id"@]);
    build_text_request("DELPROP", b, &keys)
}

/// The DELPROPDAY payload.
pub open spec fn del_prop_day_request(b: JsonValue) -> Result<Seq<u8>, Seq<char>> {
    text_request("DELPROPDAY".spec_bytes(), b, seq!["property_id"@, "date"@])
}

/// Encodes DELPROPDAY: deletes all room data of a property on one date.
pub fn build_del_prop_day(b: &JsonValue) -> (r: Result<Vec<u8>, RZError>)
    ensures
        encoded(r, del_prop_day_request(*b)),
{
    proof {
        reveal_strlit("DELPROPDAY");
        assert(vstd::string::is_ascii("DELPROPDAY"));
    }
    let keys: [&str; 2] = ["property_id", "date"];
    assert(key_views(keys@) =~= seq!["property_id"@, "date"@]);
    build_text_request("DELPROPDAY", b, &keys)
}

/// The DELPROPROOM payload.
pub open spec fn del_prop_room_request(b: JsonValue) -> Result<Seq<u8>, Seq<char>> {
    text_request("DELPROPROOM".spec_bytes(), b, seq!["property_id"@, "room_type"@])
}

/// Encodes DELPROPROOM: deletes a room type from a property.
pub fn build_del_prop_room(b: &JsonValue) -> (r: Result<Vec<u8>, RZError>)
    ensures
        encoded(r, del_prop_room_request(*b)),
{
    proof {
        reveal_strlit("DELPROPROOM");
        assert(vstd::string::is_ascii("DELPROPROOM"));
    }
    let keys: [&str; 2] = ["property_id", "room_type"];
    assert(key_views(keys@) =~= seq!["property_id"@, "room_type"@]);
    build_text_request("DELPROPROOM", b, &keys)
}

} // verus!

verus! {

// ---------------------------------------------------------------------------
// SETROOMAVL, INCROOMAVL, DECROOMAVL
// ---------------------------------------------------------------------------

/// The members that name a room-day.
pub open spec fn room_day_keys() -> Seq<Seq<char>> {
    seq!["property_id"@, "room_type"@, "date"@]
}

/// The payload of an availability command `cmd`: the room-day and the
/// amount as a byte.
pub open spec fn room_avl_request(cmd: Seq<u8>, b: JsonValue) -> Result<Seq<u8>, Seq<char>> {
    match text_fields(b, room_day_keys()) {
        Err(m) => Err(m),
        Ok(fs) => match byte_of(b, "amount"@) {
            Some(a) => Ok(request_bytes(cmd, fs.push(byte_field(4, a)))),
            None => Err("amount is required and must be 0-255"@),
        },
    }
}

/// Encodes an availability command.
fn build_room_avl(cmd: &str, b: &JsonValue) -> (r: Result<Vec<u8>, RZError>)
    requires
        cmd.spec_bytes().len() < 256,
    ensures
        encoded(r, room_avl_request(cmd.spec_bytes(), *b)),
{
    let keys: [&str; 3] = ["property_id", "room_type", "date"];
    assert(key_views(keys@) =~= room_day_keys());
    let mut req = RequestBuilder::new(cmd);
    add_text_fields(&mut req, b, &keys)?;
    let amount = match optional_byte(b, "amount") {
        Some(a) => a,
        None => return Err(validation_error("amount is required and must be 0-255")),
    };
    req.add_u8(4, amount);
    Ok(req.finish())
}

/// The SETROOMAVL payload.
pub open spec fn set_room_avl_request(b: JsonValue) -> Result<Seq<u8>, Seq<char>> {
    room_avl_request("SETROOMAVL".spec_bytes(), b)
}

/// Encodes SETROOMAVL: sets the availability of a room-day.
pub fn build_set_room_avl(b: &JsonValue) -> (r: Result<Vec<u8>, RZError>)
    ensures
        encoded(r, set_room_avl_request(*b)),
{
    proof {
        reveal_strlit("SETROOMAVL");
        assert(vstd::string::is_ascii("SETROOMAVL"));
    }
    build_room_avl("SETROOMAVL", b)
}

/// The INCROOMAVL payload.
pub open spec fn inc_room_avl_request(b: JsonValue) -> Result<Seq<u8>, Seq<char>> {
    room_avl_request("INCROOMAVL".spec_bytes(), b)
}

/// Encodes INCROOMAVL: raises the availability of a room-day.
pub fn build_inc_room_avl(b: &JsonValue) -> (r: Result<Vec<u8>, RZError>)
    ensures
        encoded(r, inc_room_avl_request(*b)),
{
    proof {
        reveal_strlit("INCROOMAVL");
        assert(vstd::string::is_ascii("INCROOMAVL"));
    }
    build_room_avl("INCROOMAVL", b)
}

/// The DECROOMAVL payload.
pub open spec fn dec_room_avl_request(b: JsonValue) -> Result<Seq<u8>, Seq<char>> {
    room_avl_request("DECROOMAVL".spec_bytes(), b)
}

/// Encodes DECROOMAVL: lowers the availability of a room-day.
pub fn build_dec_room_avl(b: &JsonValue) -> (r: Result<Vec<u8>, RZError>)
    ensures
        encoded(r, dec_room_avl_request(*b)),
{
    proof {
        reveal_strlit("DECROOMAVL");
        assert(vstd::string::is_ascii("DECROOMAVL"));
    }
    build_room_avl("DECROOMAVL", b)
}

// ---------------------------------------------------------------------------
// SETROOMPKG
// ---------------------------------------------------------------------------

/// The SETROOMPKG payload: the room-day, then availability (byte), final
/// price (kept modulo 2^32) and rate features, each when given.
pub open spec fn set_room_pkg_request(b: JsonValue) -> Result<Seq<u8>, Seq<char>> {
    match text_fields(b, room_day_keys()) {
        Err(m) => Err(m),
        Ok(fs) => {
            let fs1 = push_if(fs, byte_of(b, "availability"@), |v: u8| byte_field(4, v));
            let fs2 = push_if(fs1, u64_of(b, "final_price"@), |v: u64| u32_field(5, v as u32));
            let fs3 = push_if(fs2, joined_list_of(b, "rate_features"@), |s: Seq<char>| text_field(6, s));
            Ok(request_bytes("SETROOMPKG".spec_bytes(), fs3))
        },
    }
}

/// Encodes SETROOMPKG: replaces the data of a room-day.
pub fn build_set_room_pkg(b: &JsonValue) -> (r: Result<Vec<u8>, RZError>)
    ensures
        encoded(r, set_room_pkg_request(*b)),
{
    proof {
        reveal_strlit("SETROOMPKG");
        assert(vstd::string::is_ascii("SETROOMPKG"));
    }
    let keys: [&str; 3] = ["property_id", "room_type", "date"];
    assert(key_views(keys@) =~= room_day_keys());
    let mut req = RequestBuilder::new("SETROOMPKG");
    add_text_fields(&mut req, b, &keys)?;
    let ghost fs = req.fields();
    if let Some(a) = optional_byte(b, "availability") {
        req.add_u8(4, a);
    }
    let ghost fs1 = req.fields();
    assert(fs1 == push_if(fs, byte_of(*b, "availability"@), |v: u8| byte_field(4, v)));
    if let Some(p) = get_u64(b, "final_price") {
        req.add_u32(5, #[verifier::truncate] (p as u32));
    }
    let ghost fs2 = req.fields();
    assert(fs2 == push_if(fs1, u64_of(*b, "final_price"@), |v: u64| u32_field(5, v as u32)));
    if let Some(features) = optional_list(b, "rate_features") {
        req.add_str(6, features.as_str());
    }
    assert(req.fields() == push_if(
        fs2,
        joined_list_of(*b, "rate_features"@),
        |s: Seq<char>| text_field(6, s),
    ));
    Ok(req.finish())
}

} // verus!

verus! {

// ---------------------------------------------------------------------------
// SEARCHPROP
// ---------------------------------------------------------------------------

/// The star rating, when it is between 1 and 5.
pub open spec fn stars_of(b: JsonValue) -> Option<u8> {
    match u64_of(b, "stars"@) {
        Some(s) => if 1 <= s <= 5 {
            Some(s as u8)
        } else {
            None
        },
        None => None,
    }
}

/// The number member `key` as double bits, when it lies within
/// `[-limit, limit]`.
pub open spec fn bounded_bits_of(b: JsonValue, key: Seq<char>, limit_bits: u64) -> Option<u64> {
    match bits_of(b, key) {
        Some(x) => if within_limit(x, limit_bits) {
            Some(x)
        } else {
            None
        },
        None => None,
    }
}

/// The SEARCHPROP payload: the segment, then each filter that is given
/// (filters out of range are left out).
pub open spec fn search_prop_request(b: JsonValue) -> Result<Seq<u8>, Seq<char>> {
    match text_of(b, "segment"@) {
        None => Err("segment is required"@),
        Some(seg) => {
            let f1 = seq![text_field(1, seg)];
            let f2 = push_if(f1, text_of(b, "area"@), |s: Seq<char>| text_field(2, s));
            let f3 = push_if(f2, text_of(b, "type"@), |s: Seq<char>| text_field(3, s));
            let f4 = push_if(f3, stars_of(b), |v: u8| byte_field(4, v));
            let f5 = push_if(f4, text_of(b, "category"@), |s: Seq<char>| text_field(5, s));
            let f6 = push_if(f5, joined_list_of(b, "amenities"@), |s: Seq<char>| text_field(6, s));
            let f7 = push_if(
                f6,
                bounded_bits_of(b, "longitude"@, LONGITUDE_LIMIT_BITS),
                |x: u64| u64_field(7, x),
            );
            let f8 = push_if(
                f7,
                bounded_bits_of(b, "latitude"@, LATITUDE_LIMIT_BITS),
                |x: u64| u64_field(8, x),
            );
            let f9 = push_if(f8, u64_of(b, "limit"@), |x: u64| u64_field(9, x));
            Ok(request_bytes("SEARCHPROP".spec_bytes(), f9))
        },
    }
}

/// The number member `key` as double bits, when within `[-limit, limit]`.
fn optional_bounded_bits(b: &JsonValue, key: &str, limit_bits: u64) -> (r: Option<u64>)
    ensures
        r == bounded_bits_of(*b, key@, limit_bits),
{
    match get_f64_bits(b, key) {
        Some(x) => if double_within(x, limit_bits) {
            Some(x)
        } else {
            None
        },
        None => None,
    }
}

/// Encodes SEARCHPROP: lists the properties that match the filters.
pub fn build_search_prop(b: &JsonValue) -> (r: Result<Vec<u8>, RZError>)
    ensures
        encoded(r, search_prop_request(*b)),
{
    proof {
        reveal_strlit("SEARCHPROP");
        assert(vstd::string::is_ascii("SEARCHPROP"));
    }
    let segment = require_text(b, "segment", "segment is required")?;
    let mut req = RequestBuilder::new("SEARCHPROP");
    req.add_str(1, segment);
    let ghost f1 = req.fields();
    assert(f1 =~= seq![text_field(1, segment@)]);
    if let Some(a) = get_str(b, "area") {
        req.add_str(2, a);
    }
    let ghost f2 = req.fields();
    assert(f2 == push_if(f1, text_of(*b, "area"@), |s: Seq<char>| text_field(2, s)));
    if let Some(t) = get_str(b, "type") {
        req.add_str(3, t);
    }
    let ghost f3 = req.fields();
    assert(f3 == push_if(f2, text_of(*b, "type"@), |s: Seq<char>| text_field(3, s)));
    let stars = match get_u64(b, "stars") {
        Some(s) => if 1 <= s && s <= 5 {
            Some(s as u8)
        } else {
            None
        },
        None => None,
    };
    if let Some(s) = stars {
        req.add_u8(4, s);
    }
    let ghost f4 = req.fields();
    assert(f4 == push_if(f3, stars_of(*b), |v: u8| byte_field(4, v)));
    if let Some(c) = get_str(b, "category") {
        req.add_str(5, c);
    }
    let ghost f5 = req.fields();
    assert(f5 == push_if(f4, text_of(*b, "category"@), |s: Seq<char>| text_field(5, s)));
    if let Some(am) = optional_list(b, "amenities") {
        req.add_str(6, am.as_str());
    }
    let ghost f6 = req.fields();
    assert(f6 == push_if(f5, joined_list_of(*b, "amenities"@), |s: Seq<char>| text_field(6, s)));
    if let Some(lon) = optional_bounded_bits(b, "longitude", LONGITUDE_LIMIT_BITS) {
        req.add_u64(7, lon);
    }
    let ghost f7 = req.fields();
    assert(f7 == push_if(
        f6,
        bounded_bits_of(*b, "longitude"@, LONGITUDE_LIMIT_BITS),
        |x: u64| u64_field(7, x),
    ));
    if let Some(lat) = optional_bounded_bits(b, "latitude", LATITUDE_LIMIT_BITS) {
        req.add_u64(8, lat);
    }
    let ghost f8 = req.fields();
    assert(f8 == push_if(
        f7,
        bounded_bits_of(*b, "latitude"@, LATITUDE_LIMIT_BITS),
        |x: u64| u64_field(8, x),
    ));
    if let Some(l) = get_u64(b, "limit") {
        req.add_u64(9, l);
    }
    assert(req.fields() == push_if(f8, u64_of(*b, "limit"@), |x: u64| u64_field(9, x)));
    Ok(req.finish())
}

// ---------------------------------------------------------------------------
// SEARCHAVAIL
// ---------------------------------------------------------------------------

/// The SEARCHAVAIL payload: segment and room type, then each filter that
/// is given.
pub open spec fn search_avail_request(b: JsonValue) -> Result<Seq<u8>, Seq<char>> {
    match text_fields(b, seq!["segment"@, "room_type"@]) {
        Err(m) => Err(m),
        Ok(f2) => {
            let f3 = push_if(f2, text_of(b, "area"@), |s: Seq<char>| text_field(3, s));
            let f4 = push_if(f3, text_of(b, "property_id"@), |s: Seq<char>| text_field(4, s));
            let f5 = push_if(f4, text_of(b, "type"@), |s: Seq<char>| text_field(5, s));
            let f6 = push_if(f5, byte_of(b, "stars"@), |v: u8| byte_field(6, v));
            let f7 = push_if(f6, text_of(b, "category"@), |s: Seq<char>| text_field(7, s));
            let f8 = push_if(f7, joined_list_of(b, "amenities"@), |s: Seq<char>| text_field(8, s));
            let f9 = push_if(f8, bits_of(b, "longitude"@), |x: u64| u64_field(9, x));
            let f10 = push_if(f9, bits_of(b, "latitude"@), |x: u64| u64_field(10, x));
            let f11 = push_if(f10, joined_list_of(b, "date"@), |s: Seq<char>| text_field(11, s));
            let f12 = push_if(f11, byte_of(b, "availability"@), |v: u8| byte_field(12, v));
            let f13 = push_if(f12, u64_of(b, "final_price"@), |v: u64| u32_field(13, v as u32));
            let f14 = push_if(f13, joined_list_of(b, "rate_features"@), |s: Seq<char>| text_field(14, s));
            let f15 = push_if(f14, u64_of(b, "limit"@), |x: u64| u64_field(15, x));
            Ok(request_bytes("SEARCHAVAIL".spec_bytes(), f15))
        },
    }
}

/// Adds the filters of SEARCHAVAIL with ids 3 to 8.
fn add_avail_property_filters(req: &mut RequestBuilder, b: &JsonValue)
    requires
        old(req).wf(),
        old(req).fields().len() == 2,
    ensures
        final(req).wf(),
        final(req).command() == old(req).command(),
        final(req).fields().len() <= 8,
        final(req).fields() == {
            let f2 = old(req).fields();
            let f3 = push_if(f2, text_of(*b, "area"@), |s: Seq<char>| text_field(3, s));
            let f4 = push_if(f3, text_of(*b, "property_id"@), |s: Seq<char>| text_field(4, s));
            let f5 = push_if(f4, text_of(*b, "type"@), |s: Seq<char>| text_field(5, s));
            let f6 = push_if(f5, byte_of(*b, "stars"@), |v: u8| byte_field(6, v));
            let f7 = push_if(f6, text_of(*b, "category"@), |s: Seq<char>| text_field(7, s));
            push_if(f7, joined_list_of(*b, "amenities"@), |s: Seq<char>| text_field(8, s))
        },
{
    let ghost f2 = req.fields();
    if let Some(a) = get_str(b, "area") {
        req.add_str(3, a);
    }
    let ghost f3 = req.fields();
    assert(f3 == push_if(f2, text_of(*b, "area"@), |s: Seq<char>| text_field(3, s)));
    if let Some(p) = get_str(b, "property_id") {
        req.add_str(4, p);
    }
    let ghost f4 = req.fields();
    assert(f4 == push_if(f3, text_of(*b, "property_id"@), |s: Seq<char>| text_field(4, s)));
    if let Some(t) = get_str(b, "type") {
        req.add_str(5, t);
    }
    let ghost f5 = req.fields();
    assert(f5 == push_if(f4, text_of(*b, "type"@), |s: Seq<char>| text_field(5, s)));
    if let Some(s) = optional_byte(b, "stars") {
        req.add_u8(6, s);
    }
    let ghost f6 = req.fields();
    assert(f6 == push_if(f5, byte_of(*b, "stars"@), |v: u8| byte_field(6, v)));
    if let Some(c) = get_str(b, "category") {
        req.add_str(7, c);
    }
    let ghost f7 = req.fields();
    assert(f7 == push_if(f6, text_of(*b, "category"@), |s: Seq<char>| text_field(7, s)));
    if let Some(am) = optional_list(b, "amenities") {
        req.add_str(8, am.as_str());
    }
    assert(req.fields() == push_if(f7, joined_list_of(*b, "amenities"@), |s: Seq<char>| text_field(8, s)));
}

/// Adds the filters of SEARCHAVAIL with ids 9 to 15.
fn add_avail_day_filters(req: &mut RequestBuilder, b: &JsonValue)
    requires
        old(req).wf(),
        old(req).fields().len() <= 8,
    ensures
        final(req).wf(),
        final(req).command() == old(req).command(),
        final(req).fields() == {
            let f8 = old(req).fields();
            let f9 = push_if(f8, bits_of(*b, "longitude"@), |x: u64| u64_field(9, x));
            let f10 = push_if(f9, bits_of(*b, "latitude"@), |x: u64| u64_field(10, x));
            let f11 = push_if(f10, joined_list_of(*b, "date"@), |s: Seq<char>| text_field(11, s));
            let f12 = push_if(f11, byte_of(*b, "availability"@), |v: u8| byte_field(12, v));
            let f13 = push_if(f12, u64_of(*b, "final_price"@), |v: u64| u32_field(13, v as u32));
            let f14 = push_if(f13, joined_list_of(*b, "rate_features"@), |s: Seq<char>| text_field(14, s));
            push_if(f14, u64_of(*b, "limit"@), |x: u64| u64_field(15, x))
        },
{
    let ghost f8 = req.fields();
    if let Some(lon) = get_f64_bits(b, "longitude") {
        req.add_u64(9, lon);
    }
    let ghost f9 = req.fields();
    assert(f9 == push_if(f8, bits_of(*b, "longitude"@), |x: u64| u64_field(9, x)));
    if let Some(lat) = get_f64_bits(b, "latitude") {
        req.add_u64(10, lat);
    }
    let ghost f10 = req.fields();
    assert(f10 == push_if(f9, bits_of(*b, "latitude"@), |x: u64| u64_field(10, x)));
    if let Some(d) = optional_list(b, "date") {
        req.add_str(11, d.as_str());
    }
    let ghost f11 = req.fields();
    assert(f11 == push_if(f10, joined_list_of(*b, "date"@), |s: Seq<char>| text_field(11, s)));
    if let Some(a) = optional_byte(b, "availability") {
        req.add_u8(12, a);
    }
    let ghost f12 = req.fields();
    assert(f12 == push_if(f11, byte_of(*b, "availability"@), |v: u8| byte_field(12, v)));
    if let Some(p) = get_u64(b, "final_price") {
        req.add_u32(13, #[verifier::truncate] (p as u32));
    }
    let ghost f13 = req.fields();
    assert(f13 == push_if(f12, u64_of(*b, "final_price"@), |v: u64| u32_field(13, v as u32)));
    if let Some(r) = optional_list(b, "rate_features") {
        req.add_str(14, r.as_str());
    }
    let ghost f14 = req.fields();
    assert(f14 == push_if(f13, joined_list_of(*b, "rate_features"@), |s: Seq<char>| text_field(14, s)));
    if let Some(l) = get_u64(b, "limit") {
        req.add_u64(15, l);
    }
    assert(req.fields() == push_if(f14, u64_of(*b, "limit"@), |x: u64| u64_field(15, x)));
}

/// Encodes SEARCHAVAIL: availability and prices of matching properties.
pub fn build_search_avail(b: &JsonValue) -> (r: Result<Vec<u8>, RZError>)
    ensures
        encoded(r, search_avail_request(*b)),
{
    proof {
        reveal_strlit("SEARCHAVAIL");
        assert(vstd::string::is_ascii("SEARCHAVAIL"));
    }
    let keys: [&str; 2] = ["segment", "room_type"];
    assert(key_views(keys@) =~= seq!["segment"@, "room_type"@]);
    let mut req = RequestBuilder::new("SEARCHAVAIL");
    add_text_fields(&mut req, b, &keys)?;
    add_avail_property_filters(&mut req, b);
    add_avail_day_filters(&mut req, b);
    Ok(req.finish())
}

// ---------------------------------------------------------------------------
// GETSEGMENTS
// ---------------------------------------------------------------------------

/// The GETSEGMENTS payload: no fields; the body must be an object.
pub open spec fn get_segments_request(b: JsonValue) -> Result<Seq<u8>, Seq<char>> {
    if b is Object {
        Ok(request_bytes("GETSEGMENTS".spec_bytes(), Seq::empty()))
    } else {
        Err("invalid payload"@)
    }
}

/// Encodes GETSEGMENTS: lists the segments.
pub fn build_get_segments(b: &JsonValue) -> (r: Result<Vec<u8>, RZError>)
    ensures
        encoded(r, get_segments_request(*b)),
{
    if !b.is_object() {
        return Err(validation_error("invalid payload"));
    }
    proof {
        reveal_strlit("GETSEGMENTS");
        assert(vstd::string::is_ascii("GETSEGMENTS"));
    }
    let req = RequestBuilder::new("GETSEGMENTS");
    Ok(req.finish())
}

} // verus!

verus! {

/// A SETROOMPKG request whose room-day is given and whose availability is
/// an integer from 0 to 255 is encoded, and the payload carries that
/// availability: among its fields is field 4, of type byte, holding it.
pub proof fn law_set_room_pkg_sends_availability(b: JsonValue, a: u64)
    requires
        nonempty_text_of(b, "property_id"@) is Some,
        nonempty_text_of(b, "room_type"@) is Some,
        nonempty_text_of(b, "date"@) is Some,
        u64_of(b, "availability"@) == Some(a),
        a <= 255,
    ensures
        set_room_pkg_request(b) matches Ok(p) && exists|fs: Seq<WireField>|
            p == request_bytes("SETROOMPKG".spec_bytes(), fs) && #[trigger] fs.contains(
                WireField { id: 4, kind: 2u8, data: seq![a as u8] },
            ),
{
    let keys = room_day_keys();
    let k2 = keys.drop_last();
    let k1 = k2.drop_last();
    let k0 = k1.drop_last();
    assert(k2 =~= seq!["property_id"@, "room_type"@]);
    assert(k1 =~= seq!["property_id"@]);
    assert(k0 =~= Seq::<Seq<char>>::empty());
    assert(text_fields(b, k0) is Ok);
    assert(k1.last() == "property_id"@);
    assert(text_fields(b, k1) is Ok);
    assert(k2.last() == "room_type"@);
    assert(text_fields(b, k2) is Ok);
    assert(keys.last() == "date"@);
    assert(text_fields(b, keys) is Ok);
    let fs = text_fields(b, keys)->Ok_0;
    let fs1 = fs.push(WireField { id: 4, kind: 2u8, data: seq![a as u8] });
    assert(byte_of(b, "availability"@) == Some(a as u8));
    let fs2 = push_if(fs1, u64_of(b, "final_price"@), |v: u64| u32_field(5, v as u32));
    let fs3 = push_if(fs2, joined_list_of(b, "rate_features"@), |s: Seq<char>| text_field(6, s));
    assert(set_room_pkg_request(b) == Ok::<Seq<u8>, Seq<char>>(request_bytes("SETROOMPKG".spec_bytes(), fs3)));
    assert(fs3[fs.len() as int] == WireField { id: 4, kind: 2u8, data: seq![a as u8] });
    assert(fs3.contains(WireField { id: 4, kind: 2u8, data: seq![a as u8] }));
}

/// A SEARCHPROP request with a segment and a star rating that is an
/// integer from 1 to 5 is encoded, and the payload carries the rating: among
/// its fields is field 4, of type byte, holding it.
pub proof fn law_search_prop_sends_stars(b: JsonValue, stars: u64)
    requires
        text_of(b, "segment"@) is Some,
        u64_of(b, "stars"@) == Some(stars),
        1 <= stars <= 5,
    ensures
        search_prop_request(b) matches Ok(p) && exists|fs: Seq<WireField>|
            p == request_bytes("SEARCHPROP".spec_bytes(), fs) && #[trigger] fs.contains(
                WireField { id: 4, kind: 2u8, data: seq![stars as u8] },
            ),
{
    let field = WireField { id: 4, kind: 2u8, data: seq![stars as u8] };
    assert(stars_of(b) == Some(stars as u8));
    let seg = text_of(b, "segment"@).unwrap();
    let f1 = seq![text_field(1, seg)];
    let f2 = push_if(f1, text_of(b, "area"@), |s: Seq<char>| text_field(2, s));
    let f3 = push_if(f2, text_of(b, "type"@), |s: Seq<char>| text_field(3, s));
    let f4 = f3.push(field);
    assert(f4[f3.len() as int] == field);
    assert(search_prop_request(b) is Ok);
    let p = search_prop_request(b)->Ok_0;
    assert(exists|fs: Seq<WireField>|
        p == request_bytes("SEARCHPROP".spec_bytes(), fs) && #[trigger] fs.contains(field)) by {
        let f5 = push_if(f4, text_of(b, "category"@), |s: Seq<char>| text_field(5, s));
        let f6 = push_if(f5, joined_list_of(b, "amenities"@), |s: Seq<char>| text_field(6, s));
        let f7 = push_if(f6, bounded_bits_of(b, "longitude"@, LONGITUDE_LIMIT_BITS), |x: u64| u64_field(7, x));
        let f8 = push_if(f7, bounded_bits_of(b, "latitude"@, LATITUDE_LIMIT_BITS), |x: u64| u64_field(8, x));
        let f9 = push_if(f8, u64_of(b, "limit"@), |v: u64| u64_field(9, v));
        assert(p == request_bytes("SEARCHPROP".spec_bytes(), f9));
        assert(f9[f3.len() as int] == field);
        assert(f9.contains(field));
    }
}

} // verus!

verus! {

/// `fs` holds a field with this id, type and data.
pub open spec fn holds_field(fs: Seq<WireField>, id: int, kind: u8, data: Seq<u8>) -> bool {
    fs.contains(WireField { id, kind, data })
}

/// A SEARCHPROP request with a segment is encoded, and every filter that
/// is given is sent: the segment as field 1, area 2, type 3, a star rating
/// from 1 to 5 as field 4, category 5, and the result limit as field 9.
pub proof fn law_search_prop_sends_filters(b: JsonValue)
    requires
        text_of(b, "segment"@) is Some,
    ensures
        search_prop_request(b) matches Ok(p) && exists|fs: Seq<WireField>|
            #![trigger request_bytes("SEARCHPROP".spec_bytes(), fs)]
            p == request_bytes("SEARCHPROP".spec_bytes(), fs) && holds_field(
                fs,
                1,
                1u8,
                encode_utf8(text_of(b, "segment"@)->0),
            ) && (text_of(b, "area"@) matches Some(s) ==> holds_field(fs, 2, 1u8, encode_utf8(s)))
                && (text_of(b, "type"@) matches Some(s) ==> holds_field(fs, 3, 1u8, encode_utf8(s)))
                && (u64_of(b, "stars"@) matches Some(v) ==> (1 <= v <= 5 ==> holds_field(
                fs,
                4,
                2u8,
                seq![v as u8],
            ))) && (text_of(b, "category"@) matches Some(s) ==> holds_field(fs, 5, 1u8, encode_utf8(s)))
                && (u64_of(b, "limit"@) matches Some(v) ==> holds_field(fs, 9, 3u8, u64_le(v as int))),
{
    broadcast use vstd::seq_lib::lemma_seq_contains_after_push;

    let seg = text_of(b, "segment"@)->0;
    let f1 = seq![text_field(1, seg)];
    assert(f1.contains(text_field(1, seg))) by {
        assert(f1[0] == text_field(1, seg));
    }
    let f2 = push_if(f1, text_of(b, "area"@), |s: Seq<char>| text_field(2, s));
    let f3 = push_if(f2, text_of(b, "type"@), |s: Seq<char>| text_field(3, s));
    let f4 = push_if(f3, stars_of(b), |v: u8| byte_field(4, v));
    let f5 = push_if(f4, text_of(b, "category"@), |s: Seq<char>| text_field(5, s));
    let f6 = push_if(f5, joined_list_of(b, "amenities"@), |s: Seq<char>| text_field(6, s));
    let f7 = push_if(f6, bounded_bits_of(b, "longitude"@, LONGITUDE_LIMIT_BITS), |x: u64| u64_field(7, x));
    let f8 = push_if(f7, bounded_bits_of(b, "latitude"@, LATITUDE_LIMIT_BITS), |x: u64| u64_field(8, x));
    let f9 = push_if(f8, u64_of(b, "limit"@), |x: u64| u64_field(9, x));
    assert(search_prop_request(b) == Ok::<Seq<u8>, Seq<char>>(request_bytes("SEARCHPROP".spec_bytes(), f9)));
    assert(holds_field(f9, 1, 1u8, encode_utf8(seg)));
}

/// A SETROOMPKG request whose room-day is given is encoded, and every
/// value that is given is sent: the room-day as fields 1 to 3, an
/// availability from 0 to 255 as field 4, the final price (modulo 2^32) as
/// field 5 and the rate features, comma-joined, as field 6.
pub proof fn law_set_room_pkg_sends_values(b: JsonValue)
    requires
        nonempty_text_of(b, "property_id"@) is Some,
        nonempty_text_of(b, "room_type"@) is Some,
        nonempty_text_of(b, "date"@) is Some,
    ensures
        set_room_pkg_request(b) matches Ok(p) && exists|fs: Seq<WireField>|
            #![trigger request_bytes("SETROOMPKG".spec_bytes(), fs)]
            p == request_bytes("SETROOMPKG".spec_bytes(), fs) && holds_field(
                fs,
                1,
                1u8,
                encode_utf8(text_of(b, "property_id"@)->0),
            ) && holds_field(fs, 2, 1u8, encode_utf8(text_of(b, "room_type"@)->0)) && holds_field(
                fs,
                3,
                1u8,
                encode_utf8(text_of(b, "date"@)->0),
            ) && (u64_of(b, "availability"@) matches Some(v) ==> (v <= 255 ==> holds_field(
                fs,
                4,
                2u8,
                seq![v as u8],
            ))) && (u64_of(b, "final_price"@) matches Some(v) ==> holds_field(
                fs,
                5,
                3u8,
                u32_le((v as u32) as int),
            )) && (joined_list_of(b, "rate_features"@) matches Some(s) ==> holds_field(
                fs,
                6,
                1u8,
                encode_utf8(s),
            )),
{
    broadcast use vstd::seq_lib::lemma_seq_contains_after_push;

    let keys = room_day_keys();
    let k2 = keys.drop_last();
    let k1 = k2.drop_last();
    let k0 = k1.drop_last();
    assert(k2 =~= seq!["property_id"@, "room_type"@]);
    assert(k1 =~= seq!["property_id"@]);
    assert(k0 =~= Seq::<Seq<char>>::empty());
    assert(text_fields(b, k0) == Ok::<Seq<WireField>, Seq<char>>(Seq::empty()));
    assert(k1.last() == "property_id"@);
    let p0 = text_fields(b, k1)->Ok_0;
    assert(p0.contains(text_field(1, text_of(b, "property_id"@)->0))) by {
        assert(p0[0] == text_field(1, text_of(b, "property_id"@)->0));
    }
    assert(k2.last() == "room_type"@);
    let p1 = text_fields(b, k2)->Ok_0;
    assert(text_fields(b, k2) == Ok::<Seq<WireField>, Seq<char>>(
        p0.push(text_field(2, text_of(b, "room_type"@)->0)),
    ));
    assert(keys.last() == "date"@);
    assert(text_fields(b, keys) == Ok::<Seq<WireField>, Seq<char>>(
        p1.push(text_field(3, text_of(b, "date"@)->0)),
    ));
    let fs = text_fields(b, keys)->Ok_0;
    assert(fs.contains(text_field(1, text_of(b, "property_id"@)->0)));
    assert(fs.contains(text_field(2, text_of(b, "room_type"@)->0)));
    assert(fs.contains(text_field(3, text_of(b, "date"@)->0)));
    let fs1 = push_if(fs, byte_of(b, "availability"@), |v: u8| byte_field(4, v));
    let fs2 = push_if(fs1, u64_of(b, "final_price"@), |v: u64| u32_field(5, v as u32));
    let fs3 = push_if(fs2, joined_list_of(b, "rate_features"@), |s: Seq<char>| text_field(6, s));
    assert(set_room_pkg_request(b) == Ok::<Seq<u8>, Seq<char>>(request_bytes("SETROOMPKG".spec_bytes(), fs3)));
    assert(holds_field(fs3, 1, 1u8, encode_utf8(text_of(b, "property_id"@)->0)));
}

} // verus!

verus! {

/// Appending a field when a value is given keeps every field already
/// there and adds the one made from the value.
proof fn lemma_push_if_holds<T>(fs: Seq<WireField>, o: Option<T>, f: spec_fn(T) -> WireField)
    ensures
        forall|x: WireField| #[trigger] fs.contains(x) ==> push_if(fs, o, f).contains(x),
        o matches Some(v) ==> push_if(fs, o, f).contains(f(v)),
{
    broadcast use vstd::seq_lib::lemma_seq_contains_after_push;

}

/// The room-day fields are encoded when all three are given.
proof fn lemma_room_day_fields(b: JsonValue)
    requires
        nonempty_text_of(b, "property_id"@) is Some,
        nonempty_text_of(b, "room_type"@) is Some,
        nonempty_text_of(b, "date"@) is Some,
    ensures
        text_fields(b, room_day_keys()) == Ok::<Seq<WireField>, Seq<char>>(
            seq![
                text_field(1, text_of(b, "property_id"@)->0),
                text_field(2, text_of(b, "room_type"@)->0),
                text_field(3, text_of(b, "date"@)->0),
            ],
        ),
{
    let keys = room_day_keys();
    let k2 = keys.drop_last();
    let k1 = k2.drop_last();
    let k0 = k1.drop_last();
    assert(k2 =~= seq!["property_id"@, "room_type"@]);
    assert(k1 =~= seq!["property_id"@]);
    assert(k0 =~= Seq::<Seq<char>>::empty());
    assert(text_fields(b, k0) == Ok::<Seq<WireField>, Seq<char>>(Seq::empty()));
    assert(k1.last() == "property_id"@);
    assert(text_fields(b, k1) == Ok::<Seq<WireField>, Seq<char>>(
        seq![text_field(1, text_of(b, "property_id"@)->0)],
    )) by {
        assert(Seq::<WireField>::empty().push(text_field(1, text_of(b, "property_id"@)->0)) =~= seq![
            text_field(1, text_of(b, "property_id"@)->0),
        ]);
    }
    assert(k2.last() == "room_type"@);
    assert(text_fields(b, k2) == Ok::<Seq<WireField>, Seq<char>>(
        seq![text_field(1, text_of(b, "property_id"@)->0), text_field(2, text_of(b, "room_type"@)->0)],
    )) by {
        assert(seq![text_field(1, text_of(b, "property_id"@)->0)].push(
            text_field(2, text_of(b, "room_type"@)->0),
        ) =~= seq![text_field(1, text_of(b, "property_id"@)->0), text_field(2, text_of(b, "room_type"@)->0)]);
    }
    assert(keys.last() == "date"@);
    assert(seq![text_field(1, text_of(b, "property_id"@)->0), text_field(2, text_of(b, "room_type"@)->0)].push(
        text_field(3, text_of(b, "date"@)->0),
    ) =~= seq![
        text_field(1, text_of(b, "property_id"@)->0),
        text_field(2, text_of(b, "room_type"@)->0),
        text_field(3, text_of(b, "date"@)->0),
    ]);
}

/// An availability command (SETROOMAVL, INCROOMAVL, DECROOMAVL) whose
/// room-day is given is encoded exactly when its amount is an integer from
/// 0 to 255, and then sends the room-day as fields 1 to 3 and the amount as
/// field 4, of type byte; otherwise it is refused for the amount.
pub proof fn law_room_avl_sends_amount(cmd: Seq<u8>, b: JsonValue)
    requires
        nonempty_text_of(b, "property_id"@) is Some,
        nonempty_text_of(b, "room_type"@) is Some,
        nonempty_text_of(b, "date"@) is Some,
    ensures
        (u64_of(b, "amount"@) matches Some(a) && a <= 255) ==> room_avl_request(cmd, b) == Ok::<
            Seq<u8>,
            Seq<char>,
        >(
            request_bytes(
                cmd,
                seq![
                    WireField { id: 1, kind: 1u8, data: encode_utf8(text_of(b, "property_id"@)->0) },
                    WireField { id: 2, kind: 1u8, data: encode_utf8(text_of(b, "room_type"@)->0) },
                    WireField { id: 3, kind: 1u8, data: encode_utf8(text_of(b, "date"@)->0) },
                    WireField { id: 4, kind: 2u8, data: seq![u64_of(b, "amount"@)->0 as u8] },
                ],
            ),
        ),
        !(u64_of(b, "amount"@) matches Some(a) && a <= 255) ==> room_avl_request(cmd, b) == Err::<
            Seq<u8>,
            Seq<char>,
        >("amount is required and must be 0-255"@),
{
    lemma_room_day_fields(b);
    let fs = text_fields(b, room_day_keys())->Ok_0;
    if u64_of(b, "amount"@) is Some && u64_of(b, "amount"@)->0 <= 255 {
        let a = u64_of(b, "amount"@)->0;
        assert(byte_of(b, "amount"@) == Some(a as u8));
        assert(fs.push(byte_field(4, a as u8)) =~= seq![
            WireField { id: 1, kind: 1u8, data: encode_utf8(text_of(b, "property_id"@)->0) },
            WireField { id: 2, kind: 1u8, data: encode_utf8(text_of(b, "room_type"@)->0) },
            WireField { id: 3, kind: 1u8, data: encode_utf8(text_of(b, "date"@)->0) },
            WireField { id: 4, kind: 2u8, data: seq![a as u8] },
        ]);
    }
}

/// A SEARCHAVAIL request with a segment and a room type is encoded, and
/// every filter that is given is sent under its own id: segment 1, room
/// type 2, area 3, property id 4, type 5, stars (0 to 255) 6, category 7,
/// amenities 8, longitude 9, latitude 10, dates 11, availability (0 to 255)
/// 12, final price (modulo 2^32) 13, rate features 14, limit 15.
#[verifier::rlimit(60)]
#[verifier::spinoff_prover]
pub proof fn law_search_avail_sends_filters(b: JsonValue)
    requires
        nonempty_text_of(b, "segment"@) is Some,
        nonempty_text_of(b, "room_type"@) is Some,
    ensures
        search_avail_request(b) matches Ok(p) && exists|fs: Seq<WireField>|
            #![trigger request_bytes("SEARCHAVAIL".spec_bytes(), fs)]
            {
                &&& p == request_bytes("SEARCHAVAIL".spec_bytes(), fs)
                &&& holds_field(fs, 1, 1u8, encode_utf8(text_of(b, "segment"@)->0))
                &&& holds_field(fs, 2, 1u8, encode_utf8(text_of(b, "room_type"@)->0))
                &&& (text_of(b, "area"@) matches Some(s) ==> holds_field(fs, 3, 1u8, encode_utf8(s)))
                &&& (text_of(b, "property_id"@) matches Some(s) ==> holds_field(fs, 4, 1u8, encode_utf8(s)))
                &&& (text_of(b, "type"@) matches Some(s) ==> holds_field(fs, 5, 1u8, encode_utf8(s)))
                &&& (u64_of(b, "stars"@) matches Some(v) ==> (v <= 255 ==> holds_field(fs, 6, 2u8, seq![v as u8])))
                &&& (text_of(b, "category"@) matches Some(s) ==> holds_field(fs, 7, 1u8, encode_utf8(s)))
                &&& (joined_list_of(b, "amenities"@) matches Some(s) ==> holds_field(fs, 8, 1u8, encode_utf8(s)))
                &&& (bits_of(b, "longitude"@) matches Some(x) ==> holds_field(fs, 9, 3u8, u64_le(x as int)))
                &&& (bits_of(b, "latitude"@) matches Some(x) ==> holds_field(fs, 10, 3u8, u64_le(x as int)))
                &&& (joined_list_of(b, "date"@) matches Some(s) ==> holds_field(fs, 11, 1u8, encode_utf8(s)))
                &&& (u64_of(b, "availability"@) matches Some(v) ==> (v <= 255 ==> holds_field(fs, 12, 2u8, seq![v as u8])))
                &&& (u64_of(b, "final_price"@) matches Some(v) ==> holds_field(fs, 13, 3u8, u32_le((v as u32) as int)))
                &&& (joined_list_of(b, "rate_features"@) matches Some(s) ==> holds_field(fs, 14, 1u8, encode_utf8(s)))
                &&& (u64_of(b, "limit"@) matches Some(v) ==> holds_field(fs, 15, 3u8, u64_le(v as int)))
            },
{
    broadcast use vstd::seq_lib::lemma_seq_contains_after_push;

    let keys = seq!["segment"@, "room_type"@];
    assert(keys.drop_last() =~= seq!["segment"@]);
    assert(keys.drop_last().drop_last() =~= Seq::<Seq<char>>::empty());
    assert(text_fields(b, keys.drop_last().drop_last()) == Ok::<Seq<WireField>, Seq<char>>(Seq::empty()));
    assert(keys.drop_last().last() == "segment"@);
    let g1 = text_fields(b, keys.drop_last())->Ok_0;
    assert(g1 == Seq::<WireField>::empty().push(text_field(1, text_of(b, "segment"@)->0)));
    assert(keys.last() == "room_type"@);
    assert(text_fields(b, keys) == Ok::<Seq<WireField>, Seq<char>>(
        g1.push(text_field(2, text_of(b, "room_type"@)->0)),
    ));
    let f2 = text_fields(b, keys)->Ok_0;
    assert(f2.contains(text_field(1, text_of(b, "segment"@)->0))) by {
        assert(f2[0] == text_field(1, text_of(b, "segment"@)->0));
    }
    let f3 = push_if(f2, text_of(b, "area"@), |s: Seq<char>| text_field(3, s));
    lemma_push_if_holds(f2, text_of(b, "area"@), |s: Seq<char>| text_field(3, s));
    let f4 = push_if(f3, text_of(b, "property_id"@), |s: Seq<char>| text_field(4, s));
    lemma_push_if_holds(f3, text_of(b, "property_id"@), |s: Seq<char>| text_field(4, s));
    let f5 = push_if(f4, text_of(b, "type"@), |s: Seq<char>| text_field(5, s));
    lemma_push_if_holds(f4, text_of(b, "type"@), |s: Seq<char>| text_field(5, s));
    let f6 = push_if(f5, byte_of(b, "stars"@), |v: u8| byte_field(6, v));
    lemma_push_if_holds(f5, byte_of(b, "stars"@), |v: u8| byte_field(6, v));
    let f7 = push_if(f6, text_of(b, "category"@), |s: Seq<char>| text_field(7, s));
    lemma_push_if_holds(f6, text_of(b, "category"@), |s: Seq<char>| text_field(7, s));
    let f8 = push_if(f7, joined_list_of(b, "amenities"@), |s: Seq<char>| text_field(8, s));
    lemma_push_if_holds(f7, joined_list_of(b, "amenities"@), |s: Seq<char>| text_field(8, s));
    let f9 = push_if(f8, bits_of(b, "longitude"@), |x: u64| u64_field(9, x));
    lemma_push_if_holds(f8, bits_of(b, "longitude"@), |x: u64| u64_field(9, x));
    let f10 = push_if(f9, bits_of(b, "latitude"@), |x: u64| u64_field(10, x));
    lemma_push_if_holds(f9, bits_of(b, "latitude"@), |x: u64| u64_field(10, x));
    let f11 = push_if(f10, joined_list_of(b, "date"@), |s: Seq<char>| text_field(11, s));
    lemma_push_if_holds(f10, joined_list_of(b, "date"@), |s: Seq<char>| text_field(11, s));
    let f12 = push_if(f11, byte_of(b, "availability"@), |v: u8| byte_field(12, v));
    lemma_push_if_holds(f11, byte_of(b, "availability"@), |v: u8| byte_field(12, v));
    let f13 = push_if(f12, u64_of(b, "final_price"@), |v: u64| u32_field(13, v as u32));
    lemma_push_if_holds(f12, u64_of(b, "final_price"@), |v: u64| u32_field(13, v as u32));
    let f14 = push_if(f13, joined_list_of(b, "rate_features"@), |s: Seq<char>| text_field(14, s));
    lemma_push_if_holds(f13, joined_list_of(b, "rate_features"@), |s: Seq<char>| text_field(14, s));
    let f15 = push_if(f14, u64_of(b, "limit"@), |x: u64| u64_field(15, x));
    lemma_push_if_holds(f14, u64_of(b, "limit"@), |x: u64| u64_field(15, x));
    assert(search_avail_request(b) == Ok::<Seq<u8>, Seq<char>>(request_bytes("SEARCHAVAIL".spec_bytes(), f15)));
}

} // verus!

verus! {

/// A SETPROP request that passes validation sends every value under its
/// own id: segment 1, area 2, property id 3, property type 4, category 5,
/// stars 6 (a byte), latitude 7 and longitude 8 (their double bits) and the
/// comma-joined amenities 9.
pub proof fn law_set_prop_sends_values(b: JsonValue)
    requires
        set_prop_request(b) is Ok,
    ensures
        exists|fs: Seq<WireField>|
            #![trigger request_bytes("SETPROP".spec_bytes(), fs)]
            {
                &&& set_prop_request(b) == Ok::<Seq<u8>, Seq<char>>(request_bytes("SETPROP".spec_bytes(), fs))
                &&& holds_field(fs, 1, 1u8, encode_utf8(text_of(b, "segment"@)->0))
                &&& holds_field(fs, 2, 1u8, encode_utf8(text_of(b, "area"@)->0))
                &&& holds_field(fs, 3, 1u8, encode_utf8(text_of(b, "property_id"@)->0))
                &&& holds_field(fs, 4, 1u8, encode_utf8(text_of(b, "property_type"@)->0))
                &&& holds_field(fs, 5, 1u8, encode_utf8(text_of(b, "category"@)->0))
                &&& 1 <= u64_of(b, "stars"@)->0 <= 5
                &&& holds_field(fs, 6, 2u8, seq![u64_of(b, "stars"@)->0 as u8])
                &&& holds_field(fs, 7, 3u8, u64_le((bits_of(b, "latitude"@)->0) as int))
                &&& holds_field(fs, 8, 3u8, u64_le((bits_of(b, "longitude"@)->0) as int))
                &&& holds_field(fs, 9, 1u8, encode_utf8(join_commas(list_of(b, "amenities"@))))
            },
{
    let fs = seq![
        text_field(1, text_of(b, "segment"@).unwrap()),
        text_field(2, text_of(b, "area"@).unwrap()),
        text_field(3, text_of(b, "property_id"@).unwrap()),
        text_field(4, text_of(b, "property_type"@).unwrap()),
        text_field(5, text_of(b, "category"@).unwrap()),
        byte_field(6, u64_of(b, "stars"@).unwrap() as u8),
        u64_field(7, bits_of(b, "latitude"@).unwrap()),
        u64_field(8, bits_of(b, "longitude"@).unwrap()),
        text_field(9, join_commas(list_of(b, "amenities"@))),
    ];
    assert(set_prop_request(b) == Ok::<Seq<u8>, Seq<char>>(request_bytes("SETPROP".spec_bytes(), fs)));
    assert(fs.contains(fs[0]) && fs.contains(fs[1]) && fs.contains(fs[2]) && fs.contains(fs[3]));
    assert(fs.contains(fs[4]) && fs.contains(fs[5]) && fs.contains(fs[6]) && fs.contains(fs[7]));
    assert(fs.contains(fs[8]));
}

} // verus!
