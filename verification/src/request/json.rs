//! The parsed JSON request, as the request encoders read it.
//!
//! A number carries what the encoders read of it: its value when it is a
//! non-negative integer, and the bit pattern of its nearest IEEE-754 double.
use vstd::prelude::*;

verus! {

/// A JSON number.
#[derive(Debug)]
pub struct JsonNumber {
    /// The value, when the number is an integer in `0..=u64::MAX`.
    pub unsigned: Option<u64>,
    /// The bits of the number read as a double (`f64::to_bits`).
    pub float_bits: u64,
}

/// One member of a JSON object.
#[derive(Debug)]
pub struct JsonEntry {
    pub key: String,
    pub value: JsonValue,
}

/// A JSON value.
#[derive(Debug)]
pub enum JsonValue {
    Null,
    Bool(bool),
    Number(JsonNumber),
    Str(String),
    Array(Vec<JsonValue>),
    Object(Vec<JsonEntry>),
}

/// The value of the first member named `key`.
pub open spec fn entry_lookup(entries: Seq<JsonEntry>, key: Seq<char>) -> Option<JsonValue>
    decreases entries.len(),
{
    if entries.len() == 0 {
        None
    } else if entries[0].key@ == key {
        Some(entries[0].value)
    } else {
        entry_lookup(entries.drop_first(), key)
    }
}

/// `v[key]`: the member `key` of an object; `None` for anything else.
pub open spec fn json_get(v: JsonValue, key: Seq<char>) -> Option<JsonValue> {
    match v {
        JsonValue::Object(entries) => entry_lookup(entries@, key),
        _ => None,
    }
}

/// The characters of a string value.
pub open spec fn json_str(v: Option<JsonValue>) -> Option<Seq<char>> {
    match v {
        Some(JsonValue::Str(s)) => Some(s@),
        _ => None,
    }
}

/// The value of a non-negative integer.
pub open spec fn json_u64(v: Option<JsonValue>) -> Option<u64> {
    match v {
        Some(JsonValue::Number(n)) => n.unsigned,
        _ => None,
    }
}

/// The double bits of a number.
pub open spec fn json_f64_bits(v: Option<JsonValue>) -> Option<u64> {
    match v {
        Some(JsonValue::Number(n)) => Some(n.float_bits),
        _ => None,
    }
}

/// The items of an array.
pub open spec fn json_array(v: Option<JsonValue>) -> Option<Seq<JsonValue>> {
    match v {
        Some(JsonValue::Array(items)) => Some(items@),
        _ => None,
    }
}

/// The string items of an array, in order, other items skipped.
pub open spec fn string_items(items: Seq<JsonValue>) -> Seq<Seq<char>>
    decreases items.len(),
{
    if items.len() == 0 {
        Seq::empty()
    } else {
        let rest = string_items(items.drop_last());
        match items.last() {
            JsonValue::Str(s) => rest.push(s@),
            _ => rest,
        }
    }
}

/// The items joined with `,` between them.
pub open spec fn join_commas(items: Seq<Seq<char>>) -> Seq<char>
    decreases items.len(),
{
    if items.len() == 0 {
        Seq::empty()
    } else if items.len() == 1 {
        items[0]
    } else {
        join_commas(items.drop_last()) + seq![','] + items.last()
    }
}

/// The first member named `key`, found from position `i` on.
fn lookup_from<'a>(entries: &'a Vec<JsonEntry>, key: &String, i: usize) -> (r: Option<&'a JsonValue>)
    requires
        i <= entries@.len(),
    ensures
        match r {
            Some(x) => entry_lookup(entries@.subrange(i as int, entries@.len() as int), key@) == Some(*x),
            None => entry_lookup(entries@.subrange(i as int, entries@.len() as int), key@) is None,
        },
    decreases entries@.len() - i,
{
    let ghost rest = entries@.subrange(i as int, entries@.len() as int);
    if i == entries.len() {
        None
    } else {
        assert(rest[0] == entries@[i as int]);
        assert(rest.drop_first() =~= entries@.subrange(i + 1, entries@.len() as int));
        if entries[i].key == *key {
            Some(&entries[i].value)
        } else {
            lookup_from(entries, key, i + 1)
        }
    }
}

impl JsonValue {
    /// `self[key]`: the member `key` of an object; `None` for anything else.
    pub fn get(&self, key: &str) -> (r: Option<&JsonValue>)
        ensures
            match r {
                Some(x) => json_get(*self, key@) == Some(*x),
                None => json_get(*self, key@) is None,
            },
    {
        match self {
            JsonValue::Object(entries) => {
                let k = key.to_owned();
                let r = lookup_from(entries, &k, 0);
                assert(entries@.subrange(0, entries@.len() as int) =~= entries@);
                r
            },
            _ => None,
        }
    }

    /// The string, when this is a string.
    pub fn as_str(&self) -> (r: Option<&str>)
        ensures
            match r {
                Some(s) => json_str(Some(*self)) == Some(s@),
                None => json_str(Some(*self)) is None,
            },
    {
        match self {
            JsonValue::Str(s) => Some(s.as_str()),
            _ => None,
        }
    }

    /// The value, when this is a non-negative integer.
    pub fn as_u64(&self) -> (r: Option<u64>)
        ensures
            r == json_u64(Some(*self)),
    {
        match self {
            JsonValue::Number(n) => n.unsigned,
            _ => None,
        }
    }

    /// The double bits, when this is a number.
    pub fn as_f64_bits(&self) -> (r: Option<u64>)
        ensures
            r == json_f64_bits(Some(*self)),
    {
        match self {
            JsonValue::Number(n) => Some(n.float_bits),
            _ => None,
        }
    }

    /// The items, when this is an array.
    pub fn as_array(&self) -> (r: Option<&Vec<JsonValue>>)
        ensures
            match r {
                Some(items) => json_array(Some(*self)) == Some(items@),
                None => json_array(Some(*self)) is None,
            },
    {
        match self {
            JsonValue::Array(items) => Some(items),
            _ => None,
        }
    }

    /// This is an object.
    pub fn is_object(&self) -> (r: bool)
        ensures
            r == (*self is Object),
    {
        match self {
            JsonValue::Object(_) => true,
            _ => false,
        }
    }
}

/// The member `key` of `v`, as a string.
pub fn get_str<'a>(v: &'a JsonValue, key: &str) -> (r: Option<&'a str>)
    ensures
        match r {
            Some(s) => json_str(json_get(*v, key@)) == Some(s@),
            None => json_str(json_get(*v, key@)) is None,
        },
{
    match v.get(key) {
        Some(x) => x.as_str(),
        None => None,
    }
}

/// The member `key` of `v`, as a non-negative integer.
pub fn get_u64(v: &JsonValue, key: &str) -> (r: Option<u64>)
    ensures
        r == json_u64(json_get(*v, key@)),
{
    match v.get(key) {
        Some(x) => x.as_u64(),
        None => None,
    }
}

/// The member `key` of `v`, as double bits.
pub fn get_f64_bits(v: &JsonValue, key: &str) -> (r: Option<u64>)
    ensures
        r == json_f64_bits(json_get(*v, key@)),
{
    match v.get(key) {
        Some(x) => x.as_f64_bits(),
        None => None,
    }
}

/// The string items of the array member `key`, joined with `,`; `None`
/// when the member is not an array.
pub fn get_joined_strings(v: &JsonValue, key: &str) -> (r: Option<(String, usize)>)
    ensures
        match r {
            Some((joined, n)) => json_array(json_get(*v, key@)) matches Some(items)
                && joined@ == join_commas(string_items(items)) && n == string_items(items).len(),
            None => json_array(json_get(*v, key@)) is None,
        },
{
    let items = match v.get(key) {
        Some(x) => match x.as_array() {
            Some(items) => items,
            None => return None,
        },
        None => return None,
    };
    let mut joined = String::new();
    let mut n: usize = 0;
    let mut i: usize = 0;
    while i < items.len()
        invariant
            i <= items@.len(),
            joined@ == join_commas(string_items(items@.subrange(0, i as int))),
            n == string_items(items@.subrange(0, i as int)).len(),
            n <= i,
        decreases items@.len() - i,
    {
        let ghost prev = items@.subrange(0, i as int);
        let ghost next = items@.subrange(0, i + 1);
        assert(next.drop_last() =~= prev);
        assert(next.last() == items@[i as int]);
        match &items[i] {
            JsonValue::Str(s) => {
                if n > 0 {
                    joined.append(",");
                }
                joined.append(s.as_str());
                proof {
                    reveal_strlit(",");
                    let si = string_items(next);
                    assert(si == string_items(prev).push(s@));
                    assert(si.drop_last() =~= string_items(prev));
                    if n > 0 {
                        assert(joined@ =~= join_commas(si));
                    } else {
                        assert(joined@ =~= join_commas(si));
                    }
                }
                n = n + 1;
            },
            _ => {},
        }
        i = i + 1;
    }
    assert(items@.subrange(0, items@.len() as int) =~= items@);
    Some((joined, n))
}

} // verus!
