//! Text conversions: UTF-8 decoding, decimal and UUID rendering.
use vstd::prelude::*;
use vstd::utf8::{decode_utf8, valid_utf8};

use crate::helper::lemma_ascii_text;

verus! {

/// Name for what `String::from_utf8_lossy` makes of a byte sequence.
pub uninterp spec fn utf8_lossy(bytes: Seq<u8>) -> Seq<char>;

/// std's `String::from_utf8_lossy`, turned into an owned `String`.
/// The contract names the result `utf8_lossy` and states what the std
/// documentation promises: valid UTF-8 is decoded unchanged. How invalid
/// sequences are replaced is left unsaid.
#[verifier::external_body]
pub(crate) fn string_from_utf8_lossy(bytes: &[u8]) -> (r: String)
    ensures
        r@ == utf8_lossy(bytes@),
        valid_utf8(bytes@) ==> r@ == decode_utf8(bytes@),
{
    String::from_utf8_lossy(bytes).into_owned()
}

/// std's `String::from_utf8`: succeeds exactly on valid UTF-8, and then
/// holds the decoded characters.
#[verifier::external_body]
pub(crate) fn string_from_utf8(bytes: Vec<u8>) -> (r: Option<String>)
    ensures
        r is Some <==> valid_utf8(bytes@),
        r matches Some(s) ==> s@ == decode_utf8(bytes@),
{
    String::from_utf8(bytes).ok()
}

/// ASCII bytes `48..=57` of the decimal digits of `n`, most significant first.
pub open spec fn decimal(n: nat) -> Seq<u8>
    decreases n,
{
    if n < 10 {
        seq![(48 + n) as u8]
    } else {
        decimal(n / 10).push((48 + n % 10) as u8)
    }
}

/// The decimal rendering of `n`, as ASCII digits.
pub fn decimal_bytes(n: u64) -> (r: Vec<u8>)
    ensures
        r@ == decimal(n as nat),
    decreases n,
{
    if n < 10 {
        let mut v: Vec<u8> = Vec::new();
        v.push(48 + n as u8);
        assert(v@ =~= decimal(n as nat));
        v
    } else {
        let mut v = decimal_bytes(n / 10);
        v.push(48 + (n % 10) as u8);
        v
    }
}

/// The decimal rendering of a `u32`, as bytes (what its `to_string` gives).
pub(crate) fn u32_to_string_bytes(n: u32) -> (r: Vec<u8>)
    ensures
        r@ == decimal(n as nat),
{
    decimal_bytes(n as u64)
}

/// The decimal rendering of a `usize` (what its `to_string` gives).
pub(crate) fn usize_to_string(n: usize) -> (r: String)
    ensures
        r@ == ascii_chars(decimal(n as nat)),
{
    let digits = decimal_bytes(n as u64);
    proof {
        lemma_decimal_ascii(n as nat);
        lemma_ascii_text(digits@);
    }
    match string_from_utf8(digits) {
        Some(s) => s,
        None => String::new(),
    }
}

/// `itoa::Buffer::format` for `u32`, copied out as bytes: the plain decimal
/// rendering.
#[verifier::external_body]
pub(crate) fn itoa_u32(n: u32) -> (r: Vec<u8>)
    ensures
        r@ == decimal(n as nat),
{
    itoa::Buffer::new().format(n).as_bytes().to_vec()
}

/// Lower-case hexadecimal digit for a nibble.
pub open spec fn hex_digit(n: int) -> u8 {
    if n < 10 {
        (48 + n) as u8
    } else {
        (87 + n) as u8
    }
}

/// Two lower-case hexadecimal digits of a byte.
pub open spec fn hex_pair(b: u8) -> Seq<u8> {
    seq![hex_digit(b as int / 16), hex_digit(b as int % 16)]
}

/// Hexadecimal digits of `b[i..j]`.
pub open spec fn hex_run(b: Seq<u8>, i: int, j: int) -> Seq<u8>
    decreases j - i,
{
    if j <= i {
        Seq::empty()
    } else {
        hex_run(b, i, j - 1) + hex_pair(b[j - 1])
    }
}

/// The hyphenated lower-case form `8-4-4-4-12` of 16 UUID bytes.
pub open spec fn uuid_text(b: Seq<u8>) -> Seq<u8> {
    hex_run(b, 0, 4) + seq![45u8] + hex_run(b, 4, 6) + seq![45u8] + hex_run(b, 6, 8) + seq![
        45u8,
    ] + hex_run(b, 8, 10) + seq![45u8] + hex_run(b, 10, 16)
}

/// Characters of an ASCII byte sequence.
pub open spec fn ascii_chars(b: Seq<u8>) -> Seq<char> {
    Seq::new(b.len(), |i: int| b[i] as char)
}

/// uuid's `Uuid::from_bytes(..).to_string()`: the hyphenated lower-case
/// rendering, as its `Display` implementation documents.
#[verifier::external_body]
pub(crate) fn uuid_hyphenated(bytes: [u8; 16]) -> (r: String)
    ensures
        r@ == ascii_chars(uuid_text(bytes@)),
{
    uuid::Uuid::from_bytes(bytes).to_string()
}

/// Characters with the Unicode `White_Space` property, which std's
/// `char::is_whitespace` and `str::trim` use.
pub open spec fn is_white_space(c: char) -> bool {
    ('\u{9}' <= c <= '\u{d}') || c == ' ' || c == '\u{85}' || c == '\u{a0}' || c == '\u{1680}' || (
    '\u{2000}' <= c <= '\u{200a}') || c == '\u{2028}' || c == '\u{2029}' || c == '\u{202f}' || c
        == '\u{205f}' || c == '\u{3000}'
}

/// Drops leading white space.
pub open spec fn trim_start_ws(s: Seq<char>) -> Seq<char>
    decreases s.len(),
{
    if s.len() > 0 && is_white_space(s[0]) {
        trim_start_ws(s.drop_first())
    } else {
        s
    }
}

/// Drops trailing white space.
pub open spec fn trim_end_ws(s: Seq<char>) -> Seq<char>
    decreases s.len(),
{
    if s.len() > 0 && is_white_space(s.last()) {
        trim_end_ws(s.drop_last())
    } else {
        s
    }
}

/// Drops leading and trailing white space.
pub open spec fn trim_ws(s: Seq<char>) -> Seq<char> {
    trim_end_ws(trim_start_ws(s))
}

/// Whether `c` has the Unicode `White_Space` property.
pub fn is_white_space_char(c: char) -> (r: bool)
    ensures
        r == is_white_space(c),
{
    ('\u{9}' <= c && c <= '\u{d}') || c == ' ' || c == '\u{85}' || c == '\u{a0}' || c == '\u{1680}'
        || ('\u{2000}' <= c && c <= '\u{200a}') || c == '\u{2028}' || c == '\u{2029}' || c
        == '\u{202f}' || c == '\u{205f}' || c == '\u{3000}'
}

/// The slice without leading and trailing characters of the Unicode
/// `White_Space` property, as std's `str::trim` gives it.
pub fn str_trim(s: &str) -> (r: &str)
    ensures
        r@ == trim_ws(s@),
{
    let n = s.unicode_len();
    let mut from: usize = 0;
    assert(s@.subrange(0, n as int) =~= s@);
    while from < n && is_white_space_char(s.get_char(from))
        invariant
            from <= n,
            n == s@.len(),
            trim_start_ws(s@.subrange(from as int, n as int)) == trim_start_ws(s@),
        decreases n - from,
    {
        assert(s@.subrange(from as int, n as int).drop_first() =~= s@.subrange(from + 1, n as int));
        from = from + 1;
    }
    let ghost t = s@.subrange(from as int, n as int);
    assert(trim_start_ws(t) == t);
    let mut end: usize = n;
    assert(s@.subrange(from as int, end as int) =~= t);
    while end > from && is_white_space_char(s.get_char(end - 1))
        invariant
            from <= end <= n,
            n == s@.len(),
            trim_end_ws(s@.subrange(from as int, end as int)) == trim_end_ws(t),
        decreases end,
    {
        assert(s@.subrange(from as int, end as int).drop_last() =~= s@.subrange(from as int, end - 1));
        end = end - 1;
    }
    s.substring_char(from, end)
}

/// The decimal rendering holds ASCII digits only.
pub proof fn lemma_decimal_ascii(n: nat)
    ensures
        forall|k: int| 0 <= k < decimal(n).len() ==> 48 <= #[trigger] decimal(n)[k] <= 57,
    decreases n,
{
    if n >= 10 {
        lemma_decimal_ascii(n / 10);
        assert forall|k: int| 0 <= k < decimal(n).len() implies 48 <= #[trigger] decimal(n)[k] <= 57 by {
            if k < decimal(n / 10).len() {
                assert(decimal(n)[k] == decimal(n / 10)[k]);
            }
        }
    }
}

/// Equality of two strings.
pub fn same_text(a: &str, b: &str) -> (r: bool)
    ensures
        r == (a@ == b@),
{
    let x = a.to_owned();
    let y = b.to_owned();
    x == y
}

} // verus!
