//! The field list of a response payload, as the decoders read it.
use crate::wire::{get_u16_le, get_u32_le, read_u16, read_u32};
use vstd::prelude::*;

verus! {

/// One field of a payload: id, type and data.
pub struct WireField {
    pub id: int,
    pub kind: u8,
    pub data: Seq<u8>,
}

/// The field whose header starts at `off`, provided its data lies within `d`.
pub open spec fn field_at(d: Seq<u8>, off: int) -> WireField {
    WireField {
        id: read_u16(d, off),
        kind: d[off + 2],
        data: d.subrange(off + 7, off + 7 + read_u32(d, off + 3)),
    }
}

/// Offset just past the field whose header starts at `off`.
pub open spec fn field_end(d: Seq<u8>, off: int) -> int {
    off + 7 + read_u32(d, off + 3)
}

/// The data of the field at `off` lies within `d`.
pub open spec fn field_fits(d: Seq<u8>, off: int) -> bool {
    off + 7 <= d.len() && field_end(d, off) <= d.len()
}

/// The fields from `off` up to the point where fewer than 7 bytes remain;
/// `None` when a field's data runs past the end.
pub open spec fn read_fields(d: Seq<u8>, off: int) -> Option<Seq<WireField>>
    decreases d.len() - off,
{
    if off < 0 || off + 7 > d.len() {
        Some(Seq::empty())
    } else if field_end(d, off) > d.len() {
        None
    } else {
        match read_fields(d, field_end(d, off)) {
            Some(rest) => Some(seq![field_at(d, off)] + rest),
            None => None,
        }
    }
}

/// Exactly `n` fields from `off`, with the offset just past them; `None`
/// when a header or data runs past the end.
pub open spec fn read_n_fields(d: Seq<u8>, off: int, n: nat) -> Option<(Seq<WireField>, int)>
    decreases n,
{
    if n == 0 {
        Some((Seq::empty(), off))
    } else if off < 0 || !field_fits(d, off) {
        None
    } else {
        match read_n_fields(d, field_end(d, off), (n - 1) as nat) {
            Some((rest, end)) => Some((seq![field_at(d, off)] + rest, end)),
            None => None,
        }
    }
}

/// `done` followed by the fields read from `off`.
pub open spec fn after(done: Seq<WireField>, rest: Option<Seq<WireField>>) -> Option<Seq<WireField>> {
    match rest {
        Some(r) => Some(done + r),
        None => None,
    }
}

/// Header of the field at `off`: id, type and data length, or `None` when
/// fewer than 7 bytes remain.
pub fn field_header(d: &[u8], off: usize) -> (r: Option<(u16, u8, usize)>)
    requires
        off <= d@.len(),
    ensures
        r is Some <==> off + 7 <= d@.len(),
        r matches Some(h) ==> h.0 as int == read_u16(d@, off as int) && h.1 == d@[off + 2]
            && h.2 as int == read_u32(d@, off + 3),
{
    if d.len() - off < 7 {
        return None;
    }
    let id = get_u16_le(d, off);
    let kind = d[off + 2];
    let len = get_u32_le(d, off + 3) as usize;
    Some((id, kind, len))
}

/// Reading one more field from `off` extends the list read so far.
pub proof fn lemma_read_fields_step(d: Seq<u8>, off: int, done: Seq<WireField>)
    requires
        0 <= off,
        off + 7 <= d.len(),
    ensures
        field_end(d, off) > d.len() ==> after(done, read_fields(d, off)) is None,
        field_end(d, off) <= d.len() ==> after(done, read_fields(d, off)) == after(
            done.push(field_at(d, off)),
            read_fields(d, field_end(d, off)),
        ),
{
    if field_end(d, off) <= d.len() {
        match read_fields(d, field_end(d, off)) {
            Some(rest) => {
                assert(done + (seq![field_at(d, off)] + rest) =~= done.push(field_at(d, off)) + rest);
            },
            None => {},
        }
    }
}

/// Once fewer than 7 bytes remain, nothing more is read.
pub proof fn lemma_read_fields_end(d: Seq<u8>, off: int, done: Seq<WireField>)
    requires
        0 <= off,
        off + 7 > d.len(),
    ensures
        after(done, read_fields(d, off)) == Some(done),
{
    assert(done + Seq::<WireField>::empty() =~= done);
}

/// `done` followed by the fields read from an offset, with the end offset.
pub open spec fn after_n(done: Seq<WireField>, rest: Option<(Seq<WireField>, int)>) -> Option<(Seq<WireField>, int)> {
    match rest {
        Some((r, e)) => Some((done + r, e)),
        None => None,
    }
}

/// Reading one of the `n` remaining fields from `off`.
pub proof fn lemma_read_n_fields_step(d: Seq<u8>, off: int, n: nat, done: Seq<WireField>)
    requires
        0 <= off,
        n > 0,
    ensures
        !field_fits(d, off) ==> after_n(done, read_n_fields(d, off, n)) is None,
        field_fits(d, off) ==> after_n(done, read_n_fields(d, off, n)) == after_n(
            done.push(field_at(d, off)),
            read_n_fields(d, field_end(d, off), (n - 1) as nat),
        ),
{
    if field_fits(d, off) {
        match read_n_fields(d, field_end(d, off), (n - 1) as nat) {
            Some((rest, e)) => {
                assert(done + (seq![field_at(d, off)] + rest) =~= done.push(field_at(d, off)) + rest);
            },
            None => {},
        }
    }
}

/// No field remains to be read.
pub proof fn lemma_read_n_fields_done(d: Seq<u8>, off: int, done: Seq<WireField>)
    ensures
        after_n(done, read_n_fields(d, off, 0)) == Some((done, off)),
{
    assert(done + Seq::<WireField>::empty() =~= done);
}

/// Where a field's data lies in the payload.
pub struct FieldSpan {
    pub id: u16,
    pub kind: u8,
    pub start: usize,
    pub end: usize,
}

/// The span describes the field `w` of payload `d`.
pub open spec fn span_matches(d: Seq<u8>, s: FieldSpan, w: WireField) -> bool {
    &&& s.id as int == w.id
    &&& s.kind == w.kind
    &&& s.start <= s.end <= d.len()
    &&& d.subrange(s.start as int, s.end as int) == w.data
}

/// Reads exactly `n` fields from `off`: their spans and the offset past
/// them, or `None` when a header or data runs past the end.
pub fn collect_fields(d: &[u8], off: usize, n: usize) -> (r: Option<(Vec<FieldSpan>, usize)>)
    requires
        off <= d@.len(),
    ensures
        r is Some <==> read_n_fields(d@, off as int, n as nat) is Some,
        r matches Some((spans, end)) ==> {
            let (f, e) = read_n_fields(d@, off as int, n as nat).unwrap();
            &&& spans@.len() == f.len() == n
            &&& end as int == e
            &&& forall|j: int| 0 <= j < n ==> span_matches(d@, #[trigger] spans@[j], f[j])
        },
{
    let mut spans: Vec<FieldSpan> = Vec::new();
    let mut offset = off;
    let mut k: usize = 0;
    let ghost mut done: Seq<WireField> = Seq::empty();
    let ghost all = read_n_fields(d@, off as int, n as nat);
    while k < n
        invariant
            off <= offset <= d@.len(),
            k <= n,
            all == read_n_fields(d@, off as int, n as nat),
            after_n(done, read_n_fields(d@, offset as int, (n - k) as nat)) == all,
            done.len() == k,
            spans@.len() == k,
            forall|j: int| 0 <= j < k ==> span_matches(d@, #[trigger] spans@[j], done[j]),
        decreases n - k,
    {
        proof {
            lemma_read_n_fields_step(d@, offset as int, (n - k) as nat, done);
        }
        let (id, kind, len) = match field_header(d, offset) {
            Some(h) => h,
            None => return None,
        };
        if len > d.len() - (offset + 7) {
            return None;
        }
        let ghost w = field_at(d@, offset as int);
        let span = FieldSpan { id, kind, start: offset + 7, end: offset + 7 + len };
        offset = offset + 7 + len;
        spans.push(span);
        proof {
            done = done.push(w);
        }
        k = k + 1;
    }
    proof {
        lemma_read_n_fields_done(d@, offset as int, done);
    }
    Some((spans, offset))
}

} // verus!
