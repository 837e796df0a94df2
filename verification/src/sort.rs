//! Byte-wise lexicographic order and a verified insertion sort over byte
//! strings (`YYYY-MM-DD` dates sort chronologically under it).
use vstd::prelude::*;
use vstd::relations::{sorted_by, total_ordering};

verus! {

/// `a` is lexicographically at most `b`, byte by byte.
pub open spec fn lex_le(a: Seq<u8>, b: Seq<u8>) -> bool
    decreases a.len(),
{
    if a.len() == 0 {
        true
    } else if b.len() == 0 {
        false
    } else if a[0] < b[0] {
        true
    } else if a[0] > b[0] {
        false
    } else {
        lex_le(a.drop_first(), b.drop_first())
    }
}

/// The lexicographic order as a relation.
pub open spec fn lex_order() -> spec_fn(Seq<u8>, Seq<u8>) -> bool {
    |a: Seq<u8>, b: Seq<u8>| lex_le(a, b)
}

proof fn lemma_lex_reflexive(a: Seq<u8>)
    ensures
        lex_le(a, a),
    decreases a.len(),
{
    if a.len() > 0 {
        lemma_lex_reflexive(a.drop_first());
    }
}

proof fn lemma_lex_antisymmetric(a: Seq<u8>, b: Seq<u8>)
    requires
        lex_le(a, b),
        lex_le(b, a),
    ensures
        a == b,
    decreases a.len(),
{
    if a.len() == 0 {
        assert(b.len() == 0);
        assert(a =~= b);
    } else {
        lemma_lex_antisymmetric(a.drop_first(), b.drop_first());
        assert(a =~= seq![a[0]] + a.drop_first());
        assert(b =~= seq![b[0]] + b.drop_first());
    }
}

proof fn lemma_lex_transitive(a: Seq<u8>, b: Seq<u8>, c: Seq<u8>)
    requires
        lex_le(a, b),
        lex_le(b, c),
    ensures
        lex_le(a, c),
    decreases a.len(),
{
    if a.len() > 0 && b.len() > 0 && c.len() > 0 && a[0] == b[0] && b[0] == c[0] {
        lemma_lex_transitive(a.drop_first(), b.drop_first(), c.drop_first());
    }
}

proof fn lemma_lex_total(a: Seq<u8>, b: Seq<u8>)
    ensures
        lex_le(a, b) || lex_le(b, a),
    decreases a.len(),
{
    if a.len() > 0 && b.len() > 0 && a[0] == b[0] {
        lemma_lex_total(a.drop_first(), b.drop_first());
    }
}

/// Byte-wise lexicographic order is a total order.
pub proof fn lemma_lex_total_ordering()
    ensures
        total_ordering(lex_order()),
{
    let r = lex_order();
    assert forall|x: Seq<u8>| #[trigger] r(x, x) by {
        lemma_lex_reflexive(x);
    }
    assert forall|x: Seq<u8>, y: Seq<u8>| #[trigger] r(x, y) && #[trigger] r(y, x) implies x == y by {
        lemma_lex_antisymmetric(x, y);
    }
    assert forall|x: Seq<u8>, y: Seq<u8>, z: Seq<u8>| #[trigger] r(x, y) && #[trigger] r(y, z) implies r(
        x,
        z,
    ) by {
        lemma_lex_transitive(x, y, z);
    }
    assert forall|x: Seq<u8>, y: Seq<u8>| #[trigger] r(x, y) || #[trigger] r(y, x) by {
        lemma_lex_total(x, y);
    }
}

proof fn lemma_lex_common_prefix(a: Seq<u8>, b: Seq<u8>, i: int)
    requires
        0 <= i <= a.len(),
        i <= b.len(),
        a.subrange(0, i) == b.subrange(0, i),
    ensures
        lex_le(a, b) == lex_le(a.subrange(i, a.len() as int), b.subrange(i, b.len() as int)),
    decreases i,
{
    if i > 0 {
        assert(a[0] == a.subrange(0, i)[0]);
        assert(b[0] == b.subrange(0, i)[0]);
        assert(a.drop_first().subrange(0, i - 1) =~= a.subrange(0, i).drop_first());
        assert(b.drop_first().subrange(0, i - 1) =~= b.subrange(0, i).drop_first());
        lemma_lex_common_prefix(a.drop_first(), b.drop_first(), i - 1);
        assert(a.drop_first().subrange(i - 1, a.len() - 1) =~= a.subrange(i, a.len() as int));
        assert(b.drop_first().subrange(i - 1, b.len() - 1) =~= b.subrange(i, b.len() as int));
    } else {
        assert(a.subrange(0, a.len() as int) =~= a);
        assert(b.subrange(0, b.len() as int) =~= b);
    }
}

/// Lexicographic comparison of two byte strings.
pub fn bytes_le(a: &[u8], b: &[u8]) -> (r: bool)
    ensures
        r == lex_le(a@, b@),
{
    let mut i: usize = 0;
    while i < a.len() && i < b.len() && a[i] == b[i]
        invariant
            i <= a@.len(),
            i <= b@.len(),
            a@.subrange(0, i as int) == b@.subrange(0, i as int),
        decreases a@.len() - i,
    {
        i = i + 1;
        assert(a@.subrange(0, i as int) =~= a@.subrange(0, i - 1).push(a@[i - 1]));
        assert(b@.subrange(0, i as int) =~= b@.subrange(0, i - 1).push(b@[i - 1]));
    }
    proof {
        lemma_lex_common_prefix(a@, b@, i as int);
        let ra = a@.subrange(i as int, a@.len() as int);
        let rb = b@.subrange(i as int, b@.len() as int);
        if ra.len() > 0 && rb.len() > 0 {
            assert(ra[0] == a@[i as int]);
            assert(rb[0] == b@[i as int]);
        }
    }
    if i == a.len() {
        true
    } else if i == b.len() {
        false
    } else {
        a[i] < b[i]
    }
}

proof fn lemma_insert_multiset(s: Seq<Seq<u8>>, k: int, x: Seq<u8>)
    requires
        0 <= k <= s.len(),
    ensures
        s.insert(k, x).to_multiset() == s.to_multiset().insert(x),
{
    broadcast use vstd::seq_lib::group_to_multiset_ensures;
    broadcast use vstd::multiset::group_multiset_axioms;

    let t = s.insert(k, x);
    assert(t.remove(k) =~= s);
    assert(t.remove(k).to_multiset() == t.to_multiset().remove(t[k]));
    assert(t.to_multiset().count(x) > 0) by {
        assert(t.contains(x)) by {
            assert(t[k] == x);
        }
    }
    assert(t.to_multiset() =~= t.to_multiset().remove(x).insert(x));
}

/// Sorts byte strings into lexicographic order.
pub fn sort_lex(items: Vec<Vec<u8>>) -> (r: Vec<Vec<u8>>)
    ensures
        r.deep_view() == items.deep_view().sort_by(lex_order()),
{
    let ghost input = items.deep_view();
    let mut out: Vec<Vec<u8>> = Vec::new();
    let mut i: usize = 0;
    let n = items.len();
    assert(out.deep_view() =~= input.subrange(0, 0));
    while i < n
        invariant
            n == items@.len(),
            input == items.deep_view(),
            i <= n,
            sorted_by(out.deep_view(), lex_order()),
            out.deep_view().to_multiset() == input.subrange(0, i as int).to_multiset(),
        decreases n - i,
    {
        let x = items[i].clone();
        assert(x@ == input[i as int]);
        let mut k: usize = 0;
        while k < out.len() && bytes_le(out[k].as_slice(), x.as_slice())
            invariant
                k <= out@.len(),
                forall|j: int| 0 <= j < k ==> lex_le(#[trigger] out.deep_view()[j], x@),
            decreases out@.len() - k,
        {
            assert(out.deep_view()[k as int] == out@[k as int]@);
            k = k + 1;
        }
        let ghost before = out.deep_view();
        proof {
            lemma_lex_total_ordering();
            if k < out@.len() {
                assert(before[k as int] == out@[k as int]@);
                lemma_lex_total(before[k as int], x@);
            }
        }
        out.insert(k, x);
        let ghost now = out.deep_view();
        assert(now =~= before.insert(k as int, x@));
        proof {
            lemma_insert_multiset(before, k as int, x@);
            assert(input.subrange(0, i + 1) =~= input.subrange(0, i as int).push(input[i as int]));
            vstd::seq_lib::to_multiset_build(input.subrange(0, i as int), input[i as int]);
            assert forall|a: int, b: int| 0 <= a < b < now.len() implies #[trigger] lex_order()(
                now[a],
                now[b],
            ) by {
                if a < k && b < k {
                    assert(now[a] == before[a] && now[b] == before[b]);
                } else if a < k && b == k {
                    assert(now[a] == before[a]);
                } else if a < k {
                    assert(now[a] == before[a] && now[b] == before[b - 1]);
                    lemma_lex_transitive(before[a], x@, before[k as int]);
                    if b - 1 > k {
                        assert(lex_order()(before[k as int], before[b - 1]));
                        lemma_lex_transitive(before[a], before[k as int], before[b - 1]);
                    }
                } else if a == k {
                    assert(now[b] == before[b - 1]);
                    if b - 1 > k {
                        assert(lex_order()(before[k as int], before[b - 1]));
                        lemma_lex_transitive(x@, before[k as int], before[b - 1]);
                    }
                } else {
                    assert(now[a] == before[a - 1] && now[b] == before[b - 1]);
                }
            }
        }
        i = i + 1;
    }
    proof {
        assert(input.subrange(0, n as int) =~= input);
        lemma_lex_total_ordering();
        input.lemma_sort_by_ensures(lex_order());
        vstd::seq_lib::lemma_sorted_unique(out.deep_view(), input.sort_by(lex_order()), lex_order());
    }
    out
}

} // verus!
