//! Requests waiting for their answer, by correlation id.
use vstd::prelude::*;

verus! {

/// A request waiting for its answer: who waits, and when it was sent (in
/// nanoseconds on a monotonic clock).
#[derive(Debug)]
pub struct PendingEntry<W> {
    pub corr_id: u32,
    pub waiter: W,
    pub sent_at: u64,
}

/// The waiting requests; each correlation id is held once.
#[derive(Debug)]
pub struct DemuxMap<W> {
    entries: Vec<PendingEntry<W>>,
}

/// Some entry of `s` has correlation id `k`.
pub open spec fn has_id<W>(s: Seq<PendingEntry<W>>, k: u32) -> bool {
    exists|i: int| 0 <= i < s.len() && #[trigger] s[i].corr_id == k
}

/// The waiter and send time of the entry with id `k`.
pub open spec fn entry_of<W>(s: Seq<PendingEntry<W>>, k: u32) -> (W, u64) {
    let i = choose|i: int| 0 <= i < s.len() && #[trigger] s[i].corr_id == k;
    (s[i].waiter, s[i].sent_at)
}

/// The entries as a map from correlation id to waiter and send time.
pub open spec fn entries_map<W>(s: Seq<PendingEntry<W>>) -> Map<u32, (W, u64)> {
    Map::new(|k: u32| has_id(s, k), |k: u32| entry_of(s, k))
}

/// No correlation id is held twice.
pub open spec fn distinct_ids<W>(s: Seq<PendingEntry<W>>) -> bool {
    forall|i: int, j: int| 0 <= i < j < s.len() ==> #[trigger] s[i].corr_id != #[trigger] s[j].corr_id
}

/// The entry with id `k` is the one at position `i`.
proof fn lemma_entry_at<W>(s: Seq<PendingEntry<W>>, i: int)
    requires
        distinct_ids(s),
        0 <= i < s.len(),
    ensures
        has_id(s, s[i].corr_id),
        entry_of(s, s[i].corr_id) == (s[i].waiter, s[i].sent_at),
{
    let k = s[i].corr_id;
    assert(has_id(s, k));
    let j = choose|j: int| 0 <= j < s.len() && #[trigger] s[j].corr_id == k;
    if j < i {
        assert(s[j].corr_id != s[i].corr_id);
    } else if i < j {
        assert(s[i].corr_id != s[j].corr_id);
    }
}

/// Sent more than `max_age` nanoseconds before `now`.
pub open spec fn expired(sent_at: u64, now: u64, max_age: u64) -> bool {
    sent_at + max_age < now
}

impl<W> View for DemuxMap<W> {
    type V = Map<u32, (W, u64)>;

    closed spec fn view(&self) -> Map<u32, (W, u64)> {
        entries_map(self.entries@)
    }
}

impl<W> DemuxMap<W> {
    /// Each correlation id is held once.
    pub closed spec fn wf(&self) -> bool {
        distinct_ids(self.entries@)
    }

    /// An empty map.
    pub fn new() -> (r: DemuxMap<W>)
        ensures
            r.wf(),
            r@ == Map::<u32, (W, u64)>::empty(),
    {
        let r = DemuxMap { entries: Vec::new() };
        assert(r@ =~= Map::<u32, (W, u64)>::empty());
        r
    }

    /// The position of the entry with id `corr_id`.
    fn position(&self, corr_id: u32) -> (r: Option<usize>)
        ensures
            match r {
                Some(i) => i < self.entries@.len() && self.entries@[i as int].corr_id == corr_id,
                None => !has_id(self.entries@, corr_id),
            },
    {
        let mut i: usize = 0;
        while i < self.entries.len()
            invariant
                i <= self.entries@.len(),
                forall|j: int| 0 <= j < i ==> self.entries@[j].corr_id != corr_id,
            decreases self.entries@.len() - i,
        {
            if self.entries[i].corr_id == corr_id {
                return Some(i);
            }
            i = i + 1;
        }
        None
    }

    /// Removes the entry at position `i`.
    fn remove_at(&mut self, i: usize) -> (r: PendingEntry<W>)
        requires
            old(self).wf(),
            i < old(self).entries@.len(),
        ensures
            final(self).wf(),
            final(self).entries@ == old(self).entries@.remove(i as int),
            r == old(self).entries@[i as int],
            old(self)@.contains_key(r.corr_id),
            old(self)@[r.corr_id] == (r.waiter, r.sent_at),
            final(self)@ == old(self)@.remove(r.corr_id),
    {
        let ghost s = self.entries@;
        proof {
            lemma_entry_at(s, i as int);
        }
        let e = self.entries.remove(i);
        let ghost t = self.entries@;
        assert(t =~= s.remove(i as int));
        assert forall|a: int, b: int| 0 <= a < b < t.len() implies #[trigger] t[a].corr_id != #[trigger] t[b].corr_id by {
            let a2 = if a < i { a } else { a + 1 };
            let b2 = if b < i { b } else { b + 1 };
            assert(t[a] == s[a2] && t[b] == s[b2]);
        }
        assert forall|k: u32| #[trigger] entries_map(t).contains_key(k) == entries_map(s).remove(e.corr_id).contains_key(k) by {
            if has_id(t, k) {
                let j = choose|j: int| 0 <= j < t.len() && #[trigger] t[j].corr_id == k;
                let j2 = if j < i { j } else { j + 1 };
                assert(s[j2].corr_id == k);
            }
            if has_id(s, k) && k != e.corr_id {
                let j = choose|j: int| 0 <= j < s.len() && #[trigger] s[j].corr_id == k;
                assert(j != i);
                let j2 = if j < i { j } else { j - 1 };
                assert(t[j2].corr_id == k);
            }
        }
        assert forall|k: u32| #[trigger] entries_map(t).contains_key(k) implies entries_map(t)[k] == entries_map(s)[k] by {
            let j = choose|j: int| 0 <= j < t.len() && #[trigger] t[j].corr_id == k;
            let j2 = if j < i { j } else { j + 1 };
            lemma_entry_at(t, j);
            lemma_entry_at(s, j2);
        }
        assert(entries_map(t) =~= entries_map(s).remove(e.corr_id));
        e
    }

    /// Registers a waiter under `corr_id`, replacing any earlier one.
    pub fn store(&mut self, corr_id: u32, waiter: W, sent_at: u64)
        requires
            old(self).wf(),
        ensures
            final(self).wf(),
            final(self)@ == old(self)@.insert(corr_id, (waiter, sent_at)),
    {
        let ghost before = self@;
        if let Some(i) = self.position(corr_id) {
            let _ = self.remove_at(i);
        }
        let ghost mid = self@;
        assert(mid == before.remove(corr_id));
        let ghost s = self.entries@;
        assert(!has_id(s, corr_id)) by {
            if has_id(s, corr_id) {
                assert(entries_map(s).contains_key(corr_id));
            }
        }
        let e = PendingEntry { corr_id, waiter, sent_at };
        self.entries.push(e);
        let ghost t = self.entries@;
        assert forall|a: int, b: int| 0 <= a < b < t.len() implies #[trigger] t[a].corr_id != #[trigger] t[b].corr_id by {
            if b == s.len() {
                assert(t[a] == s[a]);
                assert(has_id(s, t[a].corr_id));
            } else {
                assert(t[a] == s[a] && t[b] == s[b]);
            }
        }
        assert forall|k: u32| #[trigger] entries_map(t).contains_key(k) == mid.insert(corr_id, (waiter, sent_at)).contains_key(k) by {
            if has_id(s, k) {
                let j = choose|j: int| 0 <= j < s.len() && #[trigger] s[j].corr_id == k;
                assert(t[j].corr_id == k);
            }
            if has_id(t, k) && k != corr_id {
                let j = choose|j: int| 0 <= j < t.len() && #[trigger] t[j].corr_id == k;
                assert(j < s.len());
                assert(s[j].corr_id == k);
            }
            if k == corr_id {
                assert(t[s.len() as int].corr_id == k);
            }
        }
        assert forall|k: u32| #[trigger] entries_map(t).contains_key(k) implies entries_map(t)[k]
            == mid.insert(corr_id, (waiter, sent_at))[k] by {
            let j = choose|j: int| 0 <= j < t.len() && #[trigger] t[j].corr_id == k;
            lemma_entry_at(t, j);
            if j < s.len() {
                assert(t[j] == s[j]);
                lemma_entry_at(s, j);
            }
        }
        assert(entries_map(t) =~= mid.insert(corr_id, (waiter, sent_at)));
    }

    /// Takes out the waiter registered under `corr_id`, with its send time.
    pub fn load_remove(&mut self, corr_id: u32) -> (r: Option<(W, u64)>)
        requires
            old(self).wf(),
        ensures
            final(self).wf(),
            match r {
                Some(v) => old(self)@.contains_key(corr_id) && old(self)@[corr_id] == v,
                None => !old(self)@.contains_key(corr_id),
            },
            final(self)@ == old(self)@.remove(corr_id),
    {
        match self.position(corr_id) {
            Some(i) => {
                let e = self.remove_at(i);
                Some((e.waiter, e.sent_at))
            },
            None => {
                assert(self@.remove(corr_id) =~= self@);
                None
            },
        }
    }

    /// The number of waiting requests.
    pub fn len(&self) -> (r: usize)
        requires
            self.wf(),
        ensures
            r == self@.len(),
    {
        proof {
            lemma_map_len(self.entries@);
        }
        self.entries.len()
    }

    /// Takes out every waiter sent more than `max_age` before `now` and
    /// returns them, one for each expired correlation id (in no stated
    /// order); the others stay.
    pub fn cleanup(&mut self, now: u64, max_age: u64) -> (r: Vec<W>)
        requires
            old(self).wf(),
        ensures
            final(self).wf(),
            final(self)@ == old(self)@.restrict(
                old(self)@.dom().filter(|k: u32| !expired(old(self)@[k].1, now, max_age)),
            ),
            r@.len() == old(self)@.dom().filter(|k: u32| expired(old(self)@[k].1, now, max_age)).len(),
            exists|ids: Seq<u32>|
                #![trigger ids.to_set()]
                ids.len() == r@.len() && ids.no_duplicates() && ids.to_set() == old(self)@.dom().filter(
                    |k: u32| expired(old(self)@[k].1, now, max_age),
                ) && forall|j: int| 0 <= j < ids.len() ==> #[trigger] r@[j] == old(self)@[ids[j]].0,
    {
        let ghost start = self@;
        let mut taken: Vec<W> = Vec::new();
        let mut i: usize = 0;
        let ghost mut gone: Set<u32> = Set::empty();
        let ghost mut ids: Seq<u32> = Seq::empty();
        while i < self.entries.len()
            invariant
                self.wf(),
                i <= self.entries@.len(),
                gone.finite(),
                taken@.len() == gone.len(),
                ids.len() == taken@.len(),
                ids.no_duplicates(),
                ids.to_set() == gone,
                forall|j: int| 0 <= j < ids.len() ==> #[trigger] taken@[j] == start[ids[j]].0,
                forall|k: u32| #[trigger] gone.contains(k) ==> start.contains_key(k) && expired(start[k].1, now, max_age),
                forall|k: u32| #[trigger] start.contains_key(k) && expired(start[k].1, now, max_age) && !gone.contains(k)
                    ==> self@.contains_key(k),
                self@ == start.remove_keys(gone),
                forall|j: int| 0 <= j < i ==> !#[trigger] expired(self.entries@[j].sent_at, now, max_age),
            decreases self.entries@.len() - i,
        {
            if self.entries[i].sent_at < now && now - self.entries[i].sent_at > max_age {
                let ghost before = self@;
                let ghost s = self.entries@;
                let e = self.remove_at(i);
                proof {
                    assert(!gone.contains(e.corr_id));
                    assert(before[e.corr_id] == start[e.corr_id]);
                    let ghost old_ids = ids;
                    ids = ids.push(e.corr_id);
                    assert(ids.to_set() =~= old_ids.to_set().insert(e.corr_id)) by {
                        assert forall|k: u32| #[trigger] ids.to_set().contains(k) <==> old_ids.to_set().insert(e.corr_id).contains(k) by {
                            if ids.contains(k) {
                                let j = choose|j: int| 0 <= j < ids.len() && ids[j] == k;
                                if j < old_ids.len() {
                                    assert(old_ids[j] == k);
                                }
                            }
                            if old_ids.contains(k) {
                                let j = choose|j: int| 0 <= j < old_ids.len() && old_ids[j] == k;
                                assert(ids[j] == k);
                            }
                            if k == e.corr_id {
                                assert(ids[old_ids.len() as int] == k);
                            }
                        }
                    }
                    assert forall|a: int, b: int| 0 <= a < ids.len() && 0 <= b < ids.len() && a != b implies ids[a] != ids[b] by {
                        if a < old_ids.len() && b < old_ids.len() {
                            assert(old_ids[a] == ids[a] && old_ids[b] == ids[b]);
                        } else if a < old_ids.len() {
                            assert(old_ids.contains(ids[a]));
                        } else {
                            assert(old_ids.contains(ids[b]));
                        }
                    }
                    gone = gone.insert(e.corr_id);
                    assert(self@ =~= start.remove_keys(gone));
                    assert forall|j: int| 0 <= j < i implies !#[trigger] expired(self.entries@[j].sent_at, now, max_age) by {
                        assert(self.entries@[j] == s[j]);
                    }
                }
                let ghost prev_taken = taken@;
                taken.push(e.waiter);
                assert forall|j: int| 0 <= j < ids.len() implies #[trigger] taken@[j] == start[ids[j]].0 by {
                    if j < ids.len() - 1 {
                        assert(taken@[j] == prev_taken[j]);
                    }
                }
            } else {
                i = i + 1;
            }
        }
        proof {
            let kept = start.dom().filter(|k: u32| !expired(start[k].1, now, max_age));
            let exp = start.dom().filter(|k: u32| expired(start[k].1, now, max_age));
            assert forall|k: u32| #[trigger] self@.contains_key(k) implies !expired(start[k].1, now, max_age) by {
                assert(has_id(self.entries@, k));
                let j = choose|j: int| 0 <= j < self.entries@.len() && #[trigger] self.entries@[j].corr_id == k;
                lemma_entry_at(self.entries@, j);
                assert(self@[k] == start[k]);
                assert(self@[k].1 == self.entries@[j].sent_at);
                assert(!expired(self.entries@[j].sent_at, now, max_age));
            }
            assert(self@ =~= start.restrict(kept));
            assert(gone =~= exp);
        }
        taken
    }
}

/// With distinct ids, the map has one key per entry.
proof fn lemma_map_len<W>(s: Seq<PendingEntry<W>>)
    requires
        distinct_ids(s),
    ensures
        entries_map(s).len() == s.len(),
        entries_map(s).dom().finite(),
    decreases s.len(),
{
    if s.len() == 0 {
        assert(entries_map(s).dom() =~= Set::<u32>::empty());
    } else {
        let p = s.drop_last();
        assert forall|a: int, b: int| 0 <= a < b < p.len() implies #[trigger] p[a].corr_id != #[trigger] p[b].corr_id by {
            assert(p[a] == s[a] && p[b] == s[b]);
        }
        lemma_map_len(p);
        let last = s.last().corr_id;
        assert forall|k: u32| #[trigger] entries_map(s).dom().contains(k) == entries_map(p).dom().insert(last).contains(k) by {
            if has_id(s, k) && k != last {
                let j = choose|j: int| 0 <= j < s.len() && #[trigger] s[j].corr_id == k;
                assert(j < p.len());
                assert(p[j].corr_id == k);
            }
            if has_id(p, k) {
                let j = choose|j: int| 0 <= j < p.len() && #[trigger] p[j].corr_id == k;
                assert(s[j].corr_id == k);
            }
            if k == last {
                assert(s[s.len() - 1].corr_id == k);
            }
        }
        assert(entries_map(s).dom() =~= entries_map(p).dom().insert(last));
        assert(!entries_map(p).dom().contains(last)) by {
            if has_id(p, last) {
                let j = choose|j: int| 0 <= j < p.len() && #[trigger] p[j].corr_id == last;
                assert(s[j].corr_id != s[s.len() - 1].corr_id);
            }
        }
    }
}

} // verus!

verus! {

/// Reading back a registration: after `store(id, waiter, sent_at)`, taking
/// `id` out yields that waiter and send time, and leaves the other waiting
/// requests as they were before the registration.
pub proof fn law_store_then_take<W>(before: Map<u32, (W, u64)>, id: u32, waiter: W, sent_at: u64)
    ensures
        before.insert(id, (waiter, sent_at)).contains_key(id),
        before.insert(id, (waiter, sent_at))[id] == (waiter, sent_at),
        before.insert(id, (waiter, sent_at)).remove(id) == before.remove(id),
{
    assert(before.insert(id, (waiter, sent_at)).remove(id) =~= before.remove(id));
}

} // verus!
