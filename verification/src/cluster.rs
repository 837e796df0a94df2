//! Cluster mode: which leader connection serves a write, which leader
//! slots to reconnect, and how the follower connections are brought in line
//! with the followers the cluster reports.
use vstd::prelude::*;

verus! {

/// The state of a connection slot.
#[derive(Clone, Copy, Debug, PartialEq, Eq, Structural)]
pub enum SlotState {
    /// No connection.
    Empty,
    /// An open connection.
    Open,
    /// A connection that has closed.
    Closed,
}

/// The slot after `i`, going back to 0 at `per_node`.
pub open spec fn wrap_next(i: int, per_node: int) -> int {
    if i + 1 >= per_node {
        0
    } else {
        i + 1
    }
}

/// The state of slot `i`; slots past the end are empty.
pub open spec fn slot_at(slots: Seq<SlotState>, i: int) -> SlotState {
    if 0 <= i < slots.len() {
        slots[i]
    } else {
        SlotState::Empty
    }
}

/// Walks `steps` slots from `i`: the first open slot, and the closed slots
/// passed on the way (whose pending requests are cleaned up).
pub open spec fn leader_walk(slots: Seq<SlotState>, per_node: int, i: int, steps: nat) -> (Option<int>, Seq<int>)
    decreases steps,
{
    if steps == 0 {
        (None, Seq::empty())
    } else {
        match slot_at(slots, i) {
            SlotState::Open => (Some(i), Seq::empty()),
            SlotState::Closed => {
                let (r, cl) = leader_walk(slots, per_node, wrap_next(i, per_node), (steps - 1) as nat);
                (r, seq![i] + cl)
            },
            SlotState::Empty => leader_walk(slots, per_node, wrap_next(i, per_node), (steps - 1) as nat),
        }
    }
}

/// Some slot holds a connection, open or closed.
pub open spec fn any_connection(slots: Seq<SlotState>) -> bool {
    exists|i: int| 0 <= i < slots.len() && slots[i] != SlotState::Empty
}

/// The choice of a leader connection.
#[derive(Debug)]
pub struct LeaderPick {
    /// The slot to use, if any.
    pub slot: Option<usize>,
    /// The slot used last, for the next choice.
    pub last_leader_id: u32,
    /// Closed slots passed over, whose pending requests are cleaned up.
    pub cleanup: Vec<usize>,
}

/// The next leader connection, round-robin after `last`: the walk starts
/// at the slot after `last` and looks at `min(per_node, slots)` slots;
/// with no connection at all, nothing is chosen and nothing cleaned.
pub open spec fn leader_choice(slots: Seq<SlotState>, per_node: int, last: u32) -> (Option<int>, Seq<int>) {
    if slots.len() == 0 || !any_connection(slots) {
        (None, Seq::empty())
    } else {
        let start = if last + 1 >= per_node { 0 } else { last + 1 };
        let steps = if per_node < slots.len() { per_node } else { slots.len() as int };
        leader_walk(slots, per_node, start, steps as nat)
    }
}

/// Chooses the leader connection for a write.
pub fn next_leader_slot(slots: &Vec<SlotState>, per_node: usize, last_leader_id: u32) -> (r: LeaderPick)
    requires
        last_leader_id < u32::MAX,
        per_node <= u32::MAX,
    ensures
        r.cleanup@.map_values(|i: usize| i as int) == leader_choice(slots@, per_node as int, last_leader_id).1,
        match leader_choice(slots@, per_node as int, last_leader_id).0 {
            Some(i) => r.slot == Some(i as usize) && r.last_leader_id == i,
            None => r.slot is None && r.last_leader_id == last_leader_id,
        },
{
    let mut cleanup: Vec<usize> = Vec::new();
    let n = slots.len();
    let mut any = false;
    let mut j: usize = 0;
    while j < n
        invariant
            n == slots@.len(),
            j <= n,
            any == exists|k: int| 0 <= k < j && slots@[k] != SlotState::Empty,
        decreases n - j,
    {
        if slots[j] != SlotState::Empty {
            any = true;
        }
        j = j + 1;
    }
    if n == 0 || !any {
        assert(cleanup@.map_values(|i: usize| i as int) =~= Seq::<int>::empty());
        return LeaderPick { slot: None, last_leader_id, cleanup };
    }
    let mut next: usize = (last_leader_id + 1) as usize;
    if next >= per_node {
        next = 0;
    }
    let steps = if per_node < n { per_node } else { n };
    let ghost total = leader_walk(slots@, per_node as int, next as int, steps as nat);
    assert(any_connection(slots@));
    assert(total == leader_choice(slots@, per_node as int, last_leader_id));
    let mut k: usize = 0;
    while k < steps
        invariant
            n == slots@.len(),
            per_node <= u32::MAX,
            total == leader_choice(slots@, per_node as int, last_leader_id),
            k <= steps,
            next < per_node || next == 0,
            total == ({
                let (r, cl) = leader_walk(slots@, per_node as int, next as int, (steps - k) as nat);
                (r, cleanup@.map_values(|i: usize| i as int) + cl)
            }),
        decreases steps - k,
    {
        let state = if next < n { slots[next] } else { SlotState::Empty };
        assert(state == slot_at(slots@, next as int));
        match state {
            SlotState::Open => {
                proof {
                    assert(cleanup@.map_values(|i: usize| i as int) + Seq::<int>::empty() =~= cleanup@.map_values(
                        |i: usize| i as int,
                    ));
                }
                return LeaderPick { slot: Some(next), last_leader_id: next as u32, cleanup };
            },
            SlotState::Closed => {
                let ghost before = cleanup@.map_values(|i: usize| i as int);
                cleanup.push(next);
                proof {
                    assert(cleanup@.map_values(|i: usize| i as int) =~= before.push(next as int));
                    let (r, cl) = leader_walk(
                        slots@,
                        per_node as int,
                        wrap_next(next as int, per_node as int),
                        (steps - k - 1) as nat,
                    );
                    assert(before + (seq![next as int] + cl) =~= before.push(next as int) + cl);
                }
            },
            SlotState::Empty => {},
        }
        next = next + 1;
        if next >= per_node {
            next = 0;
        }
        k = k + 1;
    }
    proof {
        assert(cleanup@.map_values(|i: usize| i as int) + Seq::<int>::empty() =~= cleanup@.map_values(
            |i: usize| i as int,
        ));
    }
    LeaderPick { slot: None, last_leader_id, cleanup }
}

/// The leader slots a sync reconnects: as many slots, counted from 0, as
/// there are slots without an open connection.
pub open spec fn leader_slots_to_connect(slots: Seq<SlotState>) -> Seq<int> {
    Seq::new(slots.filter(|s: SlotState| s != SlotState::Open).len(), |i: int| i)
}

/// The leader slots to reconnect.
pub fn leader_reconnect_slots(slots: &Vec<SlotState>) -> (r: Vec<usize>)
    ensures
        r@.map_values(|i: usize| i as int) == leader_slots_to_connect(slots@),
{
    let mut count: usize = 0;
    let mut j: usize = 0;
    while j < slots.len()
        invariant
            j <= slots@.len(),
            count == slots@.subrange(0, j as int).filter(|s: SlotState| s != SlotState::Open).len(),
            count <= j,
        decreases slots@.len() - j,
    {
        proof {
            let p = slots@.subrange(0, j as int);
            assert(slots@.subrange(0, j + 1) =~= p.push(slots@[j as int]));
            p.lemma_filter_push(slots@[j as int], |s: SlotState| s != SlotState::Open);
        }
        if slots[j] != SlotState::Open {
            count = count + 1;
        }
        j = j + 1;
    }
    assert(slots@.subrange(0, slots@.len() as int) =~= slots@);
    let mut out: Vec<usize> = Vec::new();
    let mut i: usize = 0;
    while i < count
        invariant
            i <= count,
            out@.len() == i,
            forall|k: int| 0 <= k < i ==> out@[k] == k,
        decreases count - i,
    {
        out.push(i);
        i = i + 1;
    }
    assert(out@.map_values(|i: usize| i as int) =~= leader_slots_to_connect(slots@));
    out
}

/// The leader connection that just opened reports a leader change when a
/// different leader address was stored before.
pub open spec fn leader_changed(stored: Option<Seq<char>>, new_leader: Seq<char>) -> bool {
    match stored {
        Some(s) => s != new_leader,
        None => false,
    }
}

/// Whether storing `new_leader` changes the known leader.
pub fn is_leader_change(stored: Option<&str>, new_leader: &str) -> (r: bool)
    ensures
        r == leader_changed(
            match stored {
                Some(s) => Some(s@),
                None => None,
            },
            new_leader@,
        ),
{
    match stored {
        Some(s) => !crate::text::same_text(s, new_leader),
        None => false,
    }
}

/// A fast sync runs when no leader or no follower connection is open.
pub fn needs_cluster_sync(any_leader_open: bool, any_follower_open: bool) -> (r: bool)
    ensures
        r == (!any_leader_open || !any_follower_open),
{
    !any_leader_open || !any_follower_open
}

} // verus!

verus! {

/// A follower connection: the node, the node's index and the connection's
/// index on that node.
#[derive(Debug)]
pub struct FollowerKey {
    pub node: String,
    pub node_idx: u32,
    pub conn_idx: u32,
}

/// What a follower sync does before connecting: which connections to keep,
/// how many are dropped, and how many connections each node still needs.
#[derive(Debug)]
pub struct FollowerPlan {
    /// `keep[i]`: connection `i` belongs to a node that is still a follower.
    pub keep: Vec<bool>,
    /// Connections dropped.
    pub removed: usize,
    /// Nodes that need connections, with how many; each node once.
    pub required: Vec<(String, u32)>,
}

/// The node names of a list of connections.
pub open spec fn key_nodes(keys: Seq<FollowerKey>) -> Seq<Seq<char>> {
    keys.map_values(|k: FollowerKey| k.node@)
}

/// The texts of a list of strings.
pub open spec fn name_texts(v: Seq<String>) -> Seq<Seq<char>> {
    v.map_values(|s: String| s@)
}

/// The node names of the connections kept: those of nodes still listed.
pub open spec fn kept_nodes(keys: Seq<FollowerKey>, followers: Seq<Seq<char>>) -> Seq<Seq<char>> {
    key_nodes(keys).filter(|n: Seq<char>| followers.contains(n))
}

/// Occurrences of `x` in `s`.
pub open spec fn occurrences(s: Seq<Seq<char>>, x: Seq<char>) -> nat {
    s.filter(|y: Seq<char>| y == x).len()
}

/// Connections each node needs: a listed node without connections needs
/// `per_node`; a node with fewer than `per_node` connections needs the
/// rest (modulo 2^32, as the count is written as `u32`).
pub open spec fn required_connections(keys: Seq<FollowerKey>, followers: Seq<Seq<char>>, per_node: usize) -> Map<Seq<char>, u32> {
    let kept = kept_nodes(keys, followers);
    Map::new(
        |n: Seq<char>| (followers.contains(n) && !kept.contains(n)) || (kept.contains(n) && occurrences(kept, n) < per_node),
        |n: Seq<char>| if kept.contains(n) { (per_node - occurrences(kept, n)) as u32 } else { per_node as u32 },
    )
}

/// The pairs as a map from node to count.
pub open spec fn pairs_map(pairs: Seq<(String, u32)>) -> Map<Seq<char>, u32> {
    Map::new(
        |n: Seq<char>| exists|i: int| 0 <= i < pairs.len() && #[trigger] pairs[i].0@ == n,
        |n: Seq<char>| {
            let i = choose|i: int| 0 <= i < pairs.len() && #[trigger] pairs[i].0@ == n;
            pairs[i].1
        },
    )
}

/// Each node appears once.
pub open spec fn distinct_names(pairs: Seq<(String, u32)>) -> bool {
    forall|i: int, j: int| 0 <= i < j < pairs.len() ==> #[trigger] pairs[i].0@ != #[trigger] pairs[j].0@
}

/// `x` is in the list.
fn list_has(v: &Vec<String>, x: &String) -> (r: bool)
    ensures
        r == name_texts(v@).contains(x@),
{
    let mut i: usize = 0;
    while i < v.len()
        invariant
            i <= v@.len(),
            forall|k: int| 0 <= k < i ==> v@[k]@ != x@,
        decreases v@.len() - i,
    {
        if v[i] == *x {
            assert(name_texts(v@)[i as int] == x@);
            return true;
        }
        i = i + 1;
    }
    proof {
        if name_texts(v@).contains(x@) {
            let k = choose|k: int| 0 <= k < name_texts(v@).len() && name_texts(v@)[k] == x@;
            assert(v@[k]@ == x@);
        }
    }
    false
}

/// Occurrences of `x` in the list.
fn list_count(v: &Vec<String>, x: &String) -> (r: usize)
    ensures
        r == occurrences(name_texts(v@), x@),
{
    let mut n: usize = 0;
    let mut i: usize = 0;
    while i < v.len()
        invariant
            i <= v@.len(),
            n == occurrences(name_texts(v@.subrange(0, i as int)), x@),
            n <= i,
        decreases v@.len() - i,
    {
        proof {
            let p = v@.subrange(0, i as int);
            assert(name_texts(v@.subrange(0, i + 1)) =~= name_texts(p).push(v@[i as int]@));
            name_texts(p).lemma_filter_push(v@[i as int]@, |y: Seq<char>| y == x@);
        }
        if v[i] == *x {
            n = n + 1;
        }
        i = i + 1;
    }
    assert(v@.subrange(0, v@.len() as int) =~= v@);
    n
}

/// The node is among the pairs.
fn pairs_have(pairs: &Vec<(String, u32)>, x: &String) -> (r: bool)
    ensures
        r == pairs_map(pairs@).contains_key(x@),
{
    let mut i: usize = 0;
    while i < pairs.len()
        invariant
            i <= pairs@.len(),
            forall|k: int| 0 <= k < i ==> pairs@[k].0@ != x@,
        decreases pairs@.len() - i,
    {
        if pairs[i].0 == *x {
            assert(pairs@[i as int].0@ == x@);
            return true;
        }
        i = i + 1;
    }
    false
}

/// Adding a node that is not yet among the pairs.
proof fn lemma_pairs_push(pairs: Seq<(String, u32)>, p: (String, u32))
    requires
        distinct_names(pairs),
        !pairs_map(pairs).contains_key(p.0@),
    ensures
        distinct_names(pairs.push(p)),
        pairs_map(pairs.push(p)) == pairs_map(pairs).insert(p.0@, p.1),
{
    let q = pairs.push(p);
    assert forall|i: int, j: int| 0 <= i < j < q.len() implies #[trigger] q[i].0@ != #[trigger] q[j].0@ by {
        if j == pairs.len() {
            assert(q[i] == pairs[i]);
            assert(pairs[i].0@ == pairs[i].0@);
        } else {
            assert(q[i] == pairs[i] && q[j] == pairs[j]);
        }
    }
    assert forall|n: Seq<char>| #[trigger] pairs_map(q).contains_key(n) == pairs_map(pairs).insert(p.0@, p.1).contains_key(n) by {
        if pairs_map(pairs).contains_key(n) {
            let i = choose|i: int| 0 <= i < pairs.len() && #[trigger] pairs[i].0@ == n;
            assert(q[i].0@ == n);
        }
        if pairs_map(q).contains_key(n) && n != p.0@ {
            let i = choose|i: int| 0 <= i < q.len() && #[trigger] q[i].0@ == n;
            assert(i < pairs.len());
            assert(pairs[i].0@ == n);
        }
        if n == p.0@ {
            assert(q[pairs.len() as int].0@ == n);
        }
    }
    assert forall|n: Seq<char>| #[trigger] pairs_map(q).contains_key(n) implies pairs_map(q)[n] == pairs_map(pairs).insert(
        p.0@,
        p.1,
    )[n] by {
        let i = choose|i: int| 0 <= i < q.len() && #[trigger] q[i].0@ == n;
        if i < pairs.len() {
            assert(q[i] == pairs[i]);
            let j = choose|j: int| 0 <= j < pairs.len() && #[trigger] pairs[j].0@ == n;
            if j != i {
                if i < j {
                    assert(pairs[i].0@ != pairs[j].0@);
                } else {
                    assert(pairs[j].0@ != pairs[i].0@);
                }
            }
        } else {
            assert(i == pairs.len());
        }
    }
    assert(pairs_map(q) =~= pairs_map(pairs).insert(p.0@, p.1));
}

/// Plans a follower sync from the current connections `keys` and the
/// reported followers. A node must not hold more than `per_node`
/// connections.
pub fn plan_follower_sync(keys: &Vec<FollowerKey>, followers: &Vec<String>, per_node: usize) -> (r: FollowerPlan)
    requires
        forall|n: Seq<char>|
            #[trigger] kept_nodes(keys@, name_texts(followers@)).contains(n) ==> occurrences(
                kept_nodes(keys@, name_texts(followers@)),
                n,
            ) <= per_node,
    ensures
        r.keep@.len() == keys@.len(),
        forall|i: int| 0 <= i < keys@.len() ==> r.keep@[i] == name_texts(followers@).contains(#[trigger] keys@[i].node@),
        r.removed == keys@.len() - kept_nodes(keys@, name_texts(followers@)).len(),
        distinct_names(r.required@),
        pairs_map(r.required@) == required_connections(keys@, name_texts(followers@), per_node),
{
    let ghost fl = name_texts(followers@);
    let mut keep: Vec<bool> = Vec::new();
    let mut kept: Vec<String> = Vec::new();
    let mut i: usize = 0;
    while i < keys.len()
        invariant
            i <= keys@.len(),
            fl == name_texts(followers@),
            keep@.len() == i,
            forall|k: int| 0 <= k < i ==> keep@[k] == fl.contains(#[trigger] keys@[k].node@),
            name_texts(kept@) == kept_nodes(keys@.subrange(0, i as int), fl),
            kept@.len() <= i,
        decreases keys@.len() - i,
    {
        let listed = list_has(followers, &keys[i].node);
        proof {
            let p = keys@.subrange(0, i as int);
            assert(keys@.subrange(0, i + 1) =~= p.push(keys@[i as int]));
            assert(key_nodes(p.push(keys@[i as int])) =~= key_nodes(p).push(keys@[i as int].node@));
            key_nodes(p).lemma_filter_push(keys@[i as int].node@, |n: Seq<char>| fl.contains(n));
        }
        keep.push(listed);
        if listed {
            let ghost before = kept@;
            kept.push(keys[i].node.clone());
            assert(name_texts(kept@) =~= name_texts(before).push(keys@[i as int].node@));
        }
        i = i + 1;
    }
    assert(keys@.subrange(0, keys@.len() as int) =~= keys@);
    let ghost kn = name_texts(kept@);
    assert(kn == kept_nodes(keys@, fl));
    let removed = keys.len() - kept.len();
    let ghost target = required_connections(keys@, fl, per_node);
    let mut required: Vec<(String, u32)> = Vec::new();
    let mut j: usize = 0;
    while j < followers.len()
        invariant
            j <= followers@.len(),
            fl == name_texts(followers@),
            kn == name_texts(kept@),
            target == required_connections(keys@, fl, per_node),
            kn == kept_nodes(keys@, fl),
            distinct_names(required@),
            forall|n: Seq<char>| #[trigger] pairs_map(required@).contains_key(n) ==> target.contains_key(n)
                && pairs_map(required@)[n] == target[n] && !kn.contains(n),
            forall|k: int| 0 <= k < j && !kn.contains(#[trigger] fl[k]) ==> pairs_map(required@).contains_key(fl[k]),
        decreases followers@.len() - j,
    {
        let name = &followers[j];
        assert(fl[j as int] == name@);
        if !list_has(&kept, name) && !pairs_have(&required, name) {
            let ghost before = required@;
            let entry = (name.clone(), per_node as u32);
            proof {
                lemma_pairs_push(before, entry);
                assert(fl.contains(name@));
            }
            required.push(entry);
        }
        j = j + 1;
    }
    let mut m: usize = 0;
    while m < kept.len()
        invariant
            m <= kept@.len(),
            fl == name_texts(followers@),
            kn == name_texts(kept@),
            kn == kept_nodes(keys@, fl),
            target == required_connections(keys@, fl, per_node),
            forall|n: Seq<char>| #[trigger] kn.contains(n) ==> occurrences(kn, n) <= per_node,
            distinct_names(required@),
            forall|n: Seq<char>| #[trigger] pairs_map(required@).contains_key(n) ==> target.contains_key(n)
                && pairs_map(required@)[n] == target[n],
            forall|k: int| 0 <= k < fl.len() && !kn.contains(#[trigger] fl[k]) ==> pairs_map(required@).contains_key(fl[k]),
            forall|k: int| 0 <= k < m && target.contains_key(#[trigger] kn[k]) ==> pairs_map(required@).contains_key(kn[k]),
        decreases kept@.len() - m,
    {
        let name = &kept[m];
        assert(kn[m as int] == name@);
        assert(kn.contains(name@));
        if !pairs_have(&required, name) {
            let c = list_count(&kept, name);
            if c < per_node {
                let ghost before = required@;
                let entry = (name.clone(), #[verifier::truncate] ((per_node - c) as u32));
                proof {
                    lemma_pairs_push(before, entry);
                }
                required.push(entry);
            }
        }
        m = m + 1;
    }
    proof {
        assert forall|n: Seq<char>| #[trigger] target.contains_key(n) implies pairs_map(required@).contains_key(n) by {
            if kn.contains(n) {
                let k = choose|k: int| 0 <= k < kn.len() && kn[k] == n;
                assert(target.contains_key(kn[k]));
            } else {
                assert(fl.contains(n));
                let k = choose|k: int| 0 <= k < fl.len() && fl[k] == n;
                assert(!kn.contains(fl[k]));
            }
        }
        assert(pairs_map(required@) =~= target);
    }
    FollowerPlan { keep, removed, required }
}

} // verus!

verus! {

/// A follower connection with its state.
#[derive(Debug)]
pub struct FollowerConn {
    pub key: FollowerKey,
    pub closed: bool,
}

/// Where a new follower connection goes.
#[derive(Debug)]
pub struct SlotAssignment {
    pub node: String,
    pub node_idx: u32,
    pub conn_idx: u32,
}

/// Abstract view of [`SlotAssignment`].
pub struct SlotAssignmentView {
    pub node: Seq<char>,
    pub node_idx: u32,
    pub conn_idx: u32,
}

impl View for SlotAssignment {
    type V = SlotAssignmentView;

    open spec fn view(&self) -> SlotAssignmentView {
        SlotAssignmentView { node: self.node@, node_idx: self.node_idx, conn_idx: self.conn_idx }
    }
}

/// The node index of the first connection of `name`, or 0 when it has
/// none.
pub open spec fn first_node_idx(existing: Seq<FollowerConn>, name: Seq<char>) -> u32
    decreases existing.len(),
{
    if existing.len() == 0 {
        0
    } else if existing[0].key.node@ == name {
        existing[0].key.node_idx
    } else {
        first_node_idx(existing.drop_first(), name)
    }
}

/// Some open connection of `name` has connection index `c`.
pub open spec fn conn_idx_in_use(existing: Seq<FollowerConn>, name: Seq<char>, c: u32) -> bool {
    exists|i: int|
        0 <= i < existing.len() && #[trigger] existing[i].key.node@ == name && !existing[i].closed
            && existing[i].key.conn_idx == c
}

/// Some connection has node index `n`.
pub open spec fn node_idx_in_use(existing: Seq<FollowerConn>, n: u32) -> bool {
    exists|i: int| 0 <= i < existing.len() && #[trigger] existing[i].key.node_idx == n
}

/// The connection indexes below `limit` that no open connection of `name`
/// uses, in increasing order.
pub open spec fn free_conn_ids(existing: Seq<FollowerConn>, name: Seq<char>, limit: nat) -> Seq<u32>
    decreases limit,
{
    if limit == 0 {
        Seq::empty()
    } else {
        let prev = free_conn_ids(existing, name, (limit - 1) as nat);
        if conn_idx_in_use(existing, name, (limit - 1) as u32) {
            prev
        } else {
            prev.push((limit - 1) as u32)
        }
    }
}

/// The node indexes below `limit` that no connection uses, in increasing
/// order.
pub open spec fn free_node_ids(existing: Seq<FollowerConn>, limit: nat) -> Seq<u32>
    decreases limit,
{
    if limit == 0 {
        Seq::empty()
    } else {
        let prev = free_node_ids(existing, (limit - 1) as nat);
        if node_idx_in_use(existing, (limit - 1) as u32) {
            prev
        } else {
            prev.push((limit - 1) as u32)
        }
    }
}

/// The node index recorded for each node in the load-balancing history;
/// a later entry replaces an earlier one.
pub open spec fn history_indexes(history: Seq<(String, u32)>) -> Map<Seq<char>, u32>
    decreases history.len(),
{
    if history.len() == 0 {
        Map::empty()
    } else {
        history_indexes(history.drop_last()).insert(history.last().0@, history.last().1)
    }
}

/// The slots of the first `count` new connections of `name` on node index
/// `nidx`: the free connection indexes in increasing order.
pub open spec fn node_slots(existing: Seq<FollowerConn>, name: Seq<char>, nidx: u32, count: nat, per_node: nat) -> Seq<SlotAssignmentView> {
    Seq::new(
        count,
        |i: int| SlotAssignmentView { node: name, node_idx: nidx, conn_idx: free_conn_ids(existing, name, per_node)[i] },
    )
}

/// The assignments for the first `n` nodes with new connections, with the
/// free node indexes still unused and the node indexes given so far.
pub open spec fn assign_nodes(
    existing: Seq<FollowerConn>,
    history: Seq<(String, u32)>,
    new_conns: Seq<(String, usize)>,
    per_node: nat,
    follower_count: nat,
    n: nat,
) -> (Seq<SlotAssignmentView>, Seq<u32>, Map<Seq<char>, u32>)
    decreases n,
{
    if n == 0 {
        (Seq::empty(), free_node_ids(existing, follower_count), history_indexes(history))
    } else {
        let (out, free, given) = assign_nodes(existing, history, new_conns, per_node, follower_count, (n - 1) as nat);
        let name = new_conns[n - 1].0@;
        let count = new_conns[n - 1].1 as nat;
        let found = first_node_idx(existing, name);
        if found != 0 {
            (out + node_slots(existing, name, found, count, per_node), free, given)
        } else if given.contains_key(name) {
            (out + node_slots(existing, name, given[name], count, per_node), free, given)
        } else if free.len() > 0 {
            let idx = free.last();
            (out + node_slots(existing, name, idx, count, per_node), free.drop_last(), given.insert(name, idx))
        } else {
            (out, free, given)
        }
    }
}

/// Every node gets no more new connections than it has free slots.
pub open spec fn fits_free_slots(existing: Seq<FollowerConn>, new_conns: Seq<(String, usize)>, per_node: nat) -> bool {
    forall|j: int|
        0 <= j < new_conns.len() ==> #[trigger] new_conns[j].1 <= free_conn_ids(existing, new_conns[j].0@, per_node).len()
}

/// The free connection indexes of `name` below `per_node`.
fn free_conn_list(existing: &Vec<FollowerConn>, name: &String, per_node: u32) -> (r: Vec<u32>)
    ensures
        r@ == free_conn_ids(existing@, name@, per_node as nat),
{
    let mut out: Vec<u32> = Vec::new();
    let mut c: u32 = 0;
    while c < per_node
        invariant
            c <= per_node,
            out@ == free_conn_ids(existing@, name@, c as nat),
        decreases per_node - c,
    {
        let mut used = false;
        let mut i: usize = 0;
        while i < existing.len()
            invariant
                i <= existing@.len(),
                used == exists|k: int|
                    0 <= k < i && #[trigger] existing@[k].key.node@ == name@ && !existing@[k].closed
                        && existing@[k].key.conn_idx == c,
            decreases existing@.len() - i,
        {
            if existing[i].key.node == *name && !existing[i].closed && existing[i].key.conn_idx == c {
                used = true;
            }
            i = i + 1;
        }
        if !used {
            out.push(c);
        }
        c = c + 1;
    }
    out
}

/// The node indexes below `limit` that no connection uses.
fn free_node_list(existing: &Vec<FollowerConn>, limit: u32) -> (r: Vec<u32>)
    ensures
        r@ == free_node_ids(existing@, limit as nat),
{
    let mut out: Vec<u32> = Vec::new();
    let mut n: u32 = 0;
    while n < limit
        invariant
            n <= limit,
            out@ == free_node_ids(existing@, n as nat),
        decreases limit - n,
    {
        let mut used = false;
        let mut i: usize = 0;
        while i < existing.len()
            invariant
                i <= existing@.len(),
                used == exists|k: int| 0 <= k < i && #[trigger] existing@[k].key.node_idx == n,
            decreases existing@.len() - i,
        {
            if existing[i].key.node_idx == n {
                used = true;
            }
            i = i + 1;
        }
        if !used {
            out.push(n);
        }
        n = n + 1;
    }
    out
}

/// The node index of the first connection of `name`, or 0.
fn first_node_index(existing: &Vec<FollowerConn>, name: &String) -> (r: u32)
    ensures
        r == first_node_idx(existing@, name@),
{
    let mut i: usize = 0;
    assert(existing@.subrange(0, existing@.len() as int) =~= existing@);
    while i < existing.len()
        invariant
            i <= existing@.len(),
            first_node_idx(existing@, name@) == first_node_idx(existing@.subrange(i as int, existing@.len() as int), name@),
        decreases existing@.len() - i,
    {
        proof {
            let rest = existing@.subrange(i as int, existing@.len() as int);
            assert(rest.drop_first() =~= existing@.subrange(i + 1, existing@.len() as int));
            assert(rest[0] == existing@[i as int]);
        }
        if existing[i].key.node == *name {
            return existing[i].key.node_idx;
        }
        i = i + 1;
    }
    0
}

/// The node index the history records for `name`, the last entry winning.
fn history_index(history: &Vec<(String, u32)>, name: &String) -> (r: Option<u32>)
    ensures
        match r {
            Some(v) => history_indexes(history@).contains_key(name@) && history_indexes(history@)[name@] == v,
            None => !history_indexes(history@).contains_key(name@),
        },
{
    let mut i = history.len();
    assert(history@.subrange(0, i as int) =~= history@);
    while i > 0
        invariant
            i <= history@.len(),
            history_indexes(history@).contains_key(name@) == history_indexes(history@.subrange(0, i as int)).contains_key(name@),
            history_indexes(history@).contains_key(name@) ==> history_indexes(history@)[name@] == history_indexes(
                history@.subrange(0, i as int),
            )[name@],
        decreases i,
    {
        proof {
            let p = history@.subrange(0, i as int);
            assert(p.drop_last() =~= history@.subrange(0, i - 1));
        }
        if history[i - 1].0 == *name {
            return Some(history[i - 1].1);
        }
        i = i - 1;
    }
    None
}

} // verus!

verus! {

/// A copy of the history entries.
fn copy_history(history: &Vec<(String, u32)>) -> (r: Vec<(String, u32)>)
    ensures
        r@.len() == history@.len(),
        forall|i: int| 0 <= i < history@.len() ==> #[trigger] r@[i].0@ == history@[i].0@ && r@[i].1 == history@[i].1,
{
    let mut out: Vec<(String, u32)> = Vec::new();
    let mut i: usize = 0;
    while i < history.len()
        invariant
            i <= history@.len(),
            out@.len() == i,
            forall|k: int| 0 <= k < i ==> #[trigger] out@[k].0@ == history@[k].0@ && out@[k].1 == history@[k].1,
        decreases history@.len() - i,
    {
        let name = history[i].0.clone();
        out.push((name, history[i].1));
        i = i + 1;
    }
    out
}

/// Entries with the same texts record the same node indexes.
proof fn lemma_history_same(a: Seq<(String, u32)>, b: Seq<(String, u32)>)
    requires
        a.len() == b.len(),
        forall|i: int| 0 <= i < a.len() ==> #[trigger] a[i].0@ == b[i].0@ && a[i].1 == b[i].1,
    ensures
        history_indexes(a) == history_indexes(b),
    decreases a.len(),
{
    if a.len() > 0 {
        assert forall|i: int| 0 <= i < a.drop_last().len() implies #[trigger] a.drop_last()[i].0@ == b.drop_last()[i].0@
            && a.drop_last()[i].1 == b.drop_last()[i].1 by {
            assert(a.drop_last()[i] == a[i] && b.drop_last()[i] == b[i]);
        }
        lemma_history_same(a.drop_last(), b.drop_last());
        assert(a.last().0@ == b.last().0@ && a.last().1 == b.last().1);
    }
}

/// Places the new follower connections: each node keeps the node index of
/// its existing connections; a node without one takes the index the
/// load-balancing history records, or else the highest free node index
/// (nodes left without an index get no slots); the connections take the
/// node's free connection indexes in increasing order.
pub fn assign_follower_slots(
    existing: &Vec<FollowerConn>,
    history: &Vec<(String, u32)>,
    new_conns: &Vec<(String, usize)>,
    per_node: u32,
    follower_count: u32,
) -> (r: Vec<SlotAssignment>)
    requires
        fits_free_slots(existing@, new_conns@, per_node as nat),
    ensures
        r@.map_values(|a: SlotAssignment| a@) == assign_nodes(
            existing@,
            history@,
            new_conns@,
            per_node as nat,
            follower_count as nat,
            new_conns@.len(),
        ).0,
{
    let mut out: Vec<SlotAssignment> = Vec::new();
    let mut free = free_node_list(existing, follower_count);
    let mut given = copy_history(history);
    proof {
        lemma_history_same(given@, history@);
        assert(out@.map_values(|a: SlotAssignment| a@) =~= Seq::<SlotAssignmentView>::empty());
    }
    let mut j: usize = 0;
    while j < new_conns.len()
        invariant
            j <= new_conns@.len(),
            fits_free_slots(existing@, new_conns@, per_node as nat),
            ({
                let (o, f, g) = assign_nodes(existing@, history@, new_conns@, per_node as nat, follower_count as nat, j as nat);
                &&& out@.map_values(|a: SlotAssignment| a@) == o
                &&& free@ == f
                &&& history_indexes(given@) == g
            }),
        decreases new_conns@.len() - j,
    {
        let name = &new_conns[j].0;
        let count = new_conns[j].1;
        let ghost before = out@.map_values(|a: SlotAssignment| a@);
        let found = first_node_index(existing, name);
        let nidx: Option<u32> = if found != 0 {
            Some(found)
        } else {
            match history_index(&given, name) {
                Some(v) => Some(v),
                None => {
                    if free.len() > 0 {
                        let ghost f0 = free@;
                        let idx = free.pop().unwrap();
                        assert(free@ == f0.drop_last());
                        let ghost g0 = given@;
                        given.push((name.clone(), idx));
                        assert(given@.drop_last() =~= g0);
                        Some(idx)
                    } else {
                        None
                    }
                },
            }
        };
        if let Some(n) = nidx {
            let slots = free_conn_list(existing, name, per_node);
            assert(count <= slots@.len()) by {
                assert(new_conns@[j as int].1 <= free_conn_ids(existing@, new_conns@[j as int].0@, per_node as nat).len());
            }
            let mut i: usize = 0;
            while i < count
                invariant
                    i <= count,
                    count <= slots@.len(),
                    slots@ == free_conn_ids(existing@, name@, per_node as nat),
                    out@.map_values(|a: SlotAssignment| a@) == before + node_slots(
                        existing@,
                        name@,
                        n,
                        i as nat,
                        per_node as nat,
                    ),
                decreases count - i,
            {
                let ghost prev = out@;
                out.push(SlotAssignment { node: name.clone(), node_idx: n, conn_idx: slots[i] });
                assert(out@.map_values(|a: SlotAssignment| a@) =~= before + node_slots(
                    existing@,
                    name@,
                    n,
                    (i + 1) as nat,
                    per_node as nat,
                )) by {
                    assert(out@.map_values(|a: SlotAssignment| a@) =~= prev.map_values(|a: SlotAssignment| a@).push(
                        out@[prev.len() as int]@,
                    ));
                }
                i = i + 1;
            }
        } else {
            assert(before + Seq::<SlotAssignmentView>::empty() =~= before);
        }
        j = j + 1;
    }
    out
}

} // verus!

verus! {

/// An entry of the load-balancing history: a follower node, its node index
/// and the connection index to try next.
#[derive(Debug)]
pub struct HistoryEntry {
    pub node: String,
    pub node_idx: u32,
    pub next_conn: u32,
}

/// The state of follower connection `(name, nidx, c)`: `None` when there is
/// none, else whether it is closed (the first such connection counts).
pub open spec fn conn_state(conns: Seq<FollowerConn>, name: Seq<char>, nidx: u32, c: u32) -> Option<bool>
    decreases conns.len(),
{
    if conns.len() == 0 {
        None
    } else if conns[0].key.node@ == name && conns[0].key.node_idx == nidx && conns[0].key.conn_idx == c {
        Some(conns[0].closed)
    } else {
        conn_state(conns.drop_first(), name, nidx, c)
    }
}

/// The connection index after `c`, going back to 0 at `per_node`.
pub open spec fn next_conn_idx(c: u32, per_node: nat) -> u32 {
    if c + 1 >= per_node {
        0
    } else {
        (c + 1) as u32
    }
}

/// Tries `tries` connection indexes of node `(name, nidx)` from `c`: the
/// first open connection, and the closed ones met on the way (dropped and
/// cleaned up).
pub open spec fn conn_scan(conns: Seq<FollowerConn>, name: Seq<char>, nidx: u32, c: u32, per_node: nat, tries: nat) -> (Option<u32>, Seq<u32>)
    decreases tries,
{
    if tries == 0 {
        (None, Seq::empty())
    } else {
        match conn_state(conns, name, nidx, c) {
            Some(false) => (Some(c), Seq::empty()),
            Some(true) => {
                let (r, cl) = conn_scan(conns, name, nidx, next_conn_idx(c, per_node), per_node, (tries - 1) as nat);
                (r, seq![c] + cl)
            },
            None => conn_scan(conns, name, nidx, next_conn_idx(c, per_node), per_node, (tries - 1) as nat),
        }
    }
}

/// The position of the first history entry with node index `n`.
pub open spec fn history_pos(history: Seq<HistoryEntry>, n: u32) -> Option<int>
    decreases history.len(),
{
    if history.len() == 0 {
        None
    } else {
        match history_pos(history.drop_last(), n) {
            Some(p) => Some(p),
            None => if history.last().node_idx == n {
                Some(history.len() - 1)
            } else {
                None
            },
        }
    }
}

/// The result of choosing a follower connection.
#[derive(Debug)]
pub struct FollowerPick {
    /// The history entry and connection index chosen, if any.
    pub chosen: Option<(usize, u32)>,
    /// The node index used last, for the next choice.
    pub last_node_id: u32,
    /// Closed connections met, by history entry and connection index.
    pub closed: Vec<(usize, u32)>,
}

/// Abstract outcome of a follower choice.
pub struct FollowerPickView {
    pub chosen: Option<(int, u32)>,
    pub last_node_id: u32,
    pub closed: Seq<(int, u32)>,
}

/// Where the walk over the nodes goes after node index `last`.
pub open spec fn next_node(last: u32, len: nat) -> u32 {
    if last + 1 >= len {
        0
    } else {
        (last + 1) as u32
    }
}

/// The closed connections of a scan, tagged with the history entry.
pub open spec fn tag_closed(p: int, cl: Seq<u32>) -> Seq<(int, u32)> {
    cl.map_values(|c: u32| (p, c))
}

/// `rounds` more rounds of the walk over the follower nodes, starting
/// after node index `last`.
pub open spec fn follower_walk(history: Seq<HistoryEntry>, conns: Seq<FollowerConn>, per_node: nat, last: u32, rounds: nat) -> FollowerPickView
    decreases rounds,
{
    if rounds == 0 {
        FollowerPickView { chosen: None, last_node_id: last, closed: Seq::empty() }
    } else {
        let n = next_node(last, history.len());
        match history_pos(history, n) {
            None => follower_walk(history, conns, per_node, n, (rounds - 1) as nat),
            Some(p) => {
                let e = history[p];
                let start = if e.next_conn >= per_node { 0 } else { e.next_conn };
                let (r, cl) = conn_scan(conns, e.node@, e.node_idx, start, per_node, per_node);
                match r {
                    Some(c) => FollowerPickView {
                        chosen: Some((p, c)),
                        last_node_id: e.node_idx,
                        closed: tag_closed(p, cl),
                    },
                    None => {
                        let rest = follower_walk(history, conns, per_node, n, (rounds - 1) as nat);
                        FollowerPickView { chosen: rest.chosen, last_node_id: rest.last_node_id, closed: tag_closed(p, cl) + rest.closed }
                    },
                }
            },
        }
    }
}

/// The state of follower connection `(name, nidx, c)`.
fn find_conn(conns: &Vec<FollowerConn>, name: &String, nidx: u32, c: u32) -> (r: Option<bool>)
    ensures
        r == conn_state(conns@, name@, nidx, c),
{
    let mut i: usize = 0;
    assert(conns@.subrange(0, conns@.len() as int) =~= conns@);
    while i < conns.len()
        invariant
            i <= conns@.len(),
            conn_state(conns@, name@, nidx, c) == conn_state(conns@.subrange(i as int, conns@.len() as int), name@, nidx, c),
        decreases conns@.len() - i,
    {
        proof {
            let rest = conns@.subrange(i as int, conns@.len() as int);
            assert(rest.drop_first() =~= conns@.subrange(i + 1, conns@.len() as int));
            assert(rest[0] == conns@[i as int]);
        }
        let k = &conns[i].key;
        if k.node == *name && k.node_idx == nidx && k.conn_idx == c {
            return Some(conns[i].closed);
        }
        i = i + 1;
    }
    None
}

/// The position of the first history entry with node index `n`.
fn find_history(history: &Vec<HistoryEntry>, n: u32) -> (r: Option<usize>)
    ensures
        match r {
            Some(p) => history_pos(history@, n) == Some(p as int) && p < history@.len(),
            None => history_pos(history@, n) is None,
        },
{
    let mut i: usize = 0;
    while i < history.len()
        invariant
            i <= history@.len(),
            history_pos(history@.subrange(0, i as int), n) is None,
        decreases history@.len() - i,
    {
        proof {
            assert(history@.subrange(0, i + 1).drop_last() =~= history@.subrange(0, i as int));
        }
        if history[i].node_idx == n {
            proof {
                assert(history_pos(history@.subrange(0, i + 1), n) == Some(i as int));
                lemma_history_pos_extend(history@, i as nat + 1, history@.len());
                assert(history@.subrange(0, history@.len() as int) =~= history@);
            }
            return Some(i);
        }
        i = i + 1;
    }
    assert(history@.subrange(0, history@.len() as int) =~= history@);
    None
}

/// A position found in a prefix stays the position in the whole list.
proof fn lemma_history_pos_extend(history: Seq<HistoryEntry>, k: nat, m: nat)
    requires
        k <= m <= history.len(),
        history_pos(history.subrange(0, k as int), history[k - 1].node_idx) is Some || k == 0,
    ensures
        k > 0 ==> history_pos(history.subrange(0, m as int), history[k - 1].node_idx) == history_pos(
            history.subrange(0, k as int),
            history[k - 1].node_idx,
        ),
    decreases m - k,
{
    if k > 0 && k < m {
        lemma_history_pos_extend(history, k, (m - 1) as nat);
        assert(history.subrange(0, m as int).drop_last() =~= history.subrange(0, m - 1));
    }
}

} // verus!

verus! {

/// The view of a list of (entry, connection) pairs.
pub open spec fn pair_views(v: Seq<(usize, u32)>) -> Seq<(int, u32)> {
    v.map_values(|x: (usize, u32)| (x.0 as int, x.1))
}

/// Chooses the follower connection for a read: walks the follower nodes
/// round-robin after node index `last_node_id` (one round per history
/// entry); on each node it tries the connection indexes from the one
/// recorded next, and takes the first open connection. The chosen history
/// entry then records the connection index after the chosen one.
pub fn next_follower_slot(history: &Vec<HistoryEntry>, conns: &Vec<FollowerConn>, per_node: u32, last_node_id: u32) -> (r: (
    FollowerPick,
    Option<u32>,
))
    requires
        last_node_id < u32::MAX,
        history@.len() < u32::MAX,
    ensures
        ({
            let w = follower_walk(history@, conns@, per_node as nat, last_node_id, history@.len());
            &&& r.0.last_node_id == w.last_node_id
            &&& pair_views(r.0.closed@) == w.closed
            &&& match w.chosen {
                Some((p, c)) => r.0.chosen == Some((p as usize, c)) && r.1 == Some(
                    ((c + 1) % (per_node as int)) as u32,
                ),
                None => r.0.chosen is None && r.1 is None,
            }
        }),
{
    let len = history.len();
    let ghost total = follower_walk(history@, conns@, per_node as nat, last_node_id, history@.len());
    let mut last = last_node_id;
    let mut closed: Vec<(usize, u32)> = Vec::new();
    let mut round: usize = 0;
    proof {
        assert(pair_views(closed@) + total.closed =~= total.closed);
    }
    while round < len
        invariant
            len == history@.len(),
            len < u32::MAX,
            round <= len,
            last < u32::MAX,
            total == follower_walk(history@, conns@, per_node as nat, last_node_id, history@.len()),
            total == ({
                let rest = follower_walk(history@, conns@, per_node as nat, last, (len - round) as nat);
                FollowerPickView {
                    chosen: rest.chosen,
                    last_node_id: rest.last_node_id,
                    closed: pair_views(closed@) + rest.closed,
                }
            }),
        decreases len - round,
    {
        let ghost last0 = last;
        let ghost before = pair_views(closed@);
        let n: u32 = if last as usize + 1 >= len {
            0
        } else {
            last + 1
        };
        assert(n == next_node(last0, len as nat));
        last = n;
        let ghost rest_next = follower_walk(history@, conns@, per_node as nat, n, (len - round - 1) as nat);
        match find_history(history, n) {
            None => {
                assert(before + rest_next.closed =~= pair_views(closed@) + rest_next.closed);
            },
            Some(p) => {
                let e = &history[p];
                let start: u32 = if e.next_conn >= per_node {
                    0
                } else {
                    e.next_conn
                };
                let ghost scan = conn_scan(conns@, e.node@, e.node_idx, start, per_node as nat, per_node as nat);
                let mut c = start;
                let mut tried: u32 = 0;
                let ghost mut done: Seq<u32> = Seq::empty();
                let ghost rest0 = follower_walk(history@, conns@, per_node as nat, last0, (len - round) as nat);
                proof {
                    assert(pair_views(closed@) =~= before + tag_closed(p as int, done));
                    assert(scan.1 =~= done + scan.1);
                    assert(e == history@[p as int]);
                }
                while tried < per_node
                    invariant
                        total == follower_walk(history@, conns@, per_node as nat, last_node_id, history@.len()),
                        total.chosen == rest0.chosen,
                        total.last_node_id == rest0.last_node_id,
                        total.closed == before + rest0.closed,
                        rest0 == (match scan.0 {
                            Some(cc) => FollowerPickView {
                                chosen: Some((p as int, cc)),
                                last_node_id: e.node_idx,
                                closed: tag_closed(p as int, scan.1),
                            },
                            None => FollowerPickView {
                                chosen: rest_next.chosen,
                                last_node_id: rest_next.last_node_id,
                                closed: tag_closed(p as int, scan.1) + rest_next.closed,
                            },
                        }),
                        tried <= per_node,
                        scan == conn_scan(conns@, e.node@, e.node_idx, start, per_node as nat, per_node as nat),
                        pair_views(closed@) == before + tag_closed(p as int, done),
                        scan.0 == conn_scan(conns@, e.node@, e.node_idx, c, per_node as nat, (per_node - tried) as nat).0,
                        scan.1 == done + conn_scan(conns@, e.node@, e.node_idx, c, per_node as nat, (per_node - tried) as nat).1,
                    decreases per_node - tried,
                {
                    match find_conn(conns, &e.node, e.node_idx, c) {
                        Some(false) => {
                            proof {
                                assert(scan.1 =~= done);
                                assert(scan.0 == Some(c));
                            }
                            let pick = FollowerPick { chosen: Some((p, c)), last_node_id: e.node_idx, closed };
                            let next = ((c as u64 + 1) % per_node as u64) as u32;
                            return (pick, Some(next));
                        },
                        Some(true) => {
                            let ghost prev = closed@;
                            closed.push((p, c));
                            proof {
                                let done2 = done.push(c);
                                assert(pair_views(closed@) =~= pair_views(prev).push((p as int, c)));
                                assert(tag_closed(p as int, done2) =~= tag_closed(p as int, done).push((p as int, c)));
                                let cl = conn_scan(
                                    conns@,
                                    e.node@,
                                    e.node_idx,
                                    next_conn_idx(c, per_node as nat),
                                    per_node as nat,
                                    (per_node - tried - 1) as nat,
                                ).1;
                                assert(done + (seq![c] + cl) =~= done2 + cl);
                                done = done2;
                            }
                        },
                        None => {},
                    }
                    tried = tried + 1;
                    c = if c as u64 + 1 >= per_node as u64 {
                        0
                    } else {
                        c + 1
                    };
                }
                proof {
                    assert(done + Seq::<u32>::empty() =~= done);
                    assert(scan.0 is None);
                    assert(scan.1 == done);
                    assert(total.closed == before + (tag_closed(p as int, scan.1) + rest_next.closed));
                    assert(before + (tag_closed(p as int, scan.1) + rest_next.closed) =~= pair_views(closed@)
                        + rest_next.closed);
                }
            },
        }
        round = round + 1;
    }
    proof {
        assert(pair_views(closed@) + Seq::<(int, u32)>::empty() =~= pair_views(closed@));
    }
    (FollowerPick { chosen: None, last_node_id: last, closed }, None)
}

} // verus!

verus! {

/// Why a cluster request was given up.
#[derive(Clone, Copy, Debug, PartialEq, Eq, Structural)]
pub enum ClusterGiveUp {
    /// No leader connection for a write.
    NoLeaderAvailable,
    /// No follower connection for a read.
    NoFollowerNodeAvailable,
    /// The answer never came.
    Timeout,
}

/// What to do after a failed cluster attempt.
#[derive(Clone, Copy, Debug, PartialEq, Eq, Structural)]
pub enum ClusterStep {
    /// Wait `delay_ms` milliseconds and try again; `attempts` failed so far.
    Retry { attempts: u32, delay_ms: u64 },
    /// Give up.
    GiveUp(ClusterGiveUp),
}

/// After the failure that makes `attempts + 1` failed attempts: give up at
/// the third (no leader for a write, no follower for a read, or timed
/// out), else wait 50 ms times the new attempt count plus one.
pub open spec fn cluster_retry_after(attempts: u32, is_write: bool, no_connection: bool) -> ClusterStep {
    let a = attempts + 1;
    if a >= 3 {
        ClusterStep::GiveUp(
            if !no_connection {
                ClusterGiveUp::Timeout
            } else if is_write {
                ClusterGiveUp::NoLeaderAvailable
            } else {
                ClusterGiveUp::NoFollowerNodeAvailable
            },
        )
    } else {
        ClusterStep::Retry { attempts: a as u32, delay_ms: (50 * (a + 1)) as u64 }
    }
}

/// Decides what follows a failed cluster attempt: `no_connection` when no
/// connection was available, else the answer never came.
pub fn cluster_after_failure(attempts: u32, is_write: bool, no_connection: bool) -> (r: ClusterStep)
    requires
        attempts < 3,
    ensures
        r == cluster_retry_after(attempts, is_write, no_connection),
{
    let a = attempts + 1;
    if a >= 3 {
        if !no_connection {
            ClusterStep::GiveUp(ClusterGiveUp::Timeout)
        } else if is_write {
            ClusterStep::GiveUp(ClusterGiveUp::NoLeaderAvailable)
        } else {
            ClusterStep::GiveUp(ClusterGiveUp::NoFollowerNodeAvailable)
        }
    } else {
        ClusterStep::Retry { attempts: a, delay_ms: 50 * (a as u64 + 1) }
    }
}

} // verus!

verus! {

/// `p` is the leader choice for these slots, as `next_leader_slot` makes it.
pub open spec fn is_leader_pick(p: LeaderPick, slots: Seq<SlotState>, per_node: int, last: u32) -> bool {
    &&& p.cleanup@.map_values(|i: usize| i as int) == leader_choice(slots, per_node, last).1
    &&& match leader_choice(slots, per_node, last).0 {
        Some(i) => p.slot == Some(i as usize) && p.last_leader_id == i,
        None => p.slot is None && p.last_leader_id == last,
    }
}

/// `(p, next)` is the follower choice for this history, as
/// `next_follower_slot` makes it.
pub open spec fn is_follower_pick(
    p: FollowerPick,
    next: Option<u32>,
    history: Seq<HistoryEntry>,
    conns: Seq<FollowerConn>,
    per_node: u32,
    last: u32,
) -> bool {
    let w = follower_walk(history, conns, per_node as nat, last, history.len());
    &&& p.last_node_id == w.last_node_id
    &&& pair_views(p.closed@) == w.closed
    &&& match w.chosen {
        Some((e, c)) => p.chosen == Some((e as usize, c)) && next == Some(((c + 1) % (per_node as int)) as u32),
        None => p.chosen is None && next is None,
    }
}

/// The connection chosen for one attempt of a cluster request.
#[derive(Debug)]
pub enum ClusterChoice {
    /// A leader connection, for a write.
    Leader(LeaderPick),
    /// A follower connection, for a read, with the connection index the
    /// chosen history entry records next.
    Follower(FollowerPick, Option<u32>),
}

/// Chooses the connection for one attempt of a cluster request: a write
/// goes to a leader connection and a read to a follower connection.
pub fn pick_cluster_connection(
    is_write: bool,
    leader_slots: &Vec<SlotState>,
    last_leader_id: u32,
    history: &Vec<HistoryEntry>,
    conns: &Vec<FollowerConn>,
    per_node: u32,
    last_node_id: u32,
) -> (r: ClusterChoice)
    requires
        last_leader_id < u32::MAX,
        last_node_id < u32::MAX,
        history@.len() < u32::MAX,
    ensures
        is_write ==> (r matches ClusterChoice::Leader(p) && is_leader_pick(
            p,
            leader_slots@,
            per_node as int,
            last_leader_id,
        )),
        !is_write ==> (r matches ClusterChoice::Follower(p, next) && is_follower_pick(
            p,
            next,
            history@,
            conns@,
            per_node,
            last_node_id,
        )),
{
    if is_write {
        ClusterChoice::Leader(next_leader_slot(leader_slots, per_node as usize, last_leader_id))
    } else {
        let (p, next) = next_follower_slot(history, conns, per_node, last_node_id);
        ClusterChoice::Follower(p, next)
    }
}

} // verus!
