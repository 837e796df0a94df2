//! Cluster discovery: the node lists, and the choice of the leader from
//! what the reachable nodes report.
use crate::text::{same_text, str_trim, trim_ws};
use vstd::prelude::*;

verus! {

/// A node of the discovery list.
#[derive(Debug)]
pub struct NodeAddr {
    pub node_id: String,
    pub addr: String,
    pub port: Option<u32>,
}

/// The discovery file.
#[derive(Debug)]
pub struct DiscoveryYaml {
    pub nodes: Vec<NodeAddr>,
}

/// What a node reports about itself.
#[derive(Debug)]
pub struct NodeInfo {
    pub node_id: String,
    pub zone_id: String,
    pub shard_id: String,
    pub leader_id: String,
    pub leader_url: String,
}

/// A node that answered: its host, its health text and the leader it
/// follows.
#[derive(Debug)]
pub struct NodeData {
    pub host: String,
    pub health: String,
    pub leader_url: String,
}

/// Why no leader could be chosen.
#[derive(Clone, Copy, Debug, PartialEq, Eq, Structural)]
pub enum ClusterError {
    NoLeaderAvailable,
}

/// The pieces of `s` between the `,` characters (at least one).
pub open spec fn split_on_commas(s: Seq<char>) -> Seq<Seq<char>>
    decreases s.len(),
{
    if s.len() == 0 {
        seq![Seq::empty()]
    } else {
        let p = split_on_commas(s.drop_last());
        if s.last() == ',' {
            p.push(Seq::empty())
        } else {
            p.update(p.len() - 1, p.last().push(s.last()))
        }
    }
}

/// The trimmed pieces that are not empty.
pub open spec fn nonempty_trimmed(pieces: Seq<Seq<char>>) -> Seq<Seq<char>>
    decreases pieces.len(),
{
    if pieces.len() == 0 {
        Seq::empty()
    } else {
        let prev = nonempty_trimmed(pieces.drop_last());
        let t = trim_ws(pieces.last());
        if t.len() > 0 {
            prev.push(t)
        } else {
            prev
        }
    }
}

/// The node ids of a comma-separated list: trimmed, empty ones dropped.
pub open spec fn node_ids(s: Seq<char>) -> Seq<Seq<char>> {
    nonempty_trimmed(split_on_commas(s))
}

/// The texts of a list of strings.
pub open spec fn string_texts(v: Seq<String>) -> Seq<Seq<char>> {
    v.map_values(|s: String| s@)
}

/// Splitting a prefix that ends with a non-comma extends the last piece.
proof fn lemma_split_step(s: Seq<char>, i: int)
    requires
        0 <= i < s.len(),
    ensures
        split_on_commas(s.subrange(0, i + 1)) == {
            let p = split_on_commas(s.subrange(0, i));
            if s[i] == ',' {
                p.push(Seq::empty())
            } else {
                p.update(p.len() - 1, p.last().push(s[i]))
            }
        },
{
    assert(s.subrange(0, i + 1).drop_last() =~= s.subrange(0, i));
}

/// The last piece of a split is the text after the last comma.
proof fn lemma_split_last(s: Seq<char>, start: int, i: int)
    requires
        0 <= start <= i <= s.len(),
        forall|k: int| start <= k < i ==> s[k] != ',',
        start == 0 || s[start - 1] == ',',
    ensures
        split_on_commas(s.subrange(0, i)).len() >= 1,
        split_on_commas(s.subrange(0, i)).last() == s.subrange(start, i),
    decreases i - start,
{
    if i == start {
        if start == 0 {
            assert(s.subrange(0, 0) =~= Seq::<char>::empty());
        } else {
            lemma_split_step(s, start - 1);
            lemma_split_len(s.subrange(0, start - 1));
        }
        assert(s.subrange(start, i) =~= Seq::<char>::empty());
    } else {
        lemma_split_last(s, start, i - 1);
        lemma_split_step(s, i - 1);
        lemma_split_len(s.subrange(0, i - 1));
        assert(s.subrange(start, i) =~= s.subrange(start, i - 1).push(s[i - 1]));
    }
}

/// A split has at least one piece.
proof fn lemma_split_len(s: Seq<char>)
    ensures
        split_on_commas(s).len() >= 1,
    decreases s.len(),
{
    if s.len() > 0 {
        lemma_split_len(s.drop_last());
    }
}

/// The node ids of a comma-separated list, trimmed, empty ones dropped.
pub fn split_ids(s: &str) -> (r: Vec<String>)
    ensures
        string_texts(r@) == node_ids(s@),
{
    let n = s.unicode_len();
    let mut out: Vec<String> = Vec::new();
    let mut start: usize = 0;
    let mut i: usize = 0;
    while i < n
        invariant
            n == s@.len(),
            start <= i <= n,
            forall|k: int| start <= k < i ==> s@[k] != ',',
            start == 0 || s@[start - 1] == ',',
            split_on_commas(s@.subrange(0, i as int)).len() >= 1,
            string_texts(out@) == nonempty_trimmed(split_on_commas(s@.subrange(0, i as int)).drop_last()),
        decreases n - i,
    {
        let c = s.get_char(i);
        proof {
            lemma_split_step(s@, i as int);
            lemma_split_last(s@, start as int, i as int);
        }
        if c == ',' {
            let piece = s.substring_char(start, i);
            let t = str_trim(piece);
            let ghost p = split_on_commas(s@.subrange(0, i as int));
            if t.unicode_len() > 0 {
                out.push(t.to_owned());
            }
            proof {
                let q = split_on_commas(s@.subrange(0, i + 1));
                assert(q.drop_last() =~= p);
                assert(p.drop_last() =~= p.subrange(0, p.len() - 1));
                assert(string_texts(out@) =~= nonempty_trimmed(q.drop_last()));
            }
            start = i + 1;
        } else {
            proof {
                let p = split_on_commas(s@.subrange(0, i as int));
                let q = split_on_commas(s@.subrange(0, i + 1));
                assert(q.drop_last() =~= p.drop_last());
            }
        }
        i = i + 1;
    }
    proof {
        lemma_split_last(s@, start as int, n as int);
        assert(s@.subrange(0, n as int) =~= s@);
    }
    let piece = s.substring_char(start, n);
    let t = str_trim(piece);
    if t.unicode_len() > 0 {
        out.push(t.to_owned());
    }
    proof {
        let p = split_on_commas(s@);
        assert(p.drop_last().push(p.last()) =~= p);
        assert(string_texts(out@) =~= nonempty_trimmed(p));
    }
    out
}

} // verus!

verus! {

/// The number of nodes that follow `url`.
pub open spec fn votes_for(nodes: Seq<NodeData>, url: Seq<char>) -> nat
    decreases nodes.len(),
{
    if nodes.len() == 0 {
        0
    } else {
        votes_for(nodes.drop_last(), url) + if nodes.last().leader_url@ == url {
            1nat
        } else {
            0nat
        }
    }
}

/// Node `k` names the winning leader: a non-empty leader URL with the most
/// votes, and the first node in the list to name such a URL.
pub open spec fn names_winner(nodes: Seq<NodeData>, k: int) -> bool {
    &&& 0 <= k < nodes.len()
    &&& nodes[k].leader_url@.len() > 0
    &&& forall|j: int|
        0 <= j < nodes.len() && nodes[j].leader_url@.len() > 0 ==> votes_for(nodes, #[trigger] nodes[j].leader_url@)
            <= votes_for(nodes, nodes[k].leader_url@)
    &&& forall|j: int|
        0 <= j < k && nodes[j].leader_url@.len() > 0 ==> votes_for(nodes, #[trigger] nodes[j].leader_url@)
            < votes_for(nodes, nodes[k].leader_url@)
}

/// The host of the last node that follows `w` and reports itself as the
/// active leader.
pub open spec fn leader_host_of(nodes: Seq<NodeData>, w: Seq<char>) -> Option<Seq<char>>
    decreases nodes.len(),
{
    if nodes.len() == 0 {
        None
    } else if nodes.last().leader_url@ == w && nodes.last().health@ == "active_leader"@ {
        Some(nodes.last().host@)
    } else {
        leader_host_of(nodes.drop_last(), w)
    }
}

/// The hosts of the nodes that follow `w` and report themselves as active
/// followers, in order.
pub open spec fn follower_hosts_of(nodes: Seq<NodeData>, w: Seq<char>) -> Seq<Seq<char>>
    decreases nodes.len(),
{
    if nodes.len() == 0 {
        Seq::empty()
    } else {
        let prev = follower_hosts_of(nodes.drop_last(), w);
        if nodes.last().leader_url@ == w && nodes.last().health@ == "active_follower"@ {
            prev.push(nodes.last().host@)
        } else {
            prev
        }
    }
}

/// The leader host and the follower hosts chosen from the nodes' reports;
/// `None` when no node names a leader or the winner has no active leader.
pub open spec fn election(nodes: Seq<NodeData>) -> Option<(Seq<char>, Seq<Seq<char>>)> {
    if exists|k: int| names_winner(nodes, k) {
        let k = choose|k: int| names_winner(nodes, k);
        let w = nodes[k].leader_url@;
        match leader_host_of(nodes, w) {
            Some(h) => Some((h, follower_hosts_of(nodes, w))),
            None => None,
        }
    } else {
        None
    }
}

/// At most one node names the winner.
proof fn lemma_winner_unique(nodes: Seq<NodeData>, a: int, b: int)
    requires
        names_winner(nodes, a),
        names_winner(nodes, b),
    ensures
        a == b,
{
    if a < b {
        assert(votes_for(nodes, nodes[a].leader_url@) < votes_for(nodes, nodes[b].leader_url@));
        assert(votes_for(nodes, nodes[b].leader_url@) <= votes_for(nodes, nodes[a].leader_url@));
    } else if b < a {
        assert(votes_for(nodes, nodes[b].leader_url@) < votes_for(nodes, nodes[a].leader_url@));
        assert(votes_for(nodes, nodes[a].leader_url@) <= votes_for(nodes, nodes[b].leader_url@));
    }
}

/// The number of nodes that follow `url`.
fn count_votes(nodes: &Vec<NodeData>, url: &String) -> (r: usize)
    ensures
        r == votes_for(nodes@, url@),
{
    let mut n: usize = 0;
    let mut i: usize = 0;
    while i < nodes.len()
        invariant
            i <= nodes@.len(),
            n == votes_for(nodes@.subrange(0, i as int), url@),
            n <= i,
        decreases nodes@.len() - i,
    {
        assert(nodes@.subrange(0, i + 1).drop_last() =~= nodes@.subrange(0, i as int));
        if nodes[i].leader_url == *url {
            n = n + 1;
        }
        i = i + 1;
    }
    assert(nodes@.subrange(0, nodes@.len() as int) =~= nodes@);
    n
}

/// Chooses the leader from what the reachable nodes report: the leader URL
/// named by most nodes wins (on a tie, the one named first), its active
/// leader is the leader host and its active followers are the followers.
pub fn elect_leader(nodes: &Vec<NodeData>) -> (r: Result<(String, Vec<String>), ClusterError>)
    ensures
        match election(nodes@) {
            Some((h, fs)) => r matches Ok((leader, followers)) && leader@ == h && string_texts(followers@)
                == fs,
            None => r == Err::<(String, Vec<String>), ClusterError>(ClusterError::NoLeaderAvailable),
        },
{
    let n = nodes.len();
    let mut best: Option<(usize, usize)> = None;
    let mut i: usize = 0;
    while i < n
        invariant
            n == nodes@.len(),
            i <= n,
            match best {
                None => forall|j: int| 0 <= j < i ==> nodes@[j].leader_url@.len() == 0,
                Some((k, c)) => {
                    &&& k < i
                    &&& nodes@[k as int].leader_url@.len() > 0
                    &&& c == votes_for(nodes@, nodes@[k as int].leader_url@)
                    &&& forall|j: int|
                        0 <= j < i && nodes@[j].leader_url@.len() > 0 ==> votes_for(
                            nodes@,
                            #[trigger] nodes@[j].leader_url@,
                        ) <= c
                    &&& forall|j: int|
                        0 <= j < k && nodes@[j].leader_url@.len() > 0 ==> votes_for(
                            nodes@,
                            #[trigger] nodes@[j].leader_url@,
                        ) < c
                },
            },
        decreases n - i,
    {
        if !nodes[i].leader_url.as_str().is_empty() {
            let c = count_votes(nodes, &nodes[i].leader_url);
            match best {
                None => {
                    best = Some((i, c));
                },
                Some((_, bc)) => {
                    if c > bc {
                        best = Some((i, c));
                    }
                },
            }
        }
        i = i + 1;
    }
    let k = match best {
        None => {
            proof {
                assert(!exists|k: int| names_winner(nodes@, k));
            }
            return Err(ClusterError::NoLeaderAvailable);
        },
        Some((k, _)) => k,
    };
    proof {
        assert(names_winner(nodes@, k as int));
        let c = choose|k: int| names_winner(nodes@, k);
        lemma_winner_unique(nodes@, c, k as int);
    }
    let w = &nodes[k].leader_url;
    let mut leader: Option<String> = None;
    let mut followers: Vec<String> = Vec::new();
    let mut j: usize = 0;
    while j < n
        invariant
            n == nodes@.len(),
            j <= n,
            k < n,
            w@ == nodes@[k as int].leader_url@,
            match leader {
                Some(h) => leader_host_of(nodes@.subrange(0, j as int), w@) == Some(h@),
                None => leader_host_of(nodes@.subrange(0, j as int), w@) is None,
            },
            string_texts(followers@) == follower_hosts_of(nodes@.subrange(0, j as int), w@),
        decreases n - j,
    {
        let ghost prefix = nodes@.subrange(0, j + 1);
        assert(prefix.drop_last() =~= nodes@.subrange(0, j as int));
        proof {
            reveal_strlit("active_leader");
            reveal_strlit("active_follower");
            assert("active_leader"@ != "active_follower"@) by {
                assert("active_leader"@[7] != "active_follower"@[7]);
            }
        }
        let node = &nodes[j];
        if node.leader_url == *w {
            if same_text(node.health.as_str(), "active_leader") {
                leader = Some(node.host.clone());
            } else if same_text(node.health.as_str(), "active_follower") {
                followers.push(node.host.clone());
                assert(string_texts(followers@) =~= follower_hosts_of(prefix, w@));
            }
        }
        j = j + 1;
    }
    assert(nodes@.subrange(0, n as int) =~= nodes@);
    match leader {
        Some(h) => Ok((h, followers)),
        None => Err(ClusterError::NoLeaderAvailable),
    }
}

} // verus!

verus! {

/// The address of node `id` in a discovery list: the last entry with that
/// id (a later entry replaces an earlier one), with `default_port` when the
/// entry names no port.
pub open spec fn address_in(nodes: Seq<NodeAddr>, id: Seq<char>, default_port: u32) -> Option<(Seq<char>, u32)>
    decreases nodes.len(),
{
    if nodes.len() == 0 {
        None
    } else if nodes.last().node_id@ == id {
        Some(
            (
                nodes.last().addr@,
                match nodes.last().port {
                    Some(p) => p,
                    None => default_port,
                },
            ),
        )
    } else {
        address_in(nodes.drop_last(), id, default_port)
    }
}

/// Looks up the address of a node in the discovery list.
pub fn node_address(nodes: &Vec<NodeAddr>, node_id: &str, default_port: u32) -> (r: Option<(String, u32)>)
    ensures
        match address_in(nodes@, node_id@, default_port) {
            Some((a, p)) => r matches Some((addr, port)) && addr@ == a && port == p,
            None => r is None,
        },
{
    let mut i = nodes.len();
    assert(nodes@.subrange(0, i as int) =~= nodes@);
    while i > 0
        invariant
            i <= nodes@.len(),
            address_in(nodes@, node_id@, default_port) == address_in(nodes@.subrange(0, i as int), node_id@, default_port),
        decreases i,
    {
        let node = &nodes[i - 1];
        proof {
            let p = nodes@.subrange(0, i as int);
            assert(p.drop_last() =~= nodes@.subrange(0, i - 1));
            assert(p.last() == nodes@[i - 1]);
        }
        if same_text(node.node_id.as_str(), node_id) {
            let port = match node.port {
                Some(p) => p,
                None => default_port,
            };
            return Some((node.addr.clone(), port));
        }
        i = i - 1;
    }
    None
}

/// `r` is node `n` with its port set, `default_port` when it named none.
pub open spec fn port_resolved(r: NodeAddr, n: NodeAddr, default_port: u32) -> bool {
    &&& r.node_id@ == n.node_id@
    &&& r.addr@ == n.addr@
    &&& r.port == Some(
        match n.port {
            Some(p) => p,
            None => default_port,
        },
    )
}

/// The discovery list with every missing port set to `default_port`.
pub fn with_default_ports(nodes: Vec<NodeAddr>, default_port: u32) -> (r: Vec<NodeAddr>)
    ensures
        r@.len() == nodes@.len(),
        forall|i: int| 0 <= i < nodes@.len() ==> port_resolved(#[trigger] r@[i], nodes@[i], default_port),
{
    let mut out: Vec<NodeAddr> = Vec::new();
    let mut i: usize = 0;
    while i < nodes.len()
        invariant
            i <= nodes@.len(),
            out@.len() == i,
            forall|k: int| 0 <= k < i ==> port_resolved(#[trigger] out@[k], nodes@[k], default_port),
        decreases nodes@.len() - i,
    {
        let n = &nodes[i];
        let port = match n.port {
            Some(p) => p,
            None => default_port,
        };
        let id = n.node_id.clone();
        let addr = n.addr.clone();
        let ghost before = out@;
        out.push(NodeAddr { node_id: id, addr, port: Some(port) });
        assert(port_resolved(out@[i as int], nodes@[i as int], default_port));
        assert forall|k: int| 0 <= k < i + 1 implies port_resolved(#[trigger] out@[k], nodes@[k], default_port) by {
            if k < i {
                assert(out@[k] == before[k]);
            }
        }
        i = i + 1;
    }
    out
}

} // verus!

verus! {

/// The host found as leader reported itself as the active leader of `w`.
proof fn lemma_leader_host_reported(nodes: Seq<NodeData>, w: Seq<char>)
    ensures
        leader_host_of(nodes, w) matches Some(h) ==> exists|i: int|
            0 <= i < nodes.len() && #[trigger] nodes[i].host@ == h && nodes[i].leader_url@ == w
                && nodes[i].health@ == "active_leader"@,
    decreases nodes.len(),
{
    if nodes.len() > 0 {
        lemma_leader_host_reported(nodes.drop_last(), w);
        if let Some(h) = leader_host_of(nodes.drop_last(), w) {
            if !(nodes.last().leader_url@ == w && nodes.last().health@ == "active_leader"@) {
                let i = choose|i: int|
                    0 <= i < nodes.drop_last().len() && #[trigger] nodes.drop_last()[i].host@ == h
                        && nodes.drop_last()[i].leader_url@ == w && nodes.drop_last()[i].health@ == "active_leader"@;
                assert(nodes[i] == nodes.drop_last()[i]);
            }
        }
        if nodes.last().leader_url@ == w && nodes.last().health@ == "active_leader"@ {
            assert(nodes[nodes.len() - 1] == nodes.last());
        }
    }
}

/// Follower `k` found reported itself as an active follower of `w`.
proof fn lemma_follower_reported(nodes: Seq<NodeData>, w: Seq<char>, k: int)
    requires
        0 <= k < follower_hosts_of(nodes, w).len(),
    ensures
        exists|i: int|
            0 <= i < nodes.len() && #[trigger] nodes[i].host@ == follower_hosts_of(nodes, w)[k]
                && nodes[i].leader_url@ == w && nodes[i].health@ == "active_follower"@,
    decreases nodes.len(),
{
    let p = nodes.drop_last();
    let fs = follower_hosts_of(nodes, w);
    if k < follower_hosts_of(p, w).len() {
        lemma_follower_reported(p, w, k);
        assert(fs[k] == follower_hosts_of(p, w)[k]);
        let i = choose|i: int|
            0 <= i < p.len() && #[trigger] p[i].host@ == follower_hosts_of(p, w)[k] && p[i].leader_url@ == w
                && p[i].health@ == "active_follower"@;
        assert(nodes[i] == p[i]);
        assert(nodes[i].host@ == fs[k]);
    } else {
        let last = nodes.last();
        assert(last.leader_url@ == w && last.health@ == "active_follower"@);
        assert(fs[k] == last.host@);
        let i = nodes.len() - 1;
        assert(nodes[i] == last);
        assert(nodes[i].host@ == fs[k]);
    }
}

/// The chosen leader follows the URL that most nodes name and reports
/// itself as that URL's active leader; every chosen follower reports itself
/// as an active follower of the same URL.
pub proof fn law_election_reports(nodes: Seq<NodeData>)
    ensures
        election(nodes) matches Some((h, fs)) ==> exists|k: int| {
            &&& #[trigger] names_winner(nodes, k)
            &&& exists|i: int|
                0 <= i < nodes.len() && #[trigger] nodes[i].host@ == h && nodes[i].leader_url@ == nodes[k].leader_url@
                    && nodes[i].health@ == "active_leader"@
            &&& forall|m: int|
                #![trigger fs[m]]
                0 <= m < fs.len() ==> exists|i: int|
                    0 <= i < nodes.len() && #[trigger] nodes[i].host@ == fs[m] && nodes[i].leader_url@
                        == nodes[k].leader_url@ && nodes[i].health@ == "active_follower"@
        },
{
    if exists|k: int| names_winner(nodes, k) {
        let k = choose|k: int| names_winner(nodes, k);
        let w = nodes[k].leader_url@;
        lemma_leader_host_reported(nodes, w);
        let fs = follower_hosts_of(nodes, w);
        assert forall|m: int| #![trigger fs[m]] 0 <= m < fs.len() implies exists|i: int|
            0 <= i < nodes.len() && #[trigger] nodes[i].host@ == fs[m] && nodes[i].leader_url@ == w
                && nodes[i].health@ == "active_follower"@ by {
            lemma_follower_reported(nodes, w, m);
        }
    }
}

} // verus!
