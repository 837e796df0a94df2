use rzgate::cluster::{
    assign_follower_slots, is_leader_change, leader_reconnect_slots, needs_cluster_sync, next_follower_slot,
    next_leader_slot, pick_cluster_connection, plan_follower_sync, ClusterChoice, FollowerConn, FollowerKey, HistoryEntry, SlotState,
};
use rzgate::demux::DemuxMap;
use rzgate::discovery::{node_address, with_default_ports, NodeAddr};

fn key(node: &str, node_idx: u32, conn_idx: u32) -> FollowerKey {
    FollowerKey { node: node.to_string(), node_idx, conn_idx }
}

fn conn(node: &str, node_idx: u32, conn_idx: u32, closed: bool) -> FollowerConn {
    FollowerConn { key: key(node, node_idx, conn_idx), closed }
}

fn strings(v: &[&str]) -> Vec<String> {
    v.iter().map(|s| s.to_string()).collect()
}

#[test]
fn leader_slot_choice() {
    let slots = vec![SlotState::Open, SlotState::Closed, SlotState::Empty, SlotState::Open];
    // after slot 0 comes slot 1 (closed, cleaned up), 2 (empty), then 3
    let p = next_leader_slot(&slots, 4, 0);
    assert_eq!(p.slot, Some(3));
    assert_eq!(p.last_leader_id, 3);
    assert_eq!(p.cleanup, vec![1]);
    // after the last slot the walk wraps to 0
    let p = next_leader_slot(&slots, 4, 3);
    assert_eq!(p.slot, Some(0));
    assert!(p.cleanup.is_empty());
    // nothing connected: no choice, nothing cleaned
    let p = next_leader_slot(&vec![SlotState::Empty, SlotState::Empty], 2, 0);
    assert_eq!(p.slot, None);
    assert_eq!(p.last_leader_id, 0);
    let p = next_leader_slot(&vec![SlotState::Closed, SlotState::Closed], 2, 1);
    assert_eq!(p.slot, None);
    assert_eq!(p.cleanup, vec![0, 1]);
}

#[test]
fn leader_reconnects_count_from_zero() {
    assert_eq!(leader_reconnect_slots(&vec![SlotState::Open, SlotState::Closed, SlotState::Empty, SlotState::Open]), vec![0, 1]);
    assert_eq!(leader_reconnect_slots(&vec![SlotState::Open, SlotState::Open]), Vec::<usize>::new());
    assert!(is_leader_change(Some("a:1"), "b:1"));
    assert!(!is_leader_change(Some("a:1"), "a:1"));
    assert!(!is_leader_change(None, "a:1"));
    assert!(needs_cluster_sync(false, true));
    assert!(needs_cluster_sync(true, false));
    assert!(!needs_cluster_sync(true, true));
}

#[test]
fn follower_sync_plan() {
    let keys = vec![key("n1", 0, 0), key("gone", 1, 0), key("n1", 0, 1), key("n2", 2, 0)];
    let plan = plan_follower_sync(&keys, &strings(&["n1", "n2", "n3"]), 3);
    assert_eq!(plan.keep, vec![true, false, true, true]);
    assert_eq!(plan.removed, 1);
    let mut req = plan.required.clone();
    req.sort();
    assert_eq!(req, vec![("n1".to_string(), 1), ("n2".to_string(), 2), ("n3".to_string(), 3)]);
    // nodes already full need nothing
    let full = plan_follower_sync(&vec![key("n1", 0, 0)], &strings(&["n1"]), 1);
    assert!(full.required.is_empty());
}

#[test]
fn follower_slot_assignment() {
    let existing = vec![conn("n1", 1, 0, false), conn("n1", 1, 1, true), conn("n2", 0, 0, false)];
    let history = vec![("n3".to_string(), 5)];
    let new_conns = vec![("n1".to_string(), 2), ("n2".to_string(), 1), ("n3".to_string(), 1), ("n4".to_string(), 1)];
    let slots = assign_follower_slots(&existing, &history, &new_conns, 3, 4);
    let got: Vec<(String, u32, u32)> = slots.iter().map(|a| (a.node.clone(), a.node_idx, a.conn_idx)).collect();
    assert_eq!(
        got,
        vec![
            // n1 keeps node index 1; connection 0 is open, 1 is closed and reused
            ("n1".to_string(), 1, 1),
            ("n1".to_string(), 1, 2),
            // n2's node index is 0, so it is looked up like a new node and
            // takes the highest free node index (free: 2, 3)
            ("n2".to_string(), 3, 1),
            // n3 takes the index its history records
            ("n3".to_string(), 5, 0),
            // n4 takes the next free node index
            ("n4".to_string(), 2, 0),
        ]
    );
}

#[test]
fn follower_round_robin() {
    let history = vec![
        HistoryEntry { node: "n1".to_string(), node_idx: 0, next_conn: 0 },
        HistoryEntry { node: "n2".to_string(), node_idx: 1, next_conn: 1 },
    ];
    let conns = vec![conn("n1", 0, 0, false), conn("n2", 1, 1, true), conn("n2", 1, 0, false)];
    // after node 0 comes node 1: connection 1 is closed, then 0 is open
    let (pick, next) = next_follower_slot(&history, &conns, 2, 0);
    assert_eq!(pick.chosen, Some((1, 0)));
    assert_eq!(pick.last_node_id, 1);
    assert_eq!(pick.closed, vec![(1, 1)]);
    assert_eq!(next, Some(1));
    // after node 1 the walk wraps to node 0
    let (pick, next) = next_follower_slot(&history, &conns, 2, 1);
    assert_eq!(pick.chosen, Some((0, 0)));
    assert_eq!(next, Some(1));
    // no history: nothing
    let (pick, next) = next_follower_slot(&vec![], &conns, 2, 0);
    assert_eq!(pick.chosen, None);
    assert_eq!(next, None);
}

#[test]
fn demux_table() {
    let mut m: DemuxMap<&str> = DemuxMap::new();
    m.store(1, "a", 100);
    m.store(2, "b", 200);
    m.store(1, "c", 300);
    assert_eq!(m.len(), 2);
    assert_eq!(m.load_remove(1), Some(("c", 300)));
    assert_eq!(m.load_remove(1), None);
    m.store(3, "d", 50);
    // sent at 50 and 200; now 260, max age 100: only the first expired
    let expired = m.cleanup(260, 100);
    assert_eq!(expired, vec!["d"]);
    assert_eq!(m.len(), 1);
    assert_eq!(m.load_remove(2), Some(("b", 200)));
    // an age beyond the clock's start expires nothing
    m.store(4, "e", 0);
    assert!(m.cleanup(10, 100).is_empty());
}

#[test]
fn discovery_lookup() {
    let nodes = vec![
        NodeAddr { node_id: "a".to_string(), addr: "10.0.0.1".to_string(), port: None },
        NodeAddr { node_id: "b".to_string(), addr: "10.0.0.2".to_string(), port: Some(9000) },
        NodeAddr { node_id: "a".to_string(), addr: "10.0.0.3".to_string(), port: None },
    ];
    assert_eq!(node_address(&nodes, "a", 7777), Some(("10.0.0.3".to_string(), 7777)));
    assert_eq!(node_address(&nodes, "b", 7777), Some(("10.0.0.2".to_string(), 9000)));
    assert_eq!(node_address(&nodes, "c", 7777), None);
    let resolved = with_default_ports(nodes, 7000);
    let ports: Vec<Option<u32>> = resolved.iter().map(|n| n.port).collect();
    assert_eq!(ports, vec![Some(7000), Some(9000), Some(7000)]);
}

#[test]
fn cluster_retries() {
    use_cluster_steps();
}

fn use_cluster_steps() {
    assert_eq!(
        rzgate::cluster::cluster_after_failure(0, true, true),
        rzgate::cluster::ClusterStep::Retry { attempts: 1, delay_ms: 100 }
    );
    assert_eq!(
        rzgate::cluster::cluster_after_failure(2, true, true),
        rzgate::cluster::ClusterStep::GiveUp(rzgate::cluster::ClusterGiveUp::NoLeaderAvailable)
    );
    assert_eq!(
        rzgate::cluster::cluster_after_failure(2, false, true),
        rzgate::cluster::ClusterStep::GiveUp(rzgate::cluster::ClusterGiveUp::NoFollowerNodeAvailable)
    );
    assert_eq!(
        rzgate::cluster::cluster_after_failure(2, false, false),
        rzgate::cluster::ClusterStep::GiveUp(rzgate::cluster::ClusterGiveUp::Timeout)
    );
}

#[test]
fn bench_totals() {
    let mut b = rzgate::bench::BenchResult::new();
    assert_eq!(b.totals(), (0, 0));
    b.record("SETPROP", 1_500, 10);
    b.record("SEARCHAVAIL", 2_500, 5);
    assert_eq!(b.timings.len(), 2);
    assert_eq!(b.timings[1].name, "SEARCHAVAIL");
    assert_eq!(b.totals(), (4_000, 15));
}

#[test]
fn writes_go_to_leaders_and_reads_to_followers() {
    let slots = vec![SlotState::Open, SlotState::Open];
    let history = vec![HistoryEntry { node: "n1".to_string(), node_idx: 0, next_conn: 0 }];
    let conns = vec![conn("n1", 0, 0, false)];
    match pick_cluster_connection(true, &slots, 0, &history, &conns, 2, 0) {
        ClusterChoice::Leader(p) => assert_eq!(p.slot, Some(1)),
        ClusterChoice::Follower(..) => panic!("a write must go to a leader"),
    }
    match pick_cluster_connection(false, &slots, 0, &history, &conns, 2, 0) {
        ClusterChoice::Follower(p, next) => {
            assert_eq!(p.chosen, Some((0, 0)));
            assert_eq!(next, Some(1));
        }
        ClusterChoice::Leader(_) => panic!("a read must go to a follower"),
    }
}
