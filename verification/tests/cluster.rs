use rzgate::config::Mode;
use rzgate::discovery::{elect_leader, split_ids, ClusterError, NodeData};
use rzgate::error::RZError;
use rzgate::handler::{
    after_failure, check_payload, closes_connection, frame_request, next_codecs_backoff, pick_connection, Failure,
    RetryStep,
};
use rzgate::protocol::{prepend_header, prepend_router_header};

#[test]
fn seed_ids() {
    assert_eq!(split_ids(" n1, n2 ,,n3 "), vec!["n1", "n2", "n3"]);
    assert_eq!(split_ids(""), Vec::<String>::new());
    assert_eq!(split_ids(" , \t,"), Vec::<String>::new());
    assert_eq!(split_ids("solo"), vec!["solo"]);
}

fn node(host: &str, health: &str, leader: &str) -> NodeData {
    NodeData { host: host.to_string(), health: health.to_string(), leader_url: leader.to_string() }
}

#[test]
fn leader_by_votes() {
    let nodes = vec![
        node("a", "active_follower", "L2"),
        node("b", "active_leader", "L1"),
        node("c", "active_follower", "L1"),
        node("d", "active_follower", "L1"),
        node("e", "active_leader", "L2"),
        node("f", "syncing", "L1"),
    ];
    let (leader, followers) = elect_leader(&nodes).unwrap();
    assert_eq!(leader, "b");
    assert_eq!(followers, vec!["c", "d"]);
}

#[test]
fn leader_ties_and_failures() {
    // a tie goes to the URL named first
    let nodes = vec![node("x", "active_leader", "L2"), node("y", "active_leader", "L1")];
    assert_eq!(elect_leader(&nodes).unwrap().0, "x");
    assert!(matches!(elect_leader(&vec![]), Err(ClusterError::NoLeaderAvailable)));
    let no_url = vec![node("x", "active_leader", "")];
    assert!(matches!(elect_leader(&no_url), Err(ClusterError::NoLeaderAvailable)));
    let no_leader = vec![node("x", "active_follower", "L1")];
    assert!(matches!(elect_leader(&no_leader), Err(ClusterError::NoLeaderAvailable)));
}

#[test]
fn round_robin_connections() {
    let usable = vec![true, false, true];
    assert_eq!(pick_connection(&usable, 0), (Some(0), 1));
    assert_eq!(pick_connection(&usable, 1), (Some(2), 0));
    assert_eq!(pick_connection(&usable, 2), (Some(2), 0));
    assert_eq!(pick_connection(&vec![false, false], 1), (None, 1));
    assert_eq!(pick_connection(&vec![], 0), (None, 0));
}

#[test]
fn retries_give_up_at_the_third_failure() {
    match after_failure(0, Failure::NoConnection, "10.0.0.1") {
        RetryStep::Retry { attempts, delay_ms } => {
            assert_eq!(attempts, 1);
            assert_eq!(delay_ms, 100);
        }
        _ => panic!("expected a retry"),
    }
    match after_failure(1, Failure::NoAnswer, "10.0.0.1") {
        RetryStep::Retry { attempts, delay_ms } => {
            assert_eq!(attempts, 2);
            assert_eq!(delay_ms, 150);
        }
        _ => panic!("expected a retry"),
    }
    match after_failure(2, Failure::NoConnection, "10.0.0.1") {
        RetryStep::GiveUp(RZError::RoomzinUnreachable(a)) => assert_eq!(a, "10.0.0.1"),
        _ => panic!("expected to give up"),
    }
    assert!(matches!(after_failure(2, Failure::NoAnswer, "x"), RetryStep::GiveUp(RZError::Timeout)));
}

#[test]
fn framing_by_mode() {
    let p = [1u8, 2, 3];
    assert_eq!(frame_request(Mode::Standalone, "s", true, 9, &p), Some(prepend_header(9, &p)));
    assert_eq!(frame_request(Mode::Router, "s", true, 9, &p), Some(prepend_router_header("s", true, 9, &p)));
    assert!(check_payload(&[]).is_err());
    assert!(check_payload(&p).is_ok());
}

#[test]
fn closing_answers() {
    let mut e = vec![5];
    e.extend_from_slice(b"ERROR");
    e.extend_from_slice(&[1, 0]);
    for (code, closes) in [(b"308", true), (b"405", true), (b"503", true), (b"429", false), (b"404", false)] {
        let mut p = e.clone();
        p.extend_from_slice(code);
        assert_eq!(closes_connection(&p), closes);
    }
    let mut ok = vec![7];
    ok.extend_from_slice(b"SUCCESS");
    ok.extend_from_slice(&[0, 0, b'5', b'0', b'3']);
    assert!(!closes_connection(&ok));
    assert!(!closes_connection(&[]));
}

#[test]
fn codecs_backoff() {
    assert_eq!(next_codecs_backoff(1), 2);
    assert_eq!(next_codecs_backoff(2), 4);
    assert_eq!(next_codecs_backoff(4), 5);
    assert_eq!(next_codecs_backoff(5), 5);
}
