use paxos_replication::follower::{
    announce, check_heartbeat, claim_leadership, claim_leadership_now, handle_message,
    leader_is_stale, watch_heartbeat, FollowerAction, Heartbeat,
};
use paxos_replication::types::PaxosMessage;

const LEADER: &str = "127.0.0.1:8080";

#[test]
fn request_from_the_leader_is_acknowledged() {
    let request = PaxosMessage::ClientRequest { request_id: 5, payload: b"hello".to_vec() };
    assert_eq!(
        handle_message(request, LEADER, LEADER),
        FollowerAction::Acknowledge { ack: PaxosMessage::FollowerAck { request_id: 5 } }
    );
}

#[test]
fn request_from_elsewhere_is_forwarded_unchanged() {
    let request = PaxosMessage::ClientRequest { request_id: 5, payload: b"hello".to_vec() };
    assert_eq!(
        handle_message(request.clone(), "127.0.0.1:8000", LEADER),
        FollowerAction::Forward { request }
    );
}

#[test]
fn other_messages_are_ignored() {
    assert_eq!(
        handle_message(PaxosMessage::FollowerAck { request_id: 5 }, LEADER, LEADER),
        FollowerAction::Ignore
    );
    assert_eq!(
        handle_message(
            PaxosMessage::RegisterFollower { follower_addr: "x".to_string() },
            "127.0.0.1:9",
            LEADER
        ),
        FollowerAction::Ignore
    );
}

#[test]
fn follower_announces_itself_twice() {
    let announcement = announce("127.0.0.1:8081");
    assert_eq!(
        announcement.to_leader,
        PaxosMessage::RegisterFollower { follower_addr: "127.0.0.1:8081".to_string() }
    );
    assert_eq!(announcement.to_dispatcher, "register:127.0.0.1:8081");
}

#[test]
fn heartbeat_is_stale_after_four_seconds() {
    assert!(!leader_is_stale(100, 100));
    assert!(!leader_is_stale(100, 104));
    assert!(leader_is_stale(100, 105));
    assert!(!leader_is_stale(100, 50));
    assert!(leader_is_stale(i64::MIN, i64::MAX));
    assert!(!leader_is_stale(i64::MAX, i64::MIN));
    assert!(leader_is_stale(0, 5));
    assert!(!leader_is_stale(0, 4));
}

#[test]
fn heartbeat_record_is_read() {
    assert_eq!(
        check_heartbeat(b"node-1:1000", 1004),
        Heartbeat::Active { leader: b"node-1".to_vec() }
    );
    assert_eq!(check_heartbeat(b"node-1:1000", 1005), Heartbeat::Stale);
    assert_eq!(check_heartbeat(b":7", 7), Heartbeat::Active { leader: Vec::new() });
    assert_eq!(check_heartbeat(b"n:-3", 1), Heartbeat::Active { leader: b"n".to_vec() });
    assert_eq!(check_heartbeat(b"n:-3", 2), Heartbeat::Stale);
    assert_eq!(check_heartbeat(b"n:+3", 7), Heartbeat::Active { leader: b"n".to_vec() });
}

#[test]
fn heartbeat_without_a_readable_time_counts_from_zero() {
    assert_eq!(check_heartbeat(b"n:soon", 4), Heartbeat::Active { leader: b"n".to_vec() });
    assert_eq!(check_heartbeat(b"n:soon", 5), Heartbeat::Stale);
    assert_eq!(check_heartbeat(b"n:", 5), Heartbeat::Stale);
    assert_eq!(check_heartbeat(b"n: 9", 100), Heartbeat::Stale);
    assert_eq!(check_heartbeat(&[b'n', b':', 0xff], 5), Heartbeat::Stale);
    assert_eq!(check_heartbeat(b"n:99999999999999999999", 5), Heartbeat::Stale);
}

#[test]
fn heartbeat_with_other_than_one_colon_is_unreadable() {
    assert_eq!(check_heartbeat(b"", 10), Heartbeat::Unreadable);
    assert_eq!(check_heartbeat(b"node-1", 10), Heartbeat::Unreadable);
    assert_eq!(check_heartbeat(b"a:b:3", 10), Heartbeat::Unreadable);
    assert_eq!(check_heartbeat(b"::", 10), Heartbeat::Unreadable);
}

#[test]
fn leadership_claim_is_identifier_colon_time() {
    assert_eq!(
        claim_leadership(0x67e5_5044_10b1_426f_9247_bb68_0e5f_e0c8, 1700000000),
        "67e55044-10b1-426f-9247-bb680e5fe0c8:1700000000"
    );
    assert_eq!(claim_leadership(0, -5), "00000000-0000-0000-0000-000000000000:-5");
    assert_eq!(
        claim_leadership(1, i64::MIN),
        "00000000-0000-0000-0000-000000000001:-9223372036854775808"
    );
}

#[test]
fn own_claim_reads_as_active() {
    let record = claim_leadership(77, 500);
    assert_eq!(
        check_heartbeat(record.as_bytes(), 503),
        Heartbeat::Active { leader: b"00000000-0000-0000-0000-00000000004d".to_vec() }
    );
    assert_eq!(check_heartbeat(record.as_bytes(), 505), Heartbeat::Stale);
}

#[test]
fn heartbeat_is_read_against_the_clock() {
    assert_eq!(watch_heartbeat(b"n:0"), Heartbeat::Stale);
    assert_eq!(watch_heartbeat(b"n:1000000000"), Heartbeat::Stale);
    assert_eq!(
        watch_heartbeat(b"n:9223372036854775807"),
        Heartbeat::Active { leader: b"n".to_vec() }
    );
    assert_eq!(watch_heartbeat(b"no colon"), Heartbeat::Unreadable);
}

#[test]
fn claim_made_now_is_fresh() {
    let record = claim_leadership_now(5);
    assert!(record.starts_with("00000000-0000-0000-0000-000000000005:"));
    let time: i64 = record["00000000-0000-0000-0000-000000000005:".len()..].parse().unwrap();
    assert!(time > 1_600_000_000);
    assert_eq!(
        watch_heartbeat(record.as_bytes()),
        Heartbeat::Active { leader: b"00000000-0000-0000-0000-000000000005".to_vec() }
    );
    assert_eq!(check_heartbeat(record.as_bytes(), time + 4), watch_heartbeat(record.as_bytes()));
    assert_eq!(check_heartbeat(record.as_bytes(), time + 5), Heartbeat::Stale);
}
