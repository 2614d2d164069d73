//! The follower's engine.
//!
//! A follower acknowledges what the coordinator sends it, passes on to the
//! coordinator what reaches it from anybody else, and watches the
//! coordinator's heartbeat.

use crate::ids::{hyphenated_text, request_id_text};
use crate::load_balancer::{registration_message, registration_text};
use crate::text::{
    parse_i64, parsed_i64, same_text, signed_decimal_digits, signed_decimal_text, text_from_utf8,
};
use crate::types::{MessageView, PaxosMessage};
use vstd::prelude::*;
use vstd::slice::{slice_subrange, slice_to_vec};
use vstd::utf8::*;

verus! {

/// What the follower asks of its caller.
pub enum FollowerActionView {
    Acknowledge { ack: MessageView },
    Forward { request: MessageView },
    Ignore,
}

/// The step taken when `message` arrives from `source`, while the
/// coordinator serves on `leader`.
pub open spec fn follower_step(message: MessageView, source: Seq<char>, leader: Seq<char>) -> FollowerActionView {
    match message {
        MessageView::ClientRequest { request_id, payload } => if source == leader {
            FollowerActionView::Acknowledge { ack: MessageView::FollowerAck { request_id } }
        } else {
            FollowerActionView::Forward { request: message }
        },
        _ => FollowerActionView::Ignore,
    }
}

/// What the follower asks of its caller after a message.
#[derive(Debug, Clone, PartialEq, Eq)]
pub enum FollowerAction {
    /// The coordinator sent a request: `ack` goes back to the coordinator.
    Acknowledge { ack: PaxosMessage },
    /// Somebody else sent a request: `request`, unchanged, goes to the
    /// coordinator and is not acknowledged.
    Forward { request: PaxosMessage },
    /// The message needs no answer.
    Ignore,
}

impl View for FollowerAction {
    type V = FollowerActionView;

    open spec fn view(&self) -> FollowerActionView {
        match *self {
            FollowerAction::Acknowledge { ack } => FollowerActionView::Acknowledge { ack: ack@ },
            FollowerAction::Forward { request } => FollowerActionView::Forward {
                request: request@,
            },
            FollowerAction::Ignore => FollowerActionView::Ignore,
        }
    }
}

/// Takes in a message that arrived from `source`, while the coordinator
/// serves on `leader_addr`.
pub fn handle_message(message: PaxosMessage, source: &str, leader_addr: &str) -> (action:
    FollowerAction)
    ensures
        action@ == follower_step(message@, source@, leader_addr@),
{
    match message {
        PaxosMessage::ClientRequest { request_id, payload } => {
            if same_text(source, leader_addr) {
                FollowerAction::Acknowledge { ack: PaxosMessage::FollowerAck { request_id } }
            } else {
                FollowerAction::Forward {
                    request: PaxosMessage::ClientRequest { request_id, payload },
                }
            }
        },
        _ => FollowerAction::Ignore,
    }
}

/// What a follower sends when it starts: a registration to the coordinator
/// and a registration text to the dispatcher.
#[derive(Debug, Clone, PartialEq, Eq)]
pub struct Announcement {
    pub to_leader: PaxosMessage,
    pub to_dispatcher: String,
}

/// Builds the registrations of the follower that listens on
/// `follower_addr`.
pub fn announce(follower_addr: &str) -> (announcement: Announcement)
    ensures
        announcement.to_leader@ == (MessageView::RegisterFollower {
            follower_addr: follower_addr@,
        }),
        announcement.to_dispatcher@ == registration_text(follower_addr@),
{
    Announcement {
        to_leader: PaxosMessage::RegisterFollower { follower_addr: String::from_str(follower_addr) },
        to_dispatcher: registration_message(follower_addr),
    }
}

/// How often a follower reads the heartbeat record, in seconds.
pub const HEARTBEAT_TICK_SECS: u64 = 3;

/// The age in seconds beyond which a heartbeat counts as stale.
pub const HEARTBEAT_LIMIT: i64 = 4;

/// What a heartbeat record tells a follower.
pub enum HeartbeatView {
    /// The record is not of the form `<leader>:<time>`.
    Unreadable,
    /// The leader named in the record was alive recently.
    Active { leader: Seq<u8> },
    /// The record is older than the limit.
    Stale,
}

/// The positions of the colons in `record`.
pub open spec fn is_colon_at(record: Seq<u8>, at: int) -> bool {
    0 <= at < record.len() && record[at] == 58
}

/// The time that the text behind the colon denotes: zero when it is not
/// the numeral of a 64-bit integer.
pub open spec fn heartbeat_time(field: Seq<u8>) -> i64 {
    if valid_utf8(field) {
        match parsed_i64(decode_utf8(field)) {
            Some(time) => time,
            None => 0,
        }
    } else {
        0
    }
}

/// What the record `record`, read at time `now`, tells: a record with
/// exactly one colon names the leader before the colon and the time of its
/// last heartbeat behind it, and is stale when that time lies more than
/// `HEARTBEAT_LIMIT` seconds back.
pub open spec fn heartbeat_verdict(record: Seq<u8>, now: i64) -> HeartbeatView {
    if exists|at: int|
        is_colon_at(record, at) && forall|other: int|
            is_colon_at(record, other) ==> other == at {
        let at = choose|at: int|
            is_colon_at(record, at) && forall|other: int|
                is_colon_at(record, other) ==> other == at;
        if now - heartbeat_time(record.skip(at + 1)) > HEARTBEAT_LIMIT {
            HeartbeatView::Stale
        } else {
            HeartbeatView::Active { leader: record.take(at) }
        }
    } else {
        HeartbeatView::Unreadable
    }
}

/// What a heartbeat record tells a follower.
#[derive(Debug, Clone, PartialEq, Eq)]
pub enum Heartbeat {
    /// The record is not of the form `<leader>:<time>`; it is passed over.
    Unreadable,
    /// The leader named in the record was alive recently.
    Active { leader: Vec<u8> },
    /// The record is older than the limit: time to elect a new leader.
    Stale,
}

impl View for Heartbeat {
    type V = HeartbeatView;

    open spec fn view(&self) -> HeartbeatView {
        match *self {
            Heartbeat::Unreadable => HeartbeatView::Unreadable,
            Heartbeat::Active { leader } => HeartbeatView::Active { leader: leader@ },
            Heartbeat::Stale => HeartbeatView::Stale,
        }
    }
}

/// Tests whether a heartbeat of time `heartbeat` is stale at time `now`.
pub fn leader_is_stale(heartbeat: i64, now: i64) -> (stale: bool)
    ensures
        stale == (now - heartbeat > HEARTBEAT_LIMIT),
{
    (now as i128) - (heartbeat as i128) > (HEARTBEAT_LIMIT as i128)
}

fn read_heartbeat_time(field: &[u8]) -> (time: i64)
    ensures
        time == heartbeat_time(field@),
{
    match text_from_utf8(slice_to_vec(field)) {
        None => 0,
        Some(text) => {
            proof {
                encode_utf8_decode_utf8(text@);
            }
            match parse_i64(text.as_str()) {
                Some(time) => time,
                None => 0,
            }
        },
    }
}

/// Reads the heartbeat record `record` at time `now`.
pub fn check_heartbeat(record: &[u8], now: i64) -> (verdict: Heartbeat)
    ensures
        verdict@ == heartbeat_verdict(record@, now),
{
    let mut first: Option<usize> = None;
    let mut i: usize = 0;
    while i < record.len()
        invariant
            i <= record@.len(),
            match first {
                Some(at) => at < i && is_colon_at(record@, at as int) && forall|other: int|
                    0 <= other < i && is_colon_at(record@, other) ==> other == at,
                None => forall|other: int| 0 <= other < i ==> !is_colon_at(record@, other),
            },
        decreases record@.len() - i,
    {
        if record[i] == 58 {
            match first {
                Some(at) => {
                    assert(is_colon_at(record@, at as int) && is_colon_at(record@, i as int));
                    return Heartbeat::Unreadable;
                },
                None => {
                    first = Some(i);
                },
            }
        }
        i = i + 1;
    }
    match first {
        None => Heartbeat::Unreadable,
        Some(at) => {
            let field = slice_subrange(record, at + 1, record.len());
            assert(field@ =~= record@.skip(at + 1));
            let time = read_heartbeat_time(field);
            if leader_is_stale(time, now) {
                Heartbeat::Stale
            } else {
                let leader = slice_to_vec(slice_subrange(record, 0, at));
                assert(leader@ =~= record@.take(at as int));
                Heartbeat::Active { leader }
            }
        },
    }
}

/// Reads the clock with `chrono::Utc::now`, in seconds since the Unix
/// epoch. The value depends on the moment of the call and nothing is
/// promised of it. The call does not return if the system clock stands
/// before the epoch.
#[verifier::external_body]
pub(crate) fn current_timestamp() -> i64 {
    chrono::Utc::now().timestamp()
}

/// Reads the heartbeat record `record` at the time of the call.
pub fn watch_heartbeat(record: &[u8]) -> (verdict: Heartbeat)
    ensures
        exists|now: i64| verdict@ == #[trigger] heartbeat_verdict(record@, now),
{
    let now = current_timestamp();
    let verdict = check_heartbeat(record, now);
    assert(verdict@ == heartbeat_verdict(record@, now));
    verdict
}

/// The record with which the node `node_id` claims the leadership at time
/// `now`: its identifier, a colon and the time.
pub open spec fn heartbeat_record(node_id: u128, now: i64) -> Seq<char> {
    hyphenated_text(node_id) + ":"@ + signed_decimal_digits(now as int)
}

/// Builds the record with which the node `node_id` claims the leadership
/// at time `now`.
pub fn claim_leadership(node_id: u128, now: i64) -> (record: String)
    ensures
        record@ == heartbeat_record(node_id, now),
{
    let mut record = request_id_text(node_id);
    record.append(":");
    let time = signed_decimal_text(now);
    record.append(time.as_str());
    record
}

/// Builds the record with which the node `node_id` claims the leadership
/// at the time of the call.
pub fn claim_leadership_now(node_id: u128) -> (record: String)
    ensures
        exists|now: i64| record@ == #[trigger] heartbeat_record(node_id, now),
{
    let now = current_timestamp();
    let record = claim_leadership(node_id, now);
    assert(record@ == heartbeat_record(node_id, now));
    record
}

} // verus!
