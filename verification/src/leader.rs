//! The coordinator's replication engine.
//!
//! The coordinator keeps the set of registered followers and runs one
//! replication cycle at a time: a client payload is fanned out to every
//! follower registered at that moment, acknowledgments are counted once per
//! sender, and the cycle ends with a reply as soon as a majority has
//! acknowledged, or with a shortfall notice when a wait runs out.
//!
//! The engine decides; sending datagrams and keeping time is the caller's
//! part. While a cycle is in flight the caller waits for the next datagram
//! for at most [`ACK_WAIT_SECS`] seconds. Each wait has that budget anew,
//! whether or not the datagram before it counted; the first wait that runs
//! out ends the cycle, however many followers have not answered yet.

use crate::ids::{hyphenated_text, request_id_text};
use crate::quorum::{majority, majority_of};
use crate::text::{contains_text, decimal_digits, decimal_text, lossy_text, utf8_lossy};
use crate::types::{
    clone_texts, lemma_push_fresh_keeps_distinct, list_contains, texts, MessageView, PaxosMessage,
};
use vstd::prelude::*;
use vstd::slice::slice_to_vec;

verus! {

/// How long the coordinator waits for the next acknowledgment, in seconds,
/// before it gives the cycle up.
pub const ACK_WAIT_SECS: u64 = 2;

/// One line of a reply: a label, a value and a line feed.
pub open spec fn reply_line(label: Seq<char>, value: Seq<char>) -> Seq<char> {
    label + value + "\n"@
}

/// The reply that reports a committed request, made of the identifier's
/// text, the message's text and the number of acknowledgments counted.
pub open spec fn commit_reply_text(id: Seq<char>, message: Seq<char>, acks: nat) -> Seq<char> {
    reply_line("Request ID: "@, id) + reply_line("Original Message: "@, message) + reply_line(
        "Acknowledgments Received: "@,
        decimal_digits(acks),
    )
}

/// The reply that reports a committed request: the request's identifier
/// in hyphenated form, its payload read as text, and the number of
/// acknowledgments counted.
pub open spec fn commit_reply(request_id: u128, payload: Seq<u8>, acks: nat) -> Seq<char> {
    commit_reply_text(hyphenated_text(request_id), utf8_lossy(payload), acks)
}

/// The reply that reports a cycle that ended short of a majority.
pub open spec fn shortfall_reply(acks: nat, needed: nat) -> Seq<char> {
    "Not enough acknowledgments to proceed (Received: "@ + decimal_digits(acks) + ", Majority: "@
        + decimal_digits(needed) + ").\n"@
}

/// A replication cycle in flight.
pub struct CycleView {
    /// The request being replicated.
    pub request_id: u128,
    /// Its payload.
    pub payload: Seq<u8>,
    /// How many followers the payload was sent to.
    pub group: nat,
    /// The senders whose acknowledgment has been counted, in order of arrival.
    pub ackers: Seq<Seq<char>>,
}

impl CycleView {
    /// The number of acknowledgments that commits the request.
    pub open spec fn needed(self) -> nat {
        majority_of(self.group)
    }

    /// A cycle in flight has a follower to wait for, has counted nobody
    /// twice and is still short of its majority.
    pub open spec fn wf(self) -> bool {
        &&& self.group >= 1
        &&& self.ackers.no_duplicates()
        &&& self.ackers.len() < self.needed()
    }
}

/// The coordinator's state.
pub struct LeaderView {
    /// The registered followers, in order of registration.
    pub followers: Seq<Seq<char>>,
    /// The cycle in flight, if any.
    pub cycle: Option<CycleView>,
}

/// What the coordinator asks of its caller.
pub enum LeaderActionView {
    Ignore,
    Registered,
    NoFollowers,
    Busy,
    Replicate { targets: Seq<Seq<char>>, request: MessageView },
    AckCounted,
    Committed { reply: Seq<char> },
    Abandoned { reply: Seq<char> },
}

impl LeaderView {
    /// No follower is registered twice, and the cycle in flight is sound.
    pub open spec fn wf(self) -> bool {
        &&& self.followers.no_duplicates()
        &&& self.cycle matches Some(c) ==> c.wf()
    }

    /// The state with `addr` among the followers.
    pub open spec fn with_follower(self, addr: Seq<char>) -> LeaderView {
        if self.followers.contains(addr) {
            self
        } else {
            LeaderView { followers: self.followers.push(addr), cycle: self.cycle }
        }
    }

    /// The step taken when a client request arrives.
    pub open spec fn on_request(self, request_id: u128, payload: Seq<u8>) -> (
        LeaderView,
        LeaderActionView,
    ) {
        if self.cycle is Some {
            (self, LeaderActionView::Busy)
        } else if self.followers.len() == 0 {
            (self, LeaderActionView::NoFollowers)
        } else {
            (
                LeaderView {
                    followers: self.followers,
                    cycle: Some(
                        CycleView {
                            request_id,
                            payload,
                            group: self.followers.len(),
                            ackers: Seq::empty(),
                        },
                    ),
                },
                LeaderActionView::Replicate {
                    targets: self.followers,
                    request: MessageView::ClientRequest { request_id, payload },
                },
            )
        }
    }

    /// The step taken when an acknowledgment for `request_id` arrives from
    /// `source`.
    pub open spec fn on_ack(self, request_id: u128, source: Seq<char>) -> (
        LeaderView,
        LeaderActionView,
    ) {
        match self.cycle {
            None => (self, LeaderActionView::Ignore),
            Some(c) => {
                if c.request_id != request_id || c.ackers.contains(source) {
                    (self, LeaderActionView::Ignore)
                } else if c.ackers.len() + 1 >= c.needed() {
                    (
                        LeaderView { followers: self.followers, cycle: None },
                        LeaderActionView::Committed {
                            reply: commit_reply(c.request_id, c.payload, c.ackers.len() + 1),
                        },
                    )
                } else {
                    (
                        LeaderView {
                            followers: self.followers,
                            cycle: Some(
                                CycleView {
                                    request_id: c.request_id,
                                    payload: c.payload,
                                    group: c.group,
                                    ackers: c.ackers.push(source),
                                },
                            ),
                        },
                        LeaderActionView::AckCounted,
                    )
                }
            },
        }
    }

    /// The step taken when `message` arrives from `source`.
    pub open spec fn on_message(self, message: MessageView, source: Seq<char>) -> (
        LeaderView,
        LeaderActionView,
    ) {
        match message {
            MessageView::RegisterFollower { follower_addr } => (
                self.with_follower(follower_addr),
                LeaderActionView::Registered,
            ),
            MessageView::ClientRequest { request_id, payload } => self.on_request(
                request_id,
                payload,
            ),
            MessageView::FollowerAck { request_id } => self.on_ack(request_id, source),
        }
    }

    /// The step taken when a wait for acknowledgments runs out.
    pub open spec fn on_timeout(self) -> (LeaderView, LeaderActionView) {
        match self.cycle {
            None => (self, LeaderActionView::Ignore),
            Some(c) => (
                LeaderView { followers: self.followers, cycle: None },
                LeaderActionView::Abandoned { reply: shortfall_reply(c.ackers.len(), c.needed()) },
            ),
        }
    }
}

/// What the coordinator asks of its caller after a step.
#[derive(Debug, Clone, PartialEq, Eq)]
pub enum LeaderAction {
    /// The message changes nothing and needs no answer.
    Ignore,
    /// A follower's registration was taken in.
    Registered,
    /// A request arrived while no follower is registered: it is dropped
    /// without a reply.
    NoFollowers,
    /// A request arrived while a cycle is in flight: it has to wait for the
    /// cycle to end and be handed in again.
    Busy,
    /// A cycle has begun: `request` goes to each of `targets`.
    Replicate { targets: Vec<String>, request: PaxosMessage },
    /// An acknowledgment was counted; the majority is not reached yet.
    AckCounted,
    /// A majority has acknowledged: `reply` goes to the dispatcher.
    Committed { reply: String },
    /// The wait ran out short of a majority: `reply` goes to the dispatcher.
    Abandoned { reply: String },
}

impl View for LeaderAction {
    type V = LeaderActionView;

    open spec fn view(&self) -> LeaderActionView {
        match *self {
            LeaderAction::Ignore => LeaderActionView::Ignore,
            LeaderAction::Registered => LeaderActionView::Registered,
            LeaderAction::NoFollowers => LeaderActionView::NoFollowers,
            LeaderAction::Busy => LeaderActionView::Busy,
            LeaderAction::Replicate { targets, request } => LeaderActionView::Replicate {
                targets: texts(targets@),
                request: request@,
            },
            LeaderAction::AckCounted => LeaderActionView::AckCounted,
            LeaderAction::Committed { reply } => LeaderActionView::Committed { reply: reply@ },
            LeaderAction::Abandoned { reply } => LeaderActionView::Abandoned { reply: reply@ },
        }
    }
}

struct Cycle {
    request_id: u128,
    payload: Vec<u8>,
    group: usize,
    ackers: Vec<String>,
}

impl View for Cycle {
    type V = CycleView;

    closed spec fn view(&self) -> CycleView {
        CycleView {
            request_id: self.request_id,
            payload: self.payload@,
            group: self.group as nat,
            ackers: texts(self.ackers@),
        }
    }
}

/// The coordinator: its followers and the replication cycle in flight.
pub struct Leader {
    followers: Vec<String>,
    cycle: Option<Cycle>,
}

impl View for Leader {
    type V = LeaderView;

    closed spec fn view(&self) -> LeaderView {
        LeaderView {
            followers: texts(self.followers@),
            cycle: match self.cycle {
                Some(c) => Some(c@),
                None => None,
            },
        }
    }
}

/// Builds the commit reply from the identifier's text, the message's text
/// and the number of acknowledgments.
pub fn compose_commit_reply(id: &str, message: &str, acks: usize) -> (reply: String)
    ensures
        reply@ == commit_reply_text(id@, message@, acks as nat),
{
    let mut reply = String::from_str("Request ID: ");
    reply.append(id);
    reply.append("\n");
    reply.append("Original Message: ");
    reply.append(message);
    reply.append("\n");
    reply.append("Acknowledgments Received: ");
    let count = decimal_text(acks as u64);
    reply.append(count.as_str());
    reply.append("\n");
    assert(reply@ =~= commit_reply_text(id@, message@, acks as nat));
    reply
}

/// Builds the reply for a request that `acks` followers have acknowledged.
pub fn build_commit_reply(request_id: u128, payload: &[u8], acks: usize) -> (reply: String)
    ensures
        reply@ == commit_reply(request_id, payload@, acks as nat),
{
    let id = request_id_text(request_id);
    let message = lossy_text(payload);
    compose_commit_reply(id.as_str(), message.as_str(), acks)
}

/// Builds the reply for a cycle that ended with `acks` acknowledgments where
/// `needed` were required.
pub fn build_shortfall_reply(acks: usize, needed: usize) -> (reply: String)
    ensures
        reply@ == shortfall_reply(acks as nat, needed as nat),
{
    let mut reply = String::from_str("Not enough acknowledgments to proceed (Received: ");
    let received = decimal_text(acks as u64);
    reply.append(received.as_str());
    reply.append(", Majority: ");
    let threshold = decimal_text(needed as u64);
    reply.append(threshold.as_str());
    reply.append(").\n");
    assert(reply@ =~= shortfall_reply(acks as nat, needed as nat));
    reply
}

impl Leader {
    /// A coordinator without followers and without a cycle.
    pub fn new() -> (leader: Leader)
        ensures
            leader@ == (LeaderView { followers: Seq::empty(), cycle: None }),
            leader@.wf(),
    {
        let leader = Leader { followers: Vec::new(), cycle: None };
        assert(leader@.followers =~= Seq::empty());
        leader
    }

    /// Adds `addr` to the followers; an address that is already registered
    /// is merged silently.
    pub fn register_follower(&mut self, addr: String)
        ensures
            final(self)@ == old(self)@.with_follower(addr@),
            old(self)@.wf() ==> final(self)@.wf(),
    {
        proof {
            if old(self)@.wf() {
                lemma_steps_preserve_wf(
                    old(self)@,
                    MessageView::RegisterFollower { follower_addr: addr@ },
                    Seq::empty(),
                );
            }
        }
        if !list_contains(&self.followers, addr.as_str()) {
            self.followers.push(addr);
            assert(texts(self.followers@) =~= texts(old(self).followers@).push(addr@));
        }
    }

    /// The registered followers, in order of registration.
    pub fn snapshot_followers(&self) -> (list: Vec<String>)
        ensures
            texts(list@) == self@.followers,
    {
        clone_texts(&self.followers)
    }

    /// Takes in a client request: begins a replication cycle unless one is
    /// in flight or no follower is registered.
    pub fn handle_request(&mut self, request_id: u128, payload: Vec<u8>) -> (action: LeaderAction)
        ensures
            (final(self)@, action@) == old(self)@.on_request(request_id, payload@),
            old(self)@.wf() ==> final(self)@.wf(),
    {
        proof {
            if old(self)@.wf() {
                lemma_steps_preserve_wf(
                    old(self)@,
                    MessageView::ClientRequest { request_id, payload: payload@ },
                    Seq::empty(),
                );
            }
        }
        if self.cycle.is_some() {
            LeaderAction::Busy
        } else if self.followers.len() == 0 {
            LeaderAction::NoFollowers
        } else {
            let targets = clone_texts(&self.followers);
            self.cycle = Some(
                Cycle {
                    request_id,
                    payload: slice_to_vec(payload.as_slice()),
                    group: self.followers.len(),
                    ackers: Vec::new(),
                },
            );
            assert(texts(Seq::<String>::empty()) =~= Seq::<Seq<char>>::empty());
            LeaderAction::Replicate {
                targets,
                request: PaxosMessage::ClientRequest { request_id, payload },
            }
        }
    }

    /// Takes in an acknowledgment for `request_id` that came from `source`.
    /// It counts if a cycle for that request is in flight and `source` has
    /// not been counted before; the acknowledgment that completes the
    /// majority ends the cycle with the commit reply.
    pub fn handle_ack(&mut self, request_id: u128, source: &str) -> (action: LeaderAction)
        ensures
            (final(self)@, action@) == old(self)@.on_ack(request_id, source@),
            old(self)@.wf() ==> final(self)@.wf(),
    {
        proof {
            if old(self)@.wf() {
                lemma_steps_preserve_wf(
                    old(self)@,
                    MessageView::FollowerAck { request_id },
                    source@,
                );
            }
        }
        match self.cycle.take() {
            None => LeaderAction::Ignore,
            Some(mut cycle) => {
                if cycle.request_id != request_id || list_contains(&cycle.ackers, source) {
                    self.cycle = Some(cycle);
                    LeaderAction::Ignore
                } else {
                    let ghost before = cycle.ackers@;
                    cycle.ackers.push(String::from_str(source));
                    assert(texts(cycle.ackers@) =~= texts(before).push(source@));
                    let acks = cycle.ackers.len();
                    if acks >= majority(cycle.group) {
                        let reply = build_commit_reply(
                            cycle.request_id,
                            cycle.payload.as_slice(),
                            acks,
                        );
                        LeaderAction::Committed { reply }
                    } else {
                        self.cycle = Some(cycle);
                        LeaderAction::AckCounted
                    }
                }
            },
        }
    }

    /// Takes in a message that arrived from `source`: a registration, a
    /// client request or an acknowledgment.
    pub fn handle_message(&mut self, message: PaxosMessage, source: &str) -> (action:
        LeaderAction)
        ensures
            (final(self)@, action@) == old(self)@.on_message(message@, source@),
            old(self)@.wf() ==> final(self)@.wf(),
    {
        match message {
            PaxosMessage::RegisterFollower { follower_addr } => {
                self.register_follower(follower_addr);
                LeaderAction::Registered
            },
            PaxosMessage::ClientRequest { request_id, payload } => self.handle_request(
                request_id,
                payload,
            ),
            PaxosMessage::FollowerAck { request_id } => self.handle_ack(request_id, source),
        }
    }

    /// Takes in the expiry of a wait for acknowledgments: the cycle in
    /// flight, if any, ends with the shortfall reply.
    pub fn handle_timeout(&mut self) -> (action: LeaderAction)
        ensures
            (final(self)@, action@) == old(self)@.on_timeout(),
            old(self)@.wf() ==> final(self)@.wf(),
    {
        proof {
            if old(self)@.wf() {
                lemma_steps_preserve_wf(
                    old(self)@,
                    MessageView::FollowerAck { request_id: 0 },
                    Seq::empty(),
                );
            }
        }
        match self.cycle.take() {
            None => LeaderAction::Ignore,
            Some(cycle) => {
                let reply = build_shortfall_reply(cycle.ackers.len(), majority(cycle.group));
                LeaderAction::Abandoned { reply }
            },
        }
    }

    /// Whether a replication cycle is in flight.
    pub fn in_cycle(&self) -> (busy: bool)
        ensures
            busy == (self@.cycle is Some),
    {
        self.cycle.is_some()
    }
}

/// Every step keeps a sound state sound: followers stay distinct, and a
/// cycle in flight stays short of its majority with nobody counted twice.
pub proof fn lemma_steps_preserve_wf(state: LeaderView, message: MessageView, source: Seq<char>)
    requires
        state.wf(),
    ensures
        state.on_message(message, source).0.wf(),
        state.on_timeout().0.wf(),
{
    match message {
        MessageView::RegisterFollower { follower_addr } => {
            if !state.followers.contains(follower_addr) {
                lemma_push_fresh_keeps_distinct(state.followers, follower_addr);
            }
        },
        MessageView::ClientRequest { .. } => {},
        MessageView::FollowerAck { request_id } => {
            if state.cycle is Some {
                let c = state.cycle->0;
                if !c.ackers.contains(source) {
                    lemma_push_fresh_keeps_distinct(c.ackers, source);
                }
            }
        },
    }
}

/// A commit reply shows the count it was built for: the text
/// `Acknowledgments Received: ` followed by the numeral of `acks` occurs in
/// it.
pub proof fn lemma_commit_reply_shows_acks(id: Seq<char>, message: Seq<char>, acks: nat)
    ensures
        contains_text(
            commit_reply_text(id, message, acks),
            "Acknowledgments Received: "@ + decimal_digits(acks),
        ),
{
    let reply = commit_reply_text(id, message, acks);
    let needle = "Acknowledgments Received: "@ + decimal_digits(acks);
    let head = reply_line("Request ID: "@, id) + reply_line("Original Message: "@, message);
    let at = head.len() as int;
    assert(reply.subrange(at, at + needle.len()) =~= needle);
}

/// A cycle commits only on a majority. Whenever a step answers with a
/// commit reply, the reply shows a count `k` of acknowledgments with
/// `k >= floor(n / 2) + 1`, where `n` is the number of followers the request
/// was sent to. From a sound state `k` is exactly that majority: the first
/// majority ends the cycle.
pub proof fn lemma_commit_needs_majority(state: LeaderView, message: MessageView, source: Seq<char>)
    requires
        state.on_message(message, source).1 is Committed,
    ensures
        state.cycle is Some,
        state.on_message(message, source).0.cycle is None,
        ({
            let c = state.cycle->0;
            let k = c.ackers.len() + 1;
            &&& k >= c.group / 2 + 1
            &&& state.wf() ==> k == c.group / 2 + 1
            &&& state.on_message(message, source).1 == (LeaderActionView::Committed {
                reply: commit_reply(c.request_id, c.payload, k),
            })
            &&& contains_text(
                commit_reply(c.request_id, c.payload, k),
                "Acknowledgments Received: "@ + decimal_digits(k),
            )
        }),
{
    let c = state.cycle->0;
    lemma_commit_reply_shows_acks(
        hyphenated_text(c.request_id),
        utf8_lossy(c.payload),
        c.ackers.len() + 1,
    );
}

/// A request is sent to exactly the followers registered when it arrives,
/// and the cycle it opens waits for a majority of them.
pub proof fn lemma_cycle_covers_snapshot(state: LeaderView, request_id: u128, payload: Seq<u8>)
    requires
        state.on_request(request_id, payload).1 is Replicate,
    ensures
        state.on_request(request_id, payload).1->targets == state.followers,
        state.on_request(request_id, payload).0.cycle is Some,
        state.on_request(request_id, payload).0.cycle->0.group == state.followers.len(),
        state.on_request(request_id, payload).0.cycle->0.needed() == majority_of(
            state.followers.len(),
        ),
{
}

/// An acknowledgment counts once per sender: after `source` has been
/// counted for a request, a second acknowledgment from `source` changes
/// nothing.
pub proof fn lemma_duplicate_ack_ignored(state: LeaderView, request_id: u128, source: Seq<char>)
    requires
        state.on_ack(request_id, source).1 is AckCounted,
    ensures
        ({
            let next = state.on_ack(request_id, source).0;
            next.on_ack(request_id, source) == (next, LeaderActionView::Ignore)
        }),
{
    let c = state.cycle->0;
    assert(c.ackers.push(source)[c.ackers.len() as int] == source);
}

/// An acknowledgment for another request than the one in flight changes
/// nothing.
pub proof fn lemma_stray_ack_ignored(state: LeaderView, request_id: u128, source: Seq<char>)
    requires
        state.cycle is Some ==> state.cycle->0.request_id != request_id,
    ensures
        state.on_ack(request_id, source) == (state, LeaderActionView::Ignore),
{
}

/// Registering is idempotent, and a follower that registers while a cycle
/// is in flight takes no part in that cycle.
pub proof fn lemma_register_idempotent(state: LeaderView, addr: Seq<char>)
    ensures
        state.with_follower(addr).followers.contains(addr),
        state.with_follower(addr).with_follower(addr) == state.with_follower(addr),
        state.with_follower(addr).cycle == state.cycle,
{
    if !state.followers.contains(addr) {
        assert(state.followers.push(addr)[state.followers.len() as int] == addr);
    }
}

} // verus!
