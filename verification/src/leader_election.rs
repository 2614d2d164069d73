//! The agreement engine: a single-decree protocol in two phases.
//!
//! An initiator opens a round with `prepare`, gathers promises from a
//! majority of its peers, proposes a value with `accept` and, once a
//! majority has accepted, lets every peer `learn` the value. A value that a
//! promise carries from an earlier round takes the place of the initiator's
//! own. Each node plays all roles; the engine holds the rules, the caller
//! carries the messages between the peers.

use crate::quorum::{majority, majority_of};
use crate::text::{parse_u64, parsed_u64};
use crate::types::{clone_opt_text, opt_text};
use std::collections::HashMap;
use vstd::prelude::*;

verus! {

broadcast use vstd::std_specs::hash::group_hash_axioms;

/// The failures of the agreement engine.
#[derive(Debug, Clone, Copy, PartialEq, Eq)]
pub enum AgreementError {
    /// A prepare named a round that is not above the last promised one.
    StaleRound,
    /// An accept named another round than the one promised.
    RoundMismatch,
    /// Fewer than a majority of the peers promised.
    InsufficientPromises,
    /// Fewer than a majority of the peers accepted.
    ProposalRejected,
    /// A node asked to connect to itself.
    SameNode,
    /// A node asked to connect that is connected already.
    AlreadyConnected,
}

impl AgreementError {
    /// The text that reports the failure to a peer or a client.
    pub open spec fn text(self) -> Seq<char> {
        match self {
            AgreementError::StaleRound => "Proposal ID is below the last accepted round number"@,
            AgreementError::RoundMismatch => "Proposal ID mismatch"@,
            AgreementError::InsufficientPromises => "Insufficient promises for proposal"@,
            AgreementError::ProposalRejected => "Proposal rejected by majority"@,
            AgreementError::SameNode => "Cannot connect to the same node!"@,
            AgreementError::AlreadyConnected => "Already connected to this node!"@,
        }
    }

    /// The text that reports the failure to a peer or a client.
    pub fn message(&self) -> (message: String)
        ensures
            message@ == self.text(),
    {
        match self {
            AgreementError::StaleRound => String::from_str(
                "Proposal ID is below the last accepted round number",
            ),
            AgreementError::RoundMismatch => String::from_str("Proposal ID mismatch"),
            AgreementError::InsufficientPromises => String::from_str(
                "Insufficient promises for proposal",
            ),
            AgreementError::ProposalRejected => String::from_str("Proposal rejected by majority"),
            AgreementError::SameNode => String::from_str("Cannot connect to the same node!"),
            AgreementError::AlreadyConnected => String::from_str(
                "Already connected to this node!",
            ),
        }
    }
}

/// A ballot: a round and the value proposed in it. During the prepare
/// phase a ballot without a value says that nothing is carried over.
#[derive(Debug, Clone, PartialEq, Eq)]
pub struct ProposalBallot {
    pub id: u64,
    pub value: Option<String>,
}

/// The mathematical content of a [`ProposalBallot`].
pub struct BallotView {
    pub id: u64,
    pub value: Option<Seq<char>>,
}

impl View for ProposalBallot {
    type V = BallotView;

    open spec fn view(&self) -> BallotView {
        BallotView { id: self.id, value: opt_text(self.value) }
    }
}

impl ProposalBallot {
    /// Copies the ballot.
    pub fn duplicate(&self) -> (copy: ProposalBallot)
        ensures
            copy@ == self@,
    {
        ProposalBallot { id: self.id, value: clone_opt_text(&self.value) }
    }
}

/// A peer's answer to a prepare or an accept: either an error text or the
/// ballot that the peer stands by.
#[derive(Debug, Clone, PartialEq, Eq)]
pub struct PrepareResponsePayload {
    pub error: Option<String>,
    pub value: Option<ProposalBallot>,
}

/// An answer to an accept has the shape of an answer to a prepare.
pub type AcceptResponsePayload = PrepareResponsePayload;

/// The mathematical content of a [`PrepareResponsePayload`].
pub struct ResponseView {
    pub error: Option<Seq<char>>,
    pub value: Option<BallotView>,
}

impl View for PrepareResponsePayload {
    type V = ResponseView;

    open spec fn view(&self) -> ResponseView {
        ResponseView {
            error: opt_text(self.error),
            value: match self.value {
                Some(ballot) => Some(ballot@),
                None => None,
            },
        }
    }
}

impl ResponseView {
    /// The answer that stands by `ballot`.
    pub open spec fn granted(ballot: BallotView) -> ResponseView {
        ResponseView { error: None, value: Some(ballot) }
    }

    /// The answer that refuses with `error`.
    pub open spec fn refused(error: AgreementError) -> ResponseView {
        ResponseView { error: Some(error.text()), value: None }
    }

    /// Whether the answer reports no error.
    pub open spec fn is_ok(self) -> bool {
        self.error is None
    }

    /// Whether the answer is a promise: no error, and a ballot.
    pub open spec fn is_promise(self) -> bool {
        self.error is None && self.value is Some
    }

    /// Whether the answer is a promise that carries a value from an earlier
    /// round.
    pub open spec fn carries_value(self) -> bool {
        self.is_promise() && self.value->0.value is Some
    }
}

/// The receiver's state: the highest round it has promised and the value
/// it has accepted in that round, if any.
#[derive(Debug, Clone, PartialEq, Eq)]
pub struct Receiver {
    pub last_round_number: u64,
    pub agreed_value: Option<String>,
}

/// The mathematical content of a [`Receiver`].
pub struct ReceiverView {
    pub last_round_number: u64,
    pub agreed_value: Option<Seq<char>>,
}

impl View for Receiver {
    type V = ReceiverView;

    open spec fn view(&self) -> ReceiverView {
        ReceiverView {
            last_round_number: self.last_round_number,
            agreed_value: opt_text(self.agreed_value),
        }
    }
}

impl ReceiverView {
    /// The state before any round, and after a decree has been learned.
    pub open spec fn initial() -> ReceiverView {
        ReceiverView { last_round_number: 0, agreed_value: None }
    }

    /// The step taken on `prepare(round)`. A round that is not above the
    /// last promised one is stale. A value agreed in the round itself is
    /// handed back with the promise. Otherwise the round is promised.
    pub open spec fn on_prepare(self, round: u64) -> (ReceiverView, ResponseView) {
        if round <= self.last_round_number {
            (self, ResponseView::refused(AgreementError::StaleRound))
        } else if self.agreed_value is Some && self.last_round_number == round {
            (self, ResponseView::granted(BallotView { id: round, value: self.agreed_value }))
        } else {
            (
                ReceiverView { last_round_number: round, agreed_value: self.agreed_value },
                ResponseView::granted(BallotView { id: round, value: None }),
            )
        }
    }

    /// The step taken on `accept(ballot)`: honoured only for the round that
    /// was promised last.
    pub open spec fn on_accept(self, ballot: BallotView) -> (ReceiverView, ResponseView) {
        if ballot.id != self.last_round_number {
            (self, ResponseView::refused(AgreementError::RoundMismatch))
        } else {
            (
                ReceiverView {
                    last_round_number: self.last_round_number,
                    agreed_value: ballot.value,
                },
                ResponseView::granted(ballot),
            )
        }
    }
}

impl Receiver {
    /// A receiver that has promised nothing.
    pub fn new() -> (receiver: Receiver)
        ensures
            receiver@ == ReceiverView::initial(),
    {
        Receiver { last_round_number: 0, agreed_value: None }
    }
}

/// Answers `prepare(proposal_id)`.
///
/// A round at or below the last promised one is refused as stale and
/// leaves the receiver unchanged. Any other round is promised: the answer
/// carries the ballot of that round. Every ballot handed out names a round
/// that is not below the one promised before the call, and the promised
/// round never goes down.
pub fn respond_prepare(receiver: &mut Receiver, proposal_id: u64) -> (response:
    PrepareResponsePayload)
    ensures
        (final(receiver)@, response@) == old(receiver)@.on_prepare(proposal_id),
        response@.is_ok() <==> proposal_id > old(receiver).last_round_number,
        response@.value matches Some(ballot) ==> ballot.id >= old(receiver).last_round_number,
        final(receiver).last_round_number >= old(receiver).last_round_number,
{
    if proposal_id <= receiver.last_round_number {
        return PrepareResponsePayload {
            error: Some(AgreementError::StaleRound.message()),
            value: None,
        };
    }
    if receiver.agreed_value.is_some() && receiver.last_round_number == proposal_id {
        return PrepareResponsePayload {
            error: None,
            value: Some(
                ProposalBallot { id: proposal_id, value: clone_opt_text(&receiver.agreed_value) },
            ),
        };
    }
    receiver.last_round_number = proposal_id;
    PrepareResponsePayload { error: None, value: Some(ProposalBallot { id: proposal_id, value: None }) }
}

/// Answers a prepare whose round arrives as text. A text that is not the
/// numeral of a round gets no answer and changes nothing; any other is
/// answered as [`respond_prepare`] answers its round.
pub fn respond_prepare_request(receiver: &mut Receiver, proposal_id: &str) -> (response: Option<
    PrepareResponsePayload,
>)
    ensures
        match parsed_u64(proposal_id@) {
            Some(round) => response is Some && (final(receiver)@, response->0@) == old(
                receiver,
            )@.on_prepare(round),
            None => response is None && final(receiver)@ == old(receiver)@,
        },
{
    match parse_u64(proposal_id) {
        Some(round) => Some(respond_prepare(receiver, round)),
        None => None,
    }
}

/// Answers `accept(proposal)`.
///
/// The ballot is honoured if and only if its round is the one promised
/// last: then its value becomes the agreed value and the ballot is echoed.
/// Any other round is refused as mismatched and leaves the receiver
/// unchanged.
pub fn respond_accept(receiver: &mut Receiver, proposal: &ProposalBallot) -> (response:
    AcceptResponsePayload)
    ensures
        (final(receiver)@, response@) == old(receiver)@.on_accept(proposal@),
        response@.is_ok() <==> proposal.id == old(receiver).last_round_number,
        final(receiver).last_round_number == old(receiver).last_round_number,
{
    if receiver.last_round_number != proposal.id {
        return PrepareResponsePayload {
            error: Some(AgreementError::RoundMismatch.message()),
            value: None,
        };
    }
    receiver.agreed_value = clone_opt_text(&proposal.value);
    PrepareResponsePayload { error: None, value: Some(proposal.duplicate()) }
}

/// The views of a list of answers, in order.
pub open spec fn responses_view(responses: Seq<PrepareResponsePayload>) -> Seq<ResponseView> {
    responses.map_values(|r: PrepareResponsePayload| r@)
}

/// The number of promises among `responses`.
pub open spec fn promise_count(responses: Seq<ResponseView>) -> nat
    decreases responses.len(),
{
    if responses.len() == 0 {
        0
    } else {
        promise_count(responses.drop_last()) + if responses.last().is_promise() {
            1nat
        } else {
            0nat
        }
    }
}

/// The number of answers among `responses` that report no error.
pub open spec fn approval_count(responses: Seq<ResponseView>) -> nat
    decreases responses.len(),
{
    if responses.len() == 0 {
        0
    } else {
        approval_count(responses.drop_last()) + if responses.last().is_ok() {
            1nat
        } else {
            0nat
        }
    }
}

/// The ballot to carry forward: among the promises that carry a value, the
/// one of the highest round; among several of that round, the last.
pub open spec fn carried_ballot(responses: Seq<ResponseView>) -> Option<BallotView>
    decreases responses.len(),
{
    if responses.len() == 0 {
        None
    } else {
        let earlier = carried_ballot(responses.drop_last());
        let latest = responses.last();
        if latest.carries_value() && (earlier is None || earlier->0.id <= latest.value->0.id) {
            latest.value
        } else {
            earlier
        }
    }
}

/// The value that the initiator proposes after the prepare phase: the
/// carried one if a promise carries any, else its own.
pub open spec fn final_value(responses: Seq<ResponseView>, proposal: Seq<char>) -> Seq<char> {
    match carried_ballot(responses) {
        Some(ballot) => ballot.value->0,
        None => proposal,
    }
}

/// The outcome of the prepare phase of round `round` among `peers` peers.
pub open spec fn preparation_outcome(
    round: u64,
    peers: nat,
    responses: Seq<ResponseView>,
    proposal: Seq<char>,
) -> Result<BallotView, AgreementError> {
    if promise_count(responses) < majority_of(peers) {
        Err(AgreementError::InsufficientPromises)
    } else {
        Ok(BallotView { id: round, value: Some(final_value(responses, proposal)) })
    }
}

/// The outcome of the accept phase among `peers` peers.
pub open spec fn proposal_outcome(peers: nat, responses: Seq<ResponseView>) -> Result<
    (),
    AgreementError,
> {
    if approval_count(responses) < majority_of(peers) {
        Err(AgreementError::ProposalRejected)
    } else {
        Ok(())
    }
}

/// Counts the promises among `responses`.
pub fn count_promises(responses: &Vec<PrepareResponsePayload>) -> (count: usize)
    ensures
        count == promise_count(responses_view(responses@)),
        count <= responses@.len(),
{
    let ghost all = responses_view(responses@);
    let mut count: usize = 0;
    let mut i: usize = 0;
    while i < responses.len()
        invariant
            i <= responses@.len(),
            all == responses_view(responses@),
            count == promise_count(all.take(i as int)),
            count <= i,
        decreases responses@.len() - i,
    {
        assert(all.take(i + 1).drop_last() =~= all.take(i as int));
        if responses[i].error.is_none() && responses[i].value.is_some() {
            count = count + 1;
        }
        i = i + 1;
    }
    assert(all.take(i as int) =~= all);
    count
}

/// Counts the answers among `responses` that report no error.
pub fn count_approvals(responses: &Vec<AcceptResponsePayload>) -> (count: usize)
    ensures
        count == approval_count(responses_view(responses@)),
        count <= responses@.len(),
{
    let ghost all = responses_view(responses@);
    let mut count: usize = 0;
    let mut i: usize = 0;
    while i < responses.len()
        invariant
            i <= responses@.len(),
            all == responses_view(responses@),
            count == approval_count(all.take(i as int)),
            count <= i,
        decreases responses@.len() - i,
    {
        assert(all.take(i + 1).drop_last() =~= all.take(i as int));
        if responses[i].error.is_none() {
            count = count + 1;
        }
        i = i + 1;
    }
    assert(all.take(i as int) =~= all);
    count
}

/// Picks the value to propose: the value of the promise that carries one
/// from the highest round, or `proposal` when no promise carries a value.
pub fn choose_value(responses: &Vec<PrepareResponsePayload>, proposal: String) -> (value: String)
    ensures
        value@ == final_value(responses_view(responses@), proposal@),
{
    let ghost all = responses_view(responses@);
    let mut best: Option<usize> = None;
    let mut i: usize = 0;
    while i < responses.len()
        invariant
            i <= responses@.len(),
            all == responses_view(responses@),
            match best {
                Some(b) => b < i && all[b as int].carries_value() && carried_ballot(
                    all.take(i as int),
                ) == all[b as int].value,
                None => carried_ballot(all.take(i as int)) is None,
            },
        decreases responses@.len() - i,
    {
        assert(all.take(i + 1).drop_last() =~= all.take(i as int));
        if carries(&responses[i]) {
            let replace = match best {
                None => true,
                Some(b) => ballot_round(&responses[b]) <= ballot_round(&responses[i]),
            };
            if replace {
                best = Some(i);
            }
        }
        i = i + 1;
    }
    assert(all.take(i as int) =~= all);
    match best {
        None => proposal,
        Some(b) => carried_text(&responses[b]),
    }
}

fn carries(response: &PrepareResponsePayload) -> (carrying: bool)
    ensures
        carrying == response@.carries_value(),
{
    match &response.value {
        Some(ballot) => response.error.is_none() && ballot.value.is_some(),
        None => false,
    }
}

fn ballot_round(response: &PrepareResponsePayload) -> (round: u64)
    requires
        response@.value is Some,
    ensures
        round == response@.value->0.id,
{
    match &response.value {
        Some(ballot) => ballot.id,
        None => 0,
    }
}

fn carried_text(response: &PrepareResponsePayload) -> (text: String)
    requires
        response@.carries_value(),
    ensures
        text@ == response@.value->0.value->0,
{
    match &response.value {
        Some(ballot) => match &ballot.value {
            Some(text) => text.clone(),
            None => String::new(),
        },
        None => String::new(),
    }
}

/// The initiator's state: the round it opened last.
#[derive(Debug, Clone, PartialEq, Eq)]
pub struct Initiator {
    pub round_id: u64,
}

impl Initiator {
    /// An initiator that has opened no round.
    pub fn new() -> (initiator: Initiator)
        ensures
            initiator.round_id == 0,
    {
        Initiator { round_id: 0 }
    }

    /// Opens the next round: the counter goes up by one, and the new round
    /// is the one to send with `prepare`.
    pub fn next_round(&mut self) -> (round: u64)
        requires
            old(self).round_id < u64::MAX,
        ensures
            final(self).round_id == old(self).round_id + 1,
            round == final(self).round_id,
    {
        self.round_id = self.round_id + 1;
        self.round_id
    }

    /// Concludes the prepare phase of the current round from the answers
    /// that arrived; peers that did not answer are simply absent.
    ///
    /// The phase succeeds if and only if the promises among the answers are
    /// a majority of the `peers` known peers; otherwise it fails with
    /// [`AgreementError::InsufficientPromises`]. On success the ballot to
    /// send with `accept` names the current round and holds the value of
    /// the promise carried from the highest round, or `proposal` when no
    /// promise carries a value.
    pub fn request_preparation(
        &self,
        peers: usize,
        responses: &Vec<PrepareResponsePayload>,
        proposal: String,
    ) -> (ballot: Result<ProposalBallot, AgreementError>)
        ensures
            ballot is Ok <==> promise_count(responses_view(responses@)) >= majority_of(
                peers as nat,
            ),
            match ballot {
                Ok(b) => preparation_outcome(
                    self.round_id,
                    peers as nat,
                    responses_view(responses@),
                    proposal@,
                ) == Ok::<BallotView, AgreementError>(b@),
                Err(e) => preparation_outcome(
                    self.round_id,
                    peers as nat,
                    responses_view(responses@),
                    proposal@,
                ) == Err::<BallotView, AgreementError>(e),
            },
    {
        if count_promises(responses) < majority(peers) {
            return Err(AgreementError::InsufficientPromises);
        }
        let value = choose_value(responses, proposal);
        Ok(ProposalBallot { id: self.round_id, value: Some(value) })
    }

    /// Concludes the accept phase from the answers that arrived: the
    /// proposal stands if and only if the answers without an error are a
    /// majority of the `peers` known peers; otherwise it fails with
    /// [`AgreementError::ProposalRejected`].
    pub fn send_proposal(&self, peers: usize, responses: &Vec<AcceptResponsePayload>) -> (outcome:
        Result<(), AgreementError>)
        ensures
            outcome == proposal_outcome(peers as nat, responses_view(responses@)),
            outcome is Ok <==> approval_count(responses_view(responses@)) >= majority_of(
                peers as nat,
            ),
    {
        if count_approvals(responses) < majority(peers) {
            return Err(AgreementError::ProposalRejected);
        }
        Ok(())
    }
}

/// The value that a learned ballot stores: its value, or the empty text
/// when it has none.
pub open spec fn learned_value(ballot: BallotView) -> Seq<char> {
    match ballot.value {
        Some(value) => value,
        None => Seq::empty(),
    }
}

/// The node's data store: the value learned for each decree, keyed by the
/// round that decided it.
pub struct DataStore {
    entries: HashMap<u64, String>,
}

impl View for DataStore {
    type V = Map<u64, Seq<char>>;

    closed spec fn view(&self) -> Map<u64, Seq<char>> {
        self.entries@.map_values(|value: String| value@)
    }
}

impl DataStore {
    /// An empty store.
    pub fn new() -> (store: DataStore)
        ensures
            store@ == Map::<u64, Seq<char>>::empty(),
    {
        let store = DataStore { entries: HashMap::new() };
        assert(store@ =~= Map::<u64, Seq<char>>::empty());
        store
    }

    /// Stores `value` under `key`, replacing what was there.
    pub fn insert(&mut self, key: u64, value: String)
        ensures
            final(self)@ == old(self)@.insert(key, value@),
    {
        self.entries.insert(key, value);
        assert(self@ =~= old(self)@.insert(key, value@));
    }

    /// The value stored under `key`, if any.
    pub fn get(&self, key: u64) -> (value: Option<String>)
        ensures
            match value {
                Some(v) => self@.contains_key(key) && self@[key] == v@,
                None => !self@.contains_key(key),
            },
    {
        match self.entries.get(&key) {
            Some(v) => Some(v.clone()),
            None => None,
        }
    }

    /// The number of decrees stored.
    pub fn len(&self) -> (count: usize)
        ensures
            count == self@.len(),
    {
        proof {
            lemma_map_values_len(self.entries@);
        }
        self.entries.len()
    }
}

proof fn lemma_map_values_len(entries: Map<u64, String>)
    requires
        entries.dom().finite(),
    ensures
        entries.map_values(|value: String| value@).len() == entries.len(),
{
    assert(entries.map_values(|value: String| value@).dom() =~= entries.dom());
}

/// Writes a ballot's value into the store, under the ballot's round.
pub fn store_ballot(data_store: &mut DataStore, ballot: &ProposalBallot)
    ensures
        final(data_store)@ == old(data_store)@.insert(ballot.id, learned_value(ballot@)),
{
    let value = match &ballot.value {
        Some(v) => v.clone(),
        None => String::new(),
    };
    data_store.insert(ballot.id, value);
}

/// Ends the decree: receiver and initiator go back to their initial state.
pub fn reset_round(receiver: &mut Receiver, initiator: &mut Initiator)
    ensures
        final(receiver)@ == ReceiverView::initial(),
        final(initiator).round_id == 0,
{
    receiver.last_round_number = 0;
    receiver.agreed_value = None;
    initiator.round_id = 0;
}

/// Answers `learn(ballot)`: the ballot's value is stored under its round,
/// the empty text if it has none, and the node is reset for the next
/// decree.
pub fn record_agreement(
    receiver: &mut Receiver,
    initiator: &mut Initiator,
    data_store: &mut DataStore,
    ballot: &ProposalBallot,
)
    ensures
        final(data_store)@ == old(data_store)@.insert(ballot.id, learned_value(ballot@)),
        final(receiver)@ == ReceiverView::initial(),
        final(initiator).round_id == 0,
{
    store_ballot(data_store, ballot);
    reset_round(receiver, initiator);
}

/// How a proposal ended.
pub enum VerdictView {
    Agreed { learn: BallotView, text: Seq<char> },
    Failed { text: Seq<char> },
}

/// How a proposal ended.
#[derive(Debug, Clone, PartialEq, Eq)]
pub enum ProposalVerdict {
    /// A majority accepted: `learn` goes to every peer, `text` to the
    /// client.
    Agreed { learn: ProposalBallot, text: String },
    /// The proposal failed: `text` goes to the client.
    Failed { text: String },
}

impl View for ProposalVerdict {
    type V = VerdictView;

    open spec fn view(&self) -> VerdictView {
        match *self {
            ProposalVerdict::Agreed { learn, text } => VerdictView::Agreed {
                learn: learn@,
                text: text@,
            },
            ProposalVerdict::Failed { text } => VerdictView::Failed { text: text@ },
        }
    }
}

/// The verdict on `ballot` after the accept phase ended with `outcome`, and
/// the initiator's store afterwards: an accepted ballot is written to the
/// store and is to be learned by the peers, a rejected one changes nothing.
pub open spec fn proposal_verdict(
    store: Map<u64, Seq<char>>,
    ballot: BallotView,
    outcome: Result<(), AgreementError>,
) -> (Map<u64, Seq<char>>, VerdictView) {
    match outcome {
        Ok(_) => (
            store.insert(ballot.id, learned_value(ballot)),
            VerdictView::Agreed { learn: ballot, text: "Proposal agreed by majority!"@ },
        ),
        Err(error) => (store, VerdictView::Failed { text: error.text() }),
    }
}

/// Ends a proposal on the initiator's side: after a successful accept
/// phase the ballot is stored locally and handed out for the peers to
/// learn, without asking for a quorum again; after a failed one the
/// failure is reported.
pub fn conclude_proposal(
    data_store: &mut DataStore,
    ballot: ProposalBallot,
    outcome: Result<(), AgreementError>,
) -> (verdict: ProposalVerdict)
    ensures
        (final(data_store)@, verdict@) == proposal_verdict(old(data_store)@, ballot@, outcome),
{
    match outcome {
        Ok(_) => {
            store_ballot(data_store, &ballot);
            ProposalVerdict::Agreed {
                learn: ballot,
                text: String::from_str("Proposal agreed by majority!"),
            }
        },
        Err(error) => ProposalVerdict::Failed { text: error.message() },
    }
}

/// The text that reports a completed connect handshake with the peer on
/// port `target`.
pub open spec fn connected_text(target: Seq<char>) -> Seq<char> {
    "Connected to peer: "@ + target + "!"@
}

/// Builds the text that reports a completed connect handshake.
pub fn connection_report(target: &str) -> (text: String)
    ensures
        text@ == connected_text(target@),
{
    let mut text = String::from_str("Connected to peer: ");
    text.append(target);
    text.append("!");
    text
}

/// A node of the agreement protocol: its identifier and the address it
/// serves on.
#[derive(Debug, Clone, PartialEq, Eq)]
pub struct PeerNode {
    pub node_id: u64,
    pub address: String,
}

/// The mathematical content of a [`PeerNode`].
pub struct PeerView {
    pub node_id: u64,
    pub address: Seq<char>,
}

impl View for PeerNode {
    type V = PeerView;

    open spec fn view(&self) -> PeerView {
        PeerView { node_id: self.node_id, address: self.address@ }
    }
}

impl PeerNode {
    /// The node `node_id` that serves on `address`.
    pub fn new(node_id: u64, address: String) -> (node: PeerNode)
        ensures
            node@ == (PeerView { node_id, address: address@ }),
    {
        PeerNode { node_id, address }
    }

    /// Copies the node.
    pub fn duplicate(&self) -> (copy: PeerNode)
        ensures
            copy@ == self@,
    {
        PeerNode { node_id: self.node_id, address: self.address.clone() }
    }
}

/// The views of a list of peers, in order.
pub open spec fn peers_view(network: Seq<PeerNode>) -> Seq<PeerView> {
    network.map_values(|peer: PeerNode| peer@)
}

/// Whether a peer with identifier `node_id` is among `network`.
pub open spec fn knows_peer(network: Seq<PeerView>, node_id: u64) -> bool {
    exists|i: int| 0 <= i < network.len() && (#[trigger] network[i]).node_id == node_id
}

/// The outcome of a ping from `caller` at `node`: the network afterwards
/// and the answer. A node does not connect to itself, nor twice to the
/// same peer; any other caller joins the network and learns who answered.
pub open spec fn ping_outcome(node: PeerView, network: Seq<PeerView>, caller: PeerView) -> (
    Seq<PeerView>,
    Result<PeerView, AgreementError>,
) {
    if caller.node_id == node.node_id {
        (network, Err(AgreementError::SameNode))
    } else if knows_peer(network, caller.node_id) {
        (network, Err(AgreementError::AlreadyConnected))
    } else {
        (network.push(caller), Ok(node))
    }
}

/// Tests whether a peer with identifier `node_id` is among `network`.
pub fn is_connected(network: &Vec<PeerNode>, node_id: u64) -> (known: bool)
    ensures
        known == knows_peer(peers_view(network@), node_id),
{
    let mut i: usize = 0;
    while i < network.len()
        invariant
            i <= network@.len(),
            forall|j: int| 0 <= j < i ==> network@[j].node_id != node_id,
        decreases network@.len() - i,
    {
        if network[i].node_id == node_id {
            assert(peers_view(network@)[i as int].node_id == node_id);
            return true;
        }
        i = i + 1;
    }
    assert forall|j: int| 0 <= j < peers_view(network@).len() implies (#[trigger] peers_view(
        network@,
    )[j]).node_id != node_id by {
        assert(peers_view(network@)[j] == network@[j]@);
    }
    false
}

/// Adds `peer` to the network after a connect handshake with it.
pub fn record_connection(network: &mut Vec<PeerNode>, peer: PeerNode)
    ensures
        peers_view(final(network)@) == peers_view(old(network)@).push(peer@),
{
    network.push(peer);
    assert(peers_view(network@) =~= peers_view(old(network)@).push(peer@));
}

/// Answers a ping from the node `node_id` that serves on `address`.
///
/// A ping from the node itself fails with [`AgreementError::SameNode`], one
/// from a peer that is connected already with
/// [`AgreementError::AlreadyConnected`]; both leave the network unchanged.
/// Any other caller is added to the network and is told who answered.
pub fn process_ping(
    node: &PeerNode,
    network: &mut Vec<PeerNode>,
    node_id: u64,
    address: String,
) -> (answer: Result<PeerNode, AgreementError>)
    ensures
        peers_view(final(network)@) == ping_outcome(
            node@,
            peers_view(old(network)@),
            PeerView { node_id, address: address@ },
        ).0,
        match answer {
            Ok(me) => ping_outcome(
                node@,
                peers_view(old(network)@),
                PeerView { node_id, address: address@ },
            ).1 == Ok::<PeerView, AgreementError>(me@),
            Err(e) => ping_outcome(
                node@,
                peers_view(old(network)@),
                PeerView { node_id, address: address@ },
            ).1 == Err::<PeerView, AgreementError>(e),
        },
{
    if node_id == node.node_id {
        return Err(AgreementError::SameNode);
    }
    if is_connected(network, node_id) {
        return Err(AgreementError::AlreadyConnected);
    }
    record_connection(network, PeerNode { node_id, address });
    Ok(node.duplicate())
}

/// Answers a ping whose caller names itself in text. A text that is not the
/// numeral of a node identifier gets no answer and changes nothing; any
/// other is answered as [`process_ping`] answers its node.
pub fn process_ping_request(
    node: &PeerNode,
    network: &mut Vec<PeerNode>,
    node_id: &str,
    address: String,
) -> (answer: Option<Result<PeerNode, AgreementError>>)
    ensures
        match parsed_u64(node_id@) {
            Some(id) => answer is Some && peers_view(final(network)@) == ping_outcome(
                node@,
                peers_view(old(network)@),
                PeerView { node_id: id, address: address@ },
            ).0 && match answer->0 {
                Ok(me) => ping_outcome(
                    node@,
                    peers_view(old(network)@),
                    PeerView { node_id: id, address: address@ },
                ).1 == Ok::<PeerView, AgreementError>(me@),
                Err(e) => ping_outcome(
                    node@,
                    peers_view(old(network)@),
                    PeerView { node_id: id, address: address@ },
                ).1 == Err::<PeerView, AgreementError>(e),
            },
            None => answer is None && peers_view(final(network)@) == peers_view(old(network)@),
        },
{
    match parse_u64(node_id) {
        Some(id) => Some(process_ping(node, network, id, address)),
        None => None,
    }
}

/// Takes in the answer to a ping of ours: the peer that names itself with
/// `node_id` and serves on `address` joins the network. A text that is not
/// the numeral of a node identifier changes nothing.
pub fn record_ping_answer(network: &mut Vec<PeerNode>, node_id: &str, address: String) -> (peer:
    Option<u64>)
    ensures
        peer == parsed_u64(node_id@),
        match peer {
            Some(id) => peers_view(final(network)@) == peers_view(old(network)@).push(
                PeerView { node_id: id, address: address@ },
            ),
            None => peers_view(final(network)@) == peers_view(old(network)@),
        },
{
    match parse_u64(node_id) {
        Some(id) => {
            record_connection(network, PeerNode { node_id: id, address });
            Some(id)
        },
        None => None,
    }
}

/// Every ballot that a receiver hands out names a round that is not below
/// the round it had promised before the request, and the promised round
/// never goes down, whether the request is a prepare or an accept.
pub proof fn lemma_rounds_never_go_down(state: ReceiverView, round: u64, ballot: BallotView)
    ensures
        state.on_prepare(round).1.value matches Some(b) ==> b.id >= state.last_round_number,
        state.on_accept(ballot).1.value matches Some(b) ==> b.id >= state.last_round_number,
        state.on_prepare(round).0.last_round_number >= state.last_round_number,
        state.on_accept(ballot).0.last_round_number >= state.last_round_number,
{
}

/// A prepare succeeds exactly for a round above the last promised one. The
/// promise then names that very round and carries no value: a value agreed
/// in a round is never handed out for a later one.
pub proof fn lemma_promise_is_fresh(state: ReceiverView, round: u64)
    ensures
        state.on_prepare(round).1.is_ok() <==> round > state.last_round_number,
        state.on_prepare(round).1.is_ok() ==> {
            &&& state.on_prepare(round).1 == ResponseView::granted(
                BallotView { id: round, value: None },
            )
            &&& state.on_prepare(round).0.last_round_number == round
            &&& state.on_prepare(round).0.agreed_value == state.agreed_value
        },
        !state.on_prepare(round).1.is_ok() ==> {
            &&& state.on_prepare(round).0 == state
            &&& state.on_prepare(round).1 == ResponseView::refused(AgreementError::StaleRound)
        },
{
}

/// A receiver never answers an accept without error when the ballot's
/// round differs from the round it promised last; a refused accept changes
/// nothing, an honoured one records the ballot's value.
pub proof fn lemma_accept_needs_promised_round(state: ReceiverView, ballot: BallotView)
    ensures
        state.on_accept(ballot).1.is_ok() <==> ballot.id == state.last_round_number,
        state.on_accept(ballot).1.is_ok() ==> {
            &&& state.on_accept(ballot).1 == ResponseView::granted(ballot)
            &&& state.on_accept(ballot).0.agreed_value == ballot.value
        },
        !state.on_accept(ballot).1.is_ok() ==> {
            &&& state.on_accept(ballot).0 == state
            &&& state.on_accept(ballot).1 == ResponseView::refused(AgreementError::RoundMismatch)
        },
{
}

/// A receiver that has promised a round accepts no lower round.
pub proof fn lemma_no_accept_below_promise(state: ReceiverView, promised: u64, ballot: BallotView)
    requires
        state.on_prepare(promised).1.is_ok(),
        ballot.id < promised,
    ensures
        !state.on_prepare(promised).0.on_accept(ballot).1.is_ok(),
{
}

/// There are no more promises, and no more approvals, than answers.
pub proof fn lemma_counts_bounded(responses: Seq<ResponseView>)
    ensures
        promise_count(responses) <= approval_count(responses) <= responses.len(),
    decreases responses.len(),
{
    if responses.len() > 0 {
        lemma_counts_bounded(responses.drop_last());
    }
}

/// The initiator sends an accept only after a majority has promised: the
/// prepare phase yields a ballot if and only if the promises number at
/// least `floor(peers / 2) + 1`, and the ballot names the round that was
/// prepared.
pub proof fn lemma_accept_needs_quorum(
    round: u64,
    peers: nat,
    responses: Seq<ResponseView>,
    proposal: Seq<char>,
)
    ensures
        preparation_outcome(round, peers, responses, proposal) is Ok <==> promise_count(responses)
            >= peers / 2 + 1,
        preparation_outcome(round, peers, responses, proposal) matches Ok(ballot) ==> ballot.id
            == round && ballot.value is Some,
        preparation_outcome(round, peers, responses, proposal) is Err ==> preparation_outcome(
            round,
            peers,
            responses,
            proposal,
        ) == Err::<BallotView, AgreementError>(AgreementError::InsufficientPromises),
{
}

/// The carried ballot is the highest among the promises that carry a
/// value: there is one exactly when some promise carries a value, it is the
/// ballot of such a promise, and no promise carries a value from a higher
/// round.
pub proof fn lemma_carried_is_highest(responses: Seq<ResponseView>)
    ensures
        carried_ballot(responses) is Some <==> exists|i: int|
            0 <= i < responses.len() && (#[trigger] responses[i]).carries_value(),
        carried_ballot(responses) matches Some(ballot) ==> {
            &&& ballot.value is Some
            &&& exists|i: int|
                0 <= i < responses.len() && (#[trigger] responses[i]).carries_value()
                    && responses[i].value == Some(ballot)
            &&& forall|j: int|
                0 <= j < responses.len() && (#[trigger] responses[j]).carries_value()
                    ==> responses[j].value->0.id <= ballot.id
        },
    decreases responses.len(),
{
    if responses.len() > 0 {
        let earlier = responses.drop_last();
        let latest = responses.last();
        lemma_carried_is_highest(earlier);
        assert forall|j: int| 0 <= j < earlier.len() implies earlier[j] == responses[j] by {}
        if carried_ballot(earlier) is Some {
            let i = choose|i: int|
                0 <= i < earlier.len() && (#[trigger] earlier[i]).carries_value()
                    && earlier[i].value == carried_ballot(earlier);
            assert(responses[i].carries_value());
        }
        if latest.carries_value() {
            assert(responses[responses.len() - 1].carries_value());
        }
        if carried_ballot(responses) is Some {
            let ballot = carried_ballot(responses)->0;
            assert forall|j: int|
                0 <= j < responses.len() && (#[trigger] responses[j]).carries_value()
                    implies responses[j].value->0.id <= ballot.id by {
                if j < earlier.len() {
                    assert(earlier[j].carries_value());
                }
            }
        }
        if exists|i: int| 0 <= i < responses.len() && (#[trigger] responses[i]).carries_value() {
            let i = choose|i: int|
                0 <= i < responses.len() && (#[trigger] responses[i]).carries_value();
            if i < earlier.len() {
                assert(earlier[i].carries_value());
            }
        }
    }
}

/// Carry-forward: if the promise at `position` carries a value from the
/// highest round among the promises that carry one, and every promise of
/// that round carries the same value, then the ballot that the initiator
/// sends with its accept holds that value, whatever the initiator itself
/// proposed. Without any carried value the ballot holds the initiator's
/// proposal.
pub proof fn lemma_carry_forward(
    round: u64,
    peers: nat,
    responses: Seq<ResponseView>,
    proposal: Seq<char>,
    position: int,
)
    requires
        preparation_outcome(round, peers, responses, proposal) is Ok,
    ensures
        (0 <= position < responses.len() && responses[position].carries_value() && forall|j: int|
            0 <= j < responses.len() && (#[trigger] responses[j]).carries_value() ==> {
                ||| responses[j].value->0.id < responses[position].value->0.id
                ||| responses[j].value == responses[position].value
            }) ==> preparation_outcome(round, peers, responses, proposal)->Ok_0.value
            == responses[position].value->0.value,
        (forall|j: int| 0 <= j < responses.len() ==> !(#[trigger] responses[j]).carries_value())
            ==> preparation_outcome(round, peers, responses, proposal)->Ok_0.value == Some(
            proposal,
        ),
{
    lemma_carried_is_highest(responses);
}

/// The accept phase succeeds if and only if the approvals number at least
/// `floor(peers / 2) + 1`.
pub proof fn lemma_proposal_needs_quorum(peers: nat, responses: Seq<ResponseView>)
    ensures
        proposal_outcome(peers, responses) is Ok <==> approval_count(responses) >= peers / 2 + 1,
        proposal_outcome(peers, responses) is Err ==> proposal_outcome(peers, responses) == Err::<
            (),
            AgreementError,
        >(AgreementError::ProposalRejected),
{
}

} // verus!
