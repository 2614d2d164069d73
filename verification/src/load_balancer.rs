//! The dispatcher: the front end that clients and peers talk to.
//!
//! Peers announce themselves with the text `register:<address>`; the first
//! address becomes the coordinator, later ones become followers. Every other
//! datagram is a client request: the dispatcher remembers who sent it, wraps
//! it into a `ClientRequest` and hands it to the next target in rotation.
//! The datagram that comes back next is relayed to the remembered client.

use crate::ids::random_u64;
use crate::text::{has_prefix_at, lossy_text, starts_with, trim_text, trimmed, utf8_lossy};
use crate::types::{
    clone_opt_text, clone_texts, lemma_push_fresh_keeps_distinct, list_contains, opt_text, texts,
    MessageView, PaxosMessage,
};
use vstd::arithmetic::div_mod::{
    lemma_add_mod_noop_right, lemma_mod_add_multiples_vanish, lemma_mod_self_0, lemma_mod_twice,
    lemma_small_mod,
};
use vstd::prelude::*;
use vstd::slice::{slice_subrange, slice_to_vec};
use vstd::utf8::*;

verus! {

/// How long a peer waits, in seconds, before it sends its registration to
/// the dispatcher again after a failed attempt.
pub const REGISTRATION_RETRY_SECS: u64 = 2;

/// The bytes that open a registration datagram: the text `register:`.
pub open spec fn register_prefix() -> Seq<u8> {
    encode_utf8("register:"@)
}

/// The text with which a peer that listens on `addr` registers.
pub open spec fn registration_text(addr: Seq<char>) -> Seq<char> {
    "register:"@ + addr
}

/// `bytes` without the copies of `prefix` that open it.
pub open spec fn strip_prefixes(bytes: Seq<u8>, prefix: Seq<u8>) -> Seq<u8>
    decreases bytes.len(),
{
    if prefix.len() > 0 && starts_with(bytes, prefix) {
        strip_prefixes(bytes.skip(prefix.len() as int), prefix)
    } else {
        bytes
    }
}

/// The address that a registration datagram announces: what follows the
/// prefix, read as text, without surrounding whitespace.
pub open spec fn announced_addr(datagram: Seq<u8>) -> Seq<char> {
    trimmed(utf8_lossy(strip_prefixes(datagram, register_prefix())))
}

/// The dispatcher's state.
pub struct LoadBalancerView {
    /// The coordinator, once one has registered.
    pub leader: Option<Seq<char>>,
    /// The followers, in order of registration.
    pub followers: Seq<Seq<char>>,
    /// The rotation index.
    pub next_idx: nat,
    /// The client whose request was forwarded last.
    pub client: Option<Seq<char>>,
}

/// What the dispatcher asks of its caller.
pub enum DispatchActionView {
    Registered,
    Forward { target: Seq<char>, request: MessageView },
    NoRoute,
}

impl LoadBalancerView {
    /// The rotation's positions: the coordinator first, if there is one,
    /// then the followers.
    pub open spec fn targets(self) -> Seq<Seq<char>> {
        match self.leader {
            Some(leader) => seq![leader] + self.followers,
            None => self.followers,
        }
    }

    /// No follower is registered twice and the rotation index names a
    /// position.
    pub open spec fn wf(self) -> bool {
        &&& self.followers.no_duplicates()
        &&& self.next_idx == 0 || self.next_idx < self.targets().len()
    }

    /// The state with `addr` as coordinator: the slot holds one address, and
    /// the last one written wins.
    pub open spec fn with_leader(self, addr: Seq<char>) -> LoadBalancerView {
        LoadBalancerView { leader: Some(addr), ..self }
    }

    /// The state with `addr` among the followers.
    pub open spec fn with_follower(self, addr: Seq<char>) -> LoadBalancerView {
        if self.followers.contains(addr) {
            self
        } else {
            LoadBalancerView { followers: self.followers.push(addr), ..self }
        }
    }

    /// The state after a registration: the first address to register becomes
    /// the coordinator, later ones become followers.
    pub open spec fn with_peer(self, addr: Seq<char>) -> LoadBalancerView {
        if self.leader is None {
            self.with_leader(addr)
        } else {
            self.with_follower(addr)
        }
    }

    /// The target that the next request goes to.
    pub open spec fn next_target(self) -> Option<Seq<char>> {
        if self.targets().len() == 0 {
            None
        } else {
            Some(self.targets()[(self.next_idx % self.targets().len()) as int])
        }
    }

    /// The state after a target has been chosen: the index has moved on by
    /// one position, modulo the number of positions.
    pub open spec fn advanced(self) -> LoadBalancerView {
        if self.targets().len() == 0 {
            self
        } else {
            LoadBalancerView {
                next_idx: (self.next_idx % self.targets().len() + 1) % self.targets().len(),
                ..self
            }
        }
    }

    /// The state after `count` targets have been chosen.
    pub open spec fn advanced_by(self, count: nat) -> LoadBalancerView
        decreases count,
    {
        if count == 0 {
            self
        } else {
            self.advanced().advanced_by((count - 1) as nat)
        }
    }

    /// The step taken when `datagram` arrives from `source`, with
    /// `request_id` at hand for a request to forward.
    pub open spec fn on_datagram(self, source: Seq<char>, datagram: Seq<u8>, request_id: u64) -> (
        LoadBalancerView,
        DispatchActionView,
    ) {
        if starts_with(datagram, register_prefix()) {
            (self.with_peer(announced_addr(datagram)), DispatchActionView::Registered)
        } else {
            let noted = LoadBalancerView { client: Some(source), ..self };
            match noted.next_target() {
                None => (noted, DispatchActionView::NoRoute),
                Some(target) => (
                    noted.advanced(),
                    DispatchActionView::Forward {
                        target,
                        request: MessageView::ClientRequest {
                            request_id: request_id as u128,
                            payload: datagram,
                        },
                    },
                ),
            }
        }
    }

    /// Where the reply to the forwarded request goes, and as what text.
    pub open spec fn on_reply(self, body: Seq<u8>) -> Option<(Seq<char>, Seq<char>)> {
        match self.client {
            Some(client) => Some((client, utf8_lossy(body))),
            None => None,
        }
    }
}

/// The registration prefix is the nine ASCII bytes of `register:`.
pub proof fn lemma_register_prefix()
    ensures
        register_prefix() == seq![114u8, 101u8, 103u8, 105u8, 115u8, 116u8, 101u8, 114u8, 58u8],
{
    reveal_strlit("register:");
    is_ascii_chars_encode_utf8("register:"@);
    assert(register_prefix() =~= seq![
        114u8,
        101u8,
        103u8,
        105u8,
        115u8,
        116u8,
        101u8,
        114u8,
        58u8,
    ]);
}

/// Finds where the announced address begins in a registration datagram:
/// behind the last of the prefixes that open it.
pub fn skip_register_prefixes(datagram: &[u8]) -> (start: usize)
    ensures
        start <= datagram@.len(),
        datagram@.skip(start as int) == strip_prefixes(datagram@, register_prefix()),
{
    let prefix = "register:".as_bytes();
    proof {
        lemma_register_prefix();
    }
    let len = datagram.len();
    let mut start: usize = 0;
    let mut more = has_prefix_at(datagram, 0, prefix);
    assert(datagram@.skip(0) =~= datagram@);
    while more
        invariant
            prefix@ == register_prefix(),
            prefix@.len() == 9,
            start <= datagram@.len() == len,
            more == starts_with(datagram@.skip(start as int), prefix@),
            strip_prefixes(datagram@.skip(start as int), prefix@) == strip_prefixes(
                datagram@,
                prefix@,
            ),
        decreases datagram@.len() - start,
    {
        assert(datagram@.skip(start as int).skip(9) =~= datagram@.skip(start + 9));
        start = start + prefix.len();
        more = has_prefix_at(datagram, start, prefix);
    }
    start
}

/// Builds the text with which a peer that listens on `addr` registers at
/// the dispatcher.
pub fn registration_message(addr: &str) -> (text: String)
    ensures
        text@ == registration_text(addr@),
{
    let mut text = String::from_str("register:");
    text.append(addr);
    text
}

/// What the dispatcher asks of its caller after a datagram.
#[derive(Debug, Clone, PartialEq, Eq)]
pub enum DispatchAction {
    /// A peer's registration was taken in.
    Registered,
    /// `request` goes to `target`; the datagram that arrives next is the
    /// reply to relay.
    Forward { target: String, request: PaxosMessage },
    /// No target is registered: the request is dropped.
    NoRoute,
}

impl View for DispatchAction {
    type V = DispatchActionView;

    open spec fn view(&self) -> DispatchActionView {
        match *self {
            DispatchAction::Registered => DispatchActionView::Registered,
            DispatchAction::Forward { target, request } => DispatchActionView::Forward {
                target: target@,
                request: request@,
            },
            DispatchAction::NoRoute => DispatchActionView::NoRoute,
        }
    }
}

/// A reply on its way back to the client: its addressee and its text.
#[derive(Debug, Clone, PartialEq, Eq)]
pub struct ClientReply {
    pub client: String,
    pub text: String,
}

/// The dispatcher: the coordinator's address, the followers' addresses, the
/// rotation index and the client that waits for a reply.
pub struct LoadBalancer {
    leader_addr: Option<String>,
    follower_addrs: Vec<String>,
    next_idx: usize,
    client_addr: Option<String>,
}

impl View for LoadBalancer {
    type V = LoadBalancerView;

    closed spec fn view(&self) -> LoadBalancerView {
        LoadBalancerView {
            leader: opt_text(self.leader_addr),
            followers: texts(self.follower_addrs@),
            next_idx: self.next_idx as nat,
            client: opt_text(self.client_addr),
        }
    }
}

impl LoadBalancer {
    /// A dispatcher that knows no peer and no client.
    pub fn new() -> (balancer: LoadBalancer)
        ensures
            balancer@ == (LoadBalancerView {
                leader: None,
                followers: Seq::empty(),
                next_idx: 0,
                client: None,
            }),
            balancer@.wf(),
    {
        let balancer = LoadBalancer {
            leader_addr: None,
            follower_addrs: Vec::new(),
            next_idx: 0,
            client_addr: None,
        };
        assert(balancer@.followers =~= Seq::empty());
        balancer
    }

    /// Chooses the target of the next request and moves the rotation on.
    /// The positions are the coordinator, if one is registered, followed by
    /// the followers; without any position there is no target and nothing
    /// changes.
    pub fn get_next_target(&mut self) -> (target: Option<String>)
        ensures
            opt_text(target) == old(self)@.next_target(),
            final(self)@ == old(self)@.advanced(),
            old(self)@.wf() ==> final(self)@.wf(),
    {
        proof {
            if old(self)@.wf() {
                lemma_dispatch_preserves_wf(old(self)@, Seq::empty(), Seq::empty(), 0);
            }
        }
        let m = self.follower_addrs.len();
        match &self.leader_addr {
            None => {
                if m == 0 {
                    None
                } else {
                    let pos = self.next_idx % m;
                    let target = self.follower_addrs[pos].clone();
                    self.next_idx = (pos + 1) % m;
                    Some(target)
                }
            },
            Some(leader) => {
                let pos = if self.next_idx <= m {
                    self.next_idx
                } else {
                    self.next_idx % (m + 1)
                };
                proof {
                    lemma_small_mod(pos as nat, (m + 1) as nat);
                    lemma_mod_self_0(m + 1);
                    if pos < m {
                        lemma_small_mod((pos + 1) as nat, (m + 1) as nat);
                    }
                }
                let target = if pos == 0 {
                    leader.clone()
                } else {
                    self.follower_addrs[pos - 1].clone()
                };
                self.next_idx = if pos == m {
                    0
                } else {
                    pos + 1
                };
                Some(target)
            },
        }
    }

    /// Adds `follower_addr` to the followers; an address that is already
    /// registered is merged silently.
    pub fn register_follower(&mut self, follower_addr: String)
        ensures
            final(self)@ == old(self)@.with_follower(follower_addr@),
            old(self)@.wf() ==> final(self)@.wf(),
    {
        proof {
            if old(self)@.wf() {
                lemma_registration_preserves_wf(old(self)@, follower_addr@);
            }
        }
        if !list_contains(&self.follower_addrs, follower_addr.as_str()) {
            self.follower_addrs.push(follower_addr);
            assert(texts(self.follower_addrs@) =~= texts(old(self).follower_addrs@).push(
                follower_addr@,
            ));
        }
    }

    /// Sets the coordinator's address, replacing an earlier one.
    pub fn register_leader(&mut self, leader_addr: String)
        ensures
            final(self)@ == old(self)@.with_leader(leader_addr@),
            old(self)@.wf() ==> final(self)@.wf(),
    {
        proof {
            if old(self)@.wf() {
                lemma_registration_preserves_wf(old(self)@, leader_addr@);
            }
        }
        self.leader_addr = Some(leader_addr);
    }

    /// Takes in a registration: the first address becomes the coordinator,
    /// later ones become followers.
    pub fn register_peer(&mut self, addr: String)
        ensures
            final(self)@ == old(self)@.with_peer(addr@),
            old(self)@.wf() ==> final(self)@.wf(),
    {
        if self.leader_addr.is_none() {
            self.register_leader(addr);
        } else {
            self.register_follower(addr);
        }
    }

    /// Takes in a datagram that arrived from `source`. A datagram that opens
    /// with `register:` announces a peer. Any other datagram is a client's
    /// request: `source` is remembered as the client to answer, and the
    /// payload, tagged with `request_id`, is forwarded to the next target
    /// in rotation, or dropped when there is none.
    pub fn route_datagram(&mut self, source: &str, datagram: &[u8], request_id: u64) -> (action:
        DispatchAction)
        ensures
            (final(self)@, action@) == old(self)@.on_datagram(source@, datagram@, request_id),
            old(self)@.wf() ==> final(self)@.wf(),
    {
        proof {
            if old(self)@.wf() {
                lemma_dispatch_preserves_wf(old(self)@, source@, datagram@, request_id);
            }
        }
        let prefix = "register:".as_bytes();
        assert(datagram@.skip(0) =~= datagram@);
        if has_prefix_at(datagram, 0, prefix) {
            let start = skip_register_prefixes(datagram);
            let rest = slice_subrange(datagram, start, datagram.len());
            assert(rest@ =~= datagram@.skip(start as int));
            let text = lossy_text(rest);
            let addr = trim_text(text.as_str());
            self.register_peer(String::from_str(addr));
            DispatchAction::Registered
        } else {
            self.client_addr = Some(String::from_str(source));
            match self.get_next_target() {
                None => DispatchAction::NoRoute,
                Some(target) => DispatchAction::Forward {
                    target,
                    request: PaxosMessage::ClientRequest {
                        request_id: request_id as u128,
                        payload: slice_to_vec(datagram),
                    },
                },
            }
        }
    }

    /// Takes in a datagram like [`Self::route_datagram`], with a request
    /// identifier drawn at random.
    pub fn handle_datagram(&mut self, source: &str, datagram: &[u8]) -> (action: DispatchAction)
        ensures
            exists|request_id: u64|
                (final(self)@, action@) == #[trigger] old(self)@.on_datagram(
                    source@,
                    datagram@,
                    request_id,
                ),
            old(self)@.wf() ==> final(self)@.wf(),
    {
        let request_id = random_u64();
        self.route_datagram(source, datagram, request_id)
    }

    /// Addresses the reply to a forwarded request: `body`, read as text,
    /// goes to the client that was remembered last. Without such a client
    /// there is nobody to answer.
    pub fn relay_reply(&self, body: &[u8]) -> (reply: Option<ClientReply>)
        ensures
            match reply {
                Some(r) => self@.on_reply(body@) == Some((r.client@, r.text@)),
                None => self@.on_reply(body@) is None,
            },
    {
        match &self.client_addr {
            None => None,
            Some(client) => Some(ClientReply { client: client.clone(), text: lossy_text(body) }),
        }
    }

    /// The registered followers, in order of registration.
    pub fn snapshot_followers(&self) -> (list: Vec<String>)
        ensures
            texts(list@) == self@.followers,
    {
        clone_texts(&self.follower_addrs)
    }

    /// The coordinator's address, if one has registered.
    pub fn leader(&self) -> (addr: Option<String>)
        ensures
            opt_text(addr) == self@.leader,
    {
        clone_opt_text(&self.leader_addr)
    }

    /// The client whose request was forwarded last.
    pub fn pending_client(&self) -> (addr: Option<String>)
        ensures
            opt_text(addr) == self@.client,
    {
        clone_opt_text(&self.client_addr)
    }
}

/// Choosing targets moves the rotation index and nothing else: after
/// `count` choices the index has advanced by `count`, modulo the number of
/// positions.
pub proof fn lemma_rotation_position(state: LoadBalancerView, count: nat)
    requires
        state.targets().len() > 0,
    ensures
        state.advanced_by(count).leader == state.leader,
        state.advanced_by(count).followers == state.followers,
        state.advanced_by(count).client == state.client,
        state.advanced_by(count).next_idx % state.targets().len() == (state.next_idx + count)
            % state.targets().len(),
    decreases count,
{
    let n = state.targets().len() as int;
    if count > 0 {
        let idx = state.next_idx as int;
        lemma_rotation_position(state.advanced(), (count - 1) as nat);
        lemma_add_mod_noop_right(count - 1, idx % n + 1, n);
        lemma_add_mod_noop_right(count as int, idx, n);
    } else {
        lemma_mod_twice(state.next_idx as int, n);
    }
}

/// The rotation visits every target within as many requests as there are
/// targets: whatever the index is, each position comes up after fewer than
/// `targets().len()` earlier choices.
pub proof fn lemma_rotation_visits_every_target(state: LoadBalancerView, position: int)
    requires
        0 <= position < state.targets().len(),
    ensures
        exists|count: nat|
            count < state.targets().len() && #[trigger] state.advanced_by(count).next_target()
                == Some(state.targets()[position]),
{
    let n = state.targets().len() as int;
    let idx = state.next_idx as int;
    let start = idx % n;
    let count: nat = if position >= start {
        (position - start) as nat
    } else {
        (position - start + n) as nat
    };
    lemma_rotation_position(state, count);
    lemma_add_mod_noop_right(count as int, idx, n);
    lemma_small_mod(position as nat, n as nat);
    lemma_mod_add_multiples_vanish(position, n);
    let later = state.advanced_by(count);
    assert(later.targets() == state.targets());
    assert(later.next_idx % (n as nat) == position);
    assert(later.next_target() == Some(state.targets()[position]));
}

/// A registration keeps a sound state sound, whether the address becomes
/// the coordinator or a follower.
pub proof fn lemma_registration_preserves_wf(state: LoadBalancerView, addr: Seq<char>)
    requires
        state.wf(),
    ensures
        state.with_leader(addr).wf(),
        state.with_follower(addr).wf(),
        state.with_peer(addr).wf(),
{
    if !state.followers.contains(addr) {
        lemma_push_fresh_keeps_distinct(state.followers, addr);
    }
}

/// Every step keeps a sound state sound: followers stay distinct and the
/// index keeps naming a position. In a sound state the next target is the
/// position that the index names.
pub proof fn lemma_dispatch_preserves_wf(
    state: LoadBalancerView,
    source: Seq<char>,
    datagram: Seq<u8>,
    request_id: u64,
)
    requires
        state.wf(),
    ensures
        state.on_datagram(source, datagram, request_id).0.wf(),
        state.advanced().wf(),
        state.targets().len() > 0 ==> state.next_target() == Some(
            state.targets()[state.next_idx as int],
        ),
{
    let n = state.targets().len();
    if n > 0 {
        lemma_small_mod(state.next_idx, n);
    }
    lemma_registration_preserves_wf(state, announced_addr(datagram));
}

} // verus!
