//! The messages that travel between dispatcher, coordinator and followers.

use crate::text::same_text;
use vstd::prelude::*;

verus! {

/// A message of the replication path.
#[derive(Debug, Clone, PartialEq, Eq)]
pub enum PaxosMessage {
    /// A follower announces the address it listens on.
    RegisterFollower { follower_addr: String },
    /// A client payload, tagged with the identifier of its request.
    ClientRequest { request_id: u128, payload: Vec<u8> },
    /// A follower confirms that it holds the payload of a request.
    FollowerAck { request_id: u128 },
}

/// The mathematical content of a [`PaxosMessage`].
pub enum MessageView {
    RegisterFollower { follower_addr: Seq<char> },
    ClientRequest { request_id: u128, payload: Seq<u8> },
    FollowerAck { request_id: u128 },
}

impl View for PaxosMessage {
    type V = MessageView;

    open spec fn view(&self) -> MessageView {
        match *self {
            PaxosMessage::RegisterFollower { follower_addr } => MessageView::RegisterFollower {
                follower_addr: follower_addr@,
            },
            PaxosMessage::ClientRequest { request_id, payload } => MessageView::ClientRequest {
                request_id,
                payload: payload@,
            },
            PaxosMessage::FollowerAck { request_id } => MessageView::FollowerAck { request_id },
        }
    }
}

/// The view of an optional text.
pub open spec fn opt_text(text: Option<String>) -> Option<Seq<char>> {
    match text {
        Some(t) => Some(t@),
        None => None,
    }
}

/// The views of a list of texts, in order.
pub open spec fn texts(list: Seq<String>) -> Seq<Seq<char>> {
    list.map_values(|t: String| t@)
}

/// Copies an optional text.
pub fn clone_opt_text(text: &Option<String>) -> (copy: Option<String>)
    ensures
        opt_text(copy) == opt_text(*text),
{
    match text {
        Some(t) => Some(t.clone()),
        None => None,
    }
}

/// Copies a list of texts.
pub fn clone_texts(list: &Vec<String>) -> (copy: Vec<String>)
    ensures
        texts(copy@) == texts(list@),
{
    let mut copy: Vec<String> = Vec::new();
    let mut i: usize = 0;
    while i < list.len()
        invariant
            i <= list@.len(),
            copy@.len() == i,
            forall|j: int| 0 <= j < i ==> copy@[j]@ == list@[j]@,
        decreases list@.len() - i,
    {
        copy.push(list[i].clone());
        i = i + 1;
    }
    assert(texts(copy@) =~= texts(list@));
    copy
}

/// Tests whether `text` is one of the texts in `list`.
pub fn list_contains(list: &Vec<String>, text: &str) -> (found: bool)
    ensures
        found == texts(list@).contains(text@),
{
    let mut i: usize = 0;
    while i < list.len()
        invariant
            i <= list@.len(),
            forall|j: int| 0 <= j < i ==> list@[j]@ != text@,
        decreases list@.len() - i,
    {
        if same_text(list[i].as_str(), text) {
            assert(texts(list@)[i as int] == text@);
            return true;
        }
        i = i + 1;
    }
    false
}

/// Appending an element that does not occur yet keeps a list free of
/// duplicates.
pub proof fn lemma_push_fresh_keeps_distinct<A>(list: Seq<A>, item: A)
    requires
        list.no_duplicates(),
        !list.contains(item),
    ensures
        list.push(item).no_duplicates(),
{
    let longer = list.push(item);
    assert forall|i: int, j: int| 0 <= i < longer.len() && 0 <= j < longer.len() && i != j implies longer[i]
        != longer[j] by {
        if i < list.len() && j < list.len() {
        } else if i < list.len() {
            assert(list.contains(list[i]));
        } else {
            assert(list.contains(list[j]));
        }
    }
}

} // verus!
