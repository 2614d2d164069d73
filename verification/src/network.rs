//! The wire codec and the reading of inbound datagrams.
//!
//! A frame opens with its variant's tag in four bytes, least significant
//! first, followed by the variant's fields in order. A text or a byte
//! string is written as its length in eight bytes, least significant first,
//! and then the bytes themselves; a text is written in UTF-8. A request
//! identifier is written as a byte string of sixteen bytes, most
//! significant byte first. Bytes behind the last field are not part of the
//! frame and are ignored.

use crate::byte_order::{
    be_bytes, be_value, le_bytes, le_decode, le_encode, le_value, lemma_be_bytes_of_value,
    lemma_le_bytes_len, lemma_le_bytes_of_value, lemma_le_round_trip, lemma_le_value_bound,
    lemma_radix_values, reversed,
};
use crate::ids::{fresh_request_id, is_random_uuid};
use crate::text::{starts_with, text_from_utf8};
use crate::types::{MessageView, PaxosMessage};
use vstd::prelude::*;
use vstd::slice::{slice_subrange, slice_to_vec};
use vstd::utf8::*;

verus! {

/// The size of the receive buffer: what a datagram holds beyond it is cut
/// off.
pub const MAX_DATAGRAM_SIZE: usize = 1024;

/// The tag of `RegisterFollower`.
pub const TAG_REGISTER_FOLLOWER: u32 = 0;

/// The tag of `ClientRequest`.
pub const TAG_CLIENT_REQUEST: u32 = 1;

/// The tag of `FollowerAck`.
pub const TAG_FOLLOWER_ACK: u32 = 2;

/// The failure of the codec.
#[derive(Debug, Clone, Copy, PartialEq, Eq)]
pub enum CodecError {
    /// The bytes do not open with a frame: the tag is unknown, a field is
    /// cut short, an identifier is not sixteen bytes long or a text is not
    /// UTF-8.
    MalformedFrame,
}

/// The four bytes of a tag, least significant first.
pub open spec fn tag_bytes(tag: u32) -> Seq<u8> {
    le_bytes(tag as nat, 4)
}

/// The sixteen bytes of an identifier, most significant first.
pub open spec fn id_bytes(id: u128) -> Seq<u8> {
    be_bytes(id as nat, 16)
}

/// The identifier that sixteen bytes stand for.
pub open spec fn id_of_bytes(bytes: Seq<u8>) -> u128 {
    be_value(bytes) as u128
}

/// A byte string as a field: its length in eight bytes, least significant
/// first, then its bytes.
pub open spec fn length_prefixed(body: Seq<u8>) -> Seq<u8> {
    le_bytes(body.len(), 8) + body
}

/// The frame of a message.
pub open spec fn spec_encode(message: MessageView) -> Seq<u8> {
    match message {
        MessageView::RegisterFollower { follower_addr } => tag_bytes(TAG_REGISTER_FOLLOWER)
            + length_prefixed(encode_utf8(follower_addr)),
        MessageView::ClientRequest { request_id, payload } => tag_bytes(TAG_CLIENT_REQUEST)
            + length_prefixed(id_bytes(request_id)) + length_prefixed(payload),
        MessageView::FollowerAck { request_id } => tag_bytes(TAG_FOLLOWER_ACK) + length_prefixed(
            id_bytes(request_id),
        ),
    }
}

/// Whether every field of the message is short enough for its length to be
/// written in 64 bits. This holds of every message in memory.
pub open spec fn encodable(message: MessageView) -> bool {
    match message {
        MessageView::RegisterFollower { follower_addr } => encode_utf8(follower_addr).len()
            <= u64::MAX,
        MessageView::ClientRequest { payload, .. } => payload.len() <= u64::MAX,
        MessageView::FollowerAck { .. } => true,
    }
}

/// Splits the field at the front of `bytes` from what follows it; `None`
/// when the field is cut short.
pub open spec fn take_field(bytes: Seq<u8>) -> Option<(Seq<u8>, Seq<u8>)> {
    if bytes.len() < 8 {
        None
    } else {
        let len = le_value(bytes.take(8)) as int;
        if bytes.len() - 8 < len {
            None
        } else {
            Some((bytes.subrange(8, 8 + len), bytes.skip(8 + len)))
        }
    }
}

/// Splits the identifier at the front of `bytes` from what follows it;
/// `None` when the field is cut short or not sixteen bytes long.
pub open spec fn take_id(bytes: Seq<u8>) -> Option<(u128, Seq<u8>)> {
    match take_field(bytes) {
        Some((body, rest)) => if body.len() == 16 {
            Some((id_of_bytes(body), rest))
        } else {
            None
        },
        None => None,
    }
}

/// The message whose frame opens `bytes`, if there is one.
pub open spec fn spec_decode(bytes: Seq<u8>) -> Option<MessageView> {
    if bytes.len() < 4 {
        None
    } else {
        let tag = le_value(bytes.take(4));
        let fields = bytes.skip(4);
        if tag == TAG_REGISTER_FOLLOWER {
            match take_field(fields) {
                Some((body, _)) => if valid_utf8(body) {
                    Some(MessageView::RegisterFollower { follower_addr: decode_utf8(body) })
                } else {
                    None
                },
                None => None,
            }
        } else if tag == TAG_CLIENT_REQUEST {
            match take_id(fields) {
                Some((request_id, rest)) => match take_field(rest) {
                    Some((payload, _)) => Some(MessageView::ClientRequest { request_id, payload }),
                    None => None,
                },
                None => None,
            }
        } else if tag == TAG_FOLLOWER_ACK {
            match take_id(fields) {
                Some((request_id, _)) => Some(MessageView::FollowerAck { request_id }),
                None => None,
            }
        } else {
            None
        }
    }
}

/// What a datagram means to its receiver: the message whose frame opens
/// it, or, when there is none, a client request that holds the datagram as
/// it is under the identifier `fresh_id`. Only the first
/// `MAX_DATAGRAM_SIZE` bytes count.
pub open spec fn interpret(datagram: Seq<u8>, fresh_id: u128) -> MessageView {
    let frame = clipped(datagram);
    match spec_decode(frame) {
        Some(message) => message,
        None => MessageView::ClientRequest { request_id: fresh_id, payload: frame },
    }
}

/// The part of a datagram that fits the receive buffer.
pub open spec fn clipped(datagram: Seq<u8>) -> Seq<u8> {
    if datagram.len() <= MAX_DATAGRAM_SIZE {
        datagram
    } else {
        datagram.take(MAX_DATAGRAM_SIZE as int)
    }
}

fn append_bytes(out: &mut Vec<u8>, bytes: &[u8])
    ensures
        final(out)@ == old(out)@ + bytes@,
{
    let mut i: usize = 0;
    while i < bytes.len()
        invariant
            i <= bytes@.len(),
            out@ == old(out)@ + bytes@.take(i as int),
        decreases bytes@.len() - i,
    {
        out.push(bytes[i]);
        assert(out@ =~= old(out)@ + bytes@.take(i + 1));
        i = i + 1;
    }
    assert(bytes@.take(i as int) =~= bytes@);
}

fn append_field(out: &mut Vec<u8>, body: &[u8])
    ensures
        final(out)@ == old(out)@ + length_prefixed(body@),
        body@.len() <= u64::MAX,
{
    let len = le_encode(body.len() as u128, 8);
    append_bytes(out, len.as_slice());
    append_bytes(out, body);
    assert(out@ =~= old(out)@ + length_prefixed(body@));
}

fn append_id(out: &mut Vec<u8>, id: u128)
    ensures
        final(out)@ == old(out)@ + length_prefixed(id_bytes(id)),
{
    let bytes = reversed(le_encode(id, 16).as_slice());
    proof {
        lemma_le_bytes_len(id as nat, 16);
    }
    append_field(out, bytes.as_slice());
}

/// Encodes a message into its frame. Decoding the frame gives the
/// message back.
pub fn encode(message: &PaxosMessage) -> (bytes: Vec<u8>)
    ensures
        bytes@ == spec_encode(message@),
        encodable(message@),
        spec_decode(bytes@) == Some(message@),
{
    proof {
        if encodable(message@) {
            lemma_round_trip(message@, Seq::empty());
        }
    }
    match message {
        PaxosMessage::RegisterFollower { follower_addr } => {
            let mut out = le_encode(TAG_REGISTER_FOLLOWER as u128, 4);
            append_field(&mut out, follower_addr.as_str().as_bytes());
            out
        },
        PaxosMessage::ClientRequest { request_id, payload } => {
            let mut out = le_encode(TAG_CLIENT_REQUEST as u128, 4);
            append_id(&mut out, *request_id);
            append_field(&mut out, payload.as_slice());
            out
        },
        PaxosMessage::FollowerAck { request_id } => {
            let mut out = le_encode(TAG_FOLLOWER_ACK as u128, 4);
            append_id(&mut out, *request_id);
            out
        },
    }
}

struct Field {
    start: usize,
    end: usize,
}

fn read_field(bytes: &[u8], at: usize) -> (field: Option<Field>)
    requires
        at <= bytes@.len(),
    ensures
        match field {
            Some(f) => at + 8 <= f.start <= f.end <= bytes@.len() && take_field(
                bytes@.skip(at as int),
            ) == Some((bytes@.subrange(f.start as int, f.end as int), bytes@.skip(f.end as int))),
            None => take_field(bytes@.skip(at as int)) is None,
        },
{
    let total = bytes.len();
    if total - at < 8 {
        return None;
    }
    let prefix = slice_subrange(bytes, at, at + 8);
    assert(prefix@ =~= bytes@.skip(at as int).take(8));
    let len = le_decode(prefix);
    let room = total - at - 8;
    if (room as u128) < len {
        return None;
    }
    let start = at + 8;
    let end = start + len as usize;
    assert(bytes@.skip(at as int).subrange(8, 8 + len) =~= bytes@.subrange(
        start as int,
        end as int,
    ));
    assert(bytes@.skip(at as int).skip(8 + len) =~= bytes@.skip(end as int));
    Some(Field { start, end })
}

struct IdField {
    id: u128,
    end: usize,
}

fn read_id(bytes: &[u8], at: usize) -> (field: Option<IdField>)
    requires
        at <= bytes@.len(),
    ensures
        match field {
            Some(f) => f.end <= bytes@.len() && take_id(bytes@.skip(at as int)) == Some(
                (f.id, bytes@.skip(f.end as int)),
            ),
            None => take_id(bytes@.skip(at as int)) is None,
        },
{
    match read_field(bytes, at) {
        None => None,
        Some(f) => {
            if f.end - f.start != 16 {
                return None;
            }
            let le = reversed(slice_subrange(bytes, f.start, f.end));
            Some(IdField { id: le_decode(le.as_slice()), end: f.end })
        },
    }
}

/// Decodes the frame that opens `bytes`.
///
/// Fails with [`CodecError::MalformedFrame`] exactly when no frame opens
/// `bytes`: the tag is unknown, a field is cut short, an identifier is not
/// sixteen bytes long, or an address is not UTF-8.
pub fn decode(bytes: &[u8]) -> (message: Result<PaxosMessage, CodecError>)
    ensures
        match message {
            Ok(m) => spec_decode(bytes@) == Some(m@),
            Err(_) => spec_decode(bytes@) is None,
        },
{
    if bytes.len() < 4 {
        return Err(CodecError::MalformedFrame);
    }
    let head = slice_subrange(bytes, 0, 4);
    assert(head@ =~= bytes@.take(4));
    let tag = le_decode(head);
    if tag == TAG_REGISTER_FOLLOWER as u128 {
        match read_field(bytes, 4) {
            None => Err(CodecError::MalformedFrame),
            Some(f) => {
                let body = slice_to_vec(slice_subrange(bytes, f.start, f.end));
                match text_from_utf8(body) {
                    None => Err(CodecError::MalformedFrame),
                    Some(follower_addr) => {
                        proof {
                            encode_utf8_decode_utf8(follower_addr@);
                        }
                        Ok(PaxosMessage::RegisterFollower { follower_addr })
                    },
                }
            },
        }
    } else if tag == TAG_CLIENT_REQUEST as u128 {
        match read_id(bytes, 4) {
            None => Err(CodecError::MalformedFrame),
            Some(id) => match read_field(bytes, id.end) {
                None => Err(CodecError::MalformedFrame),
                Some(f) => Ok(
                    PaxosMessage::ClientRequest {
                        request_id: id.id,
                        payload: slice_to_vec(slice_subrange(bytes, f.start, f.end)),
                    },
                ),
            },
        }
    } else if tag == TAG_FOLLOWER_ACK as u128 {
        match read_id(bytes, 4) {
            None => Err(CodecError::MalformedFrame),
            Some(id) => Ok(PaxosMessage::FollowerAck { request_id: id.id }),
        }
    } else {
        Err(CodecError::MalformedFrame)
    }
}

/// Cuts a datagram down to what fits the receive buffer.
pub fn clip_datagram(datagram: &[u8]) -> (frame: &[u8])
    ensures
        frame@ == clipped(datagram@),
{
    if datagram.len() <= MAX_DATAGRAM_SIZE {
        datagram
    } else {
        slice_subrange(datagram, 0, MAX_DATAGRAM_SIZE)
    }
}

/// Reads a datagram, with `fresh_id` at hand for an unframed one: the
/// message whose frame opens the datagram, or else a client request that
/// holds the datagram as its payload.
pub fn interpret_datagram(datagram: &[u8], fresh_id: u128) -> (message: PaxosMessage)
    ensures
        message@ == interpret(datagram@, fresh_id),
{
    let frame = clip_datagram(datagram);
    match decode(frame) {
        Ok(message) => message,
        Err(_) => PaxosMessage::ClientRequest { request_id: fresh_id, payload: slice_to_vec(frame) },
    }
}

/// Reads a datagram like [`interpret_datagram`]; an unframed datagram
/// becomes a client request under a freshly minted random identifier.
pub fn receive_message(datagram: &[u8]) -> (message: PaxosMessage)
    ensures
        spec_decode(clipped(datagram@)) matches Some(framed) ==> message@ == framed,
        spec_decode(clipped(datagram@)) is None ==> exists|id: u128|
            is_random_uuid(id) && message@ == #[trigger] interpret(datagram@, id),
{
    let frame = clip_datagram(datagram);
    match decode(frame) {
        Ok(message) => message,
        Err(_) => {
            let id = fresh_request_id();
            let message = PaxosMessage::ClientRequest {
                request_id: id,
                payload: slice_to_vec(frame),
            };
            assert(message@ == interpret(datagram@, id));
            message
        },
    }
}

/// A tag is written in four bytes and read back from them.
pub proof fn lemma_tags()
    ensures
        forall|tag: u32| (#[trigger] tag_bytes(tag)).len() == 4 && le_value(tag_bytes(tag)) == tag,
{
    lemma_radix_values();
    assert forall|tag: u32| (#[trigger] tag_bytes(tag)).len() == 4 && le_value(tag_bytes(tag))
        == tag by {
        lemma_le_bytes_len(tag as nat, 4);
        lemma_le_round_trip(tag as nat, 4);
    }
}

/// A field that was written is read back, together with what follows it.
pub proof fn lemma_take_field(body: Seq<u8>, rest: Seq<u8>)
    requires
        body.len() <= u64::MAX,
    ensures
        take_field(length_prefixed(body) + rest) == Some((body, rest)),
{
    lemma_radix_values();
    lemma_le_round_trip(body.len(), 8);
    lemma_le_bytes_len(body.len(), 8);
    let bytes = length_prefixed(body) + rest;
    assert(bytes.take(8) =~= le_bytes(body.len(), 8));
    let len = body.len() as int;
    assert(bytes.subrange(8, 8 + len) =~= body);
    assert(bytes.skip(8 + len) =~= rest);
}

/// An identifier is written in sixteen bytes and read back from them, and
/// sixteen bytes are the writing of the identifier they stand for.
pub proof fn lemma_id_round_trip(id: u128, bytes: Seq<u8>)
    ensures
        id_bytes(id).len() == 16,
        id_of_bytes(id_bytes(id)) == id,
        bytes.len() == 16 ==> id_bytes(id_of_bytes(bytes)) == bytes,
{
    lemma_radix_values();
    lemma_le_bytes_len(id as nat, 16);
    lemma_le_round_trip(id as nat, 16);
    if bytes.len() == 16 {
        lemma_le_value_bound(bytes.reverse());
        lemma_be_bytes_of_value(bytes);
    }
}

/// An identifier that was written is read back, together with what follows
/// it.
pub proof fn lemma_take_id(id: u128, rest: Seq<u8>)
    ensures
        take_id(length_prefixed(id_bytes(id)) + rest) == Some((id, rest)),
{
    lemma_id_round_trip(id, Seq::empty());
    lemma_take_field(id_bytes(id), rest);
}

/// Encoding then decoding gives the message back: the frame of a message,
/// whatever bytes follow it, decodes to that message.
pub proof fn lemma_round_trip(message: MessageView, trailing: Seq<u8>)
    requires
        encodable(message),
    ensures
        spec_decode(spec_encode(message) + trailing) == Some(message),
        spec_decode(spec_encode(message)) == Some(message),
{
    assert(spec_encode(message) + Seq::<u8>::empty() =~= spec_encode(message));
    lemma_round_trip_with(message, trailing);
    lemma_round_trip_with(message, Seq::empty());
}

proof fn lemma_round_trip_with(message: MessageView, trailing: Seq<u8>)
    requires
        encodable(message),
    ensures
        spec_decode(spec_encode(message) + trailing) == Some(message),
{
    lemma_tags();
    let bytes = spec_encode(message) + trailing;
    match message {
        MessageView::RegisterFollower { follower_addr } => {
            let tag = tag_bytes(TAG_REGISTER_FOLLOWER);
            let body = encode_utf8(follower_addr);
            assert(bytes.take(4) =~= tag);
            assert(bytes.skip(4) =~= length_prefixed(body) + trailing);
            lemma_take_field(body, trailing);
            encode_utf8_valid_utf8(follower_addr);
            encode_utf8_decode_utf8(follower_addr);
        },
        MessageView::ClientRequest { request_id, payload } => {
            let tag = tag_bytes(TAG_CLIENT_REQUEST);
            let rest = length_prefixed(payload) + trailing;
            assert(bytes.take(4) =~= tag);
            assert(bytes.skip(4) =~= length_prefixed(id_bytes(request_id)) + rest);
            lemma_take_id(request_id, rest);
            lemma_take_field(payload, trailing);
        },
        MessageView::FollowerAck { request_id } => {
            let tag = tag_bytes(TAG_FOLLOWER_ACK);
            assert(bytes.take(4) =~= tag);
            assert(bytes.skip(4) =~= length_prefixed(id_bytes(request_id)) + trailing);
            lemma_take_id(request_id, trailing);
        },
    }
}

/// A field that is read was written: the bytes open with the field's
/// writing, and the rest follows it.
pub proof fn lemma_field_taken(bytes: Seq<u8>)
    requires
        take_field(bytes) is Some,
    ensures
        take_field(bytes) matches Some((body, rest)) && bytes == length_prefixed(body) + rest
            && body.len() <= u64::MAX,
{
    lemma_radix_values();
    lemma_le_value_bound(bytes.take(8));
    lemma_le_bytes_of_value(bytes.take(8));
    let field = take_field(bytes)->0;
    assert(bytes =~= bytes.take(8) + field.0 + field.1);
}

/// Decoding accepts nothing but frames: bytes that decode to a message
/// open with that message's frame.
pub proof fn lemma_decode_sound(bytes: Seq<u8>)
    requires
        spec_decode(bytes) is Some,
    ensures
        encodable(spec_decode(bytes)->0),
        starts_with(bytes, spec_encode(spec_decode(bytes)->0)),
{
    lemma_le_bytes_of_value(bytes.take(4));
    let message = spec_decode(bytes)->0;
    let frame = spec_encode(message);
    let fields = bytes.skip(4);
    assert(bytes =~= bytes.take(4) + fields);
    match message {
        MessageView::RegisterFollower { follower_addr } => {
            lemma_field_taken(fields);
            let field = take_field(fields)->0;
            decode_utf8_encode_utf8(field.0);
            assert(bytes.subrange(0, frame.len() as int) =~= frame);
        },
        MessageView::ClientRequest { request_id, payload } => {
            lemma_field_taken(fields);
            let field = take_field(fields)->0;
            lemma_id_round_trip(0, field.0);
            lemma_field_taken(field.1);
            assert(bytes.subrange(0, frame.len() as int) =~= frame);
        },
        MessageView::FollowerAck { request_id } => {
            lemma_field_taken(fields);
            let field = take_field(fields)->0;
            lemma_id_round_trip(0, field.0);
            assert(bytes.subrange(0, frame.len() as int) =~= frame);
        },
    }
}

/// Decoding succeeds exactly on the bytes that open with a frame.
pub proof fn lemma_decodes_iff_framed(bytes: Seq<u8>)
    ensures
        spec_decode(bytes) is Some <==> exists|message: MessageView|
            encodable(message) && starts_with(bytes, #[trigger] spec_encode(message)),
{
    if spec_decode(bytes) is Some {
        lemma_decode_sound(bytes);
        let message = spec_decode(bytes)->0;
        assert(encodable(message) && starts_with(bytes, spec_encode(message)));
    }
    if exists|message: MessageView|
        encodable(message) && starts_with(bytes, #[trigger] spec_encode(message)) {
        let message = choose|message: MessageView|
            encodable(message) && starts_with(bytes, #[trigger] spec_encode(message));
        let frame = spec_encode(message);
        assert(bytes =~= frame + bytes.skip(frame.len() as int));
        lemma_round_trip(message, bytes.skip(frame.len() as int));
    }
}

/// A frame that fits the receive buffer is read as the message it was made
/// from, whatever identifier is at hand.
pub proof fn lemma_frame_is_received(message: MessageView, fresh_id: u128)
    requires
        encodable(message),
        spec_encode(message).len() <= MAX_DATAGRAM_SIZE,
    ensures
        interpret(spec_encode(message), fresh_id) == message,
{
    lemma_round_trip(message, Seq::empty());
}

/// Distinct messages have distinct frames.
pub proof fn lemma_encode_injective(first: MessageView, second: MessageView)
    requires
        encodable(first),
        encodable(second),
        spec_encode(first) == spec_encode(second),
    ensures
        first == second,
{
    lemma_round_trip(first, Seq::empty());
    lemma_round_trip(second, Seq::empty());
}

} // verus!
