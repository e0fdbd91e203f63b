//! Wire codec: `[PROTO_VER][postcard(session message)]`. Input is untrusted: decoding never
//! panics, it reports why a datagram was dropped.

use ggrs::Message;
use vstd::prelude::*;

verus! {

/// The session message type, carried through opaque.
#[verifier::external_type_specification]
#[verifier::external_body]
pub struct ExMessage(ggrs::Message);

/// The error postcard reports, carried through opaque.
#[verifier::external_type_specification]
#[verifier::external_body]
pub struct ExPostcardError(postcard::Error);

/// Protocol version byte. Bump on any incompatible change.
pub const PROTO_VER: u8 = 1;
/// Hard cap for one datagram (fragmentation-safe).
pub const MAX_PACKET: usize = 1200;

/// Why a packet was dropped.
#[derive(Debug, PartialEq, Eq, Structural)]
pub enum DecodeError {
    /// Empty or oversized buffer.
    Size(usize),
    /// Peer runs another protocol version.
    Version(u8),
    /// Body failed to deserialize.
    Malformed,
}

/// The session message postcard reads from `body`, if it reads one.
pub uninterp spec fn postcard_message_of(body: Seq<u8>) -> Option<Message>;

/// The bytes postcard writes for `msg`, if it can serialize it.
pub uninterp spec fn postcard_body_of(msg: Message) -> Option<Seq<u8>>;

/// Calls `postcard::to_allocvec` on a session message. Claimed: the outcome depends on the
/// message alone, and is named [`postcard_body_of`].
#[verifier::external_body]
fn postcard_encode(msg: &Message) -> (r: Result<Vec<u8>, postcard::Error>)
    ensures
        r matches Ok(b) ==> postcard_body_of(*msg) == Some(b@),
        r is Err ==> postcard_body_of(*msg) is None,
{
    postcard::to_allocvec(msg)
}

/// Calls `postcard::from_bytes` for a session message. Claimed: the outcome depends on the
/// bytes alone, and is named [`postcard_message_of`].
#[verifier::external_body]
fn postcard_decode(body: &[u8]) -> (r: Result<Message, postcard::Error>)
    ensures
        r matches Ok(m) ==> postcard_message_of(body@) == Some(m),
        r is Err ==> postcard_message_of(body@) is None,
{
    postcard::from_bytes(body)
}

/// A datagram for an encoded body: the version byte then the body, or `None` when it would
/// exceed [`MAX_PACKET`].
pub fn frame_body(body: &[u8]) -> (r: Option<Vec<u8>>)
    ensures
        body@.len() + 1 <= MAX_PACKET ==> (r matches Some(out) && out@ == seq![PROTO_VER] + body@),
        body@.len() + 1 > MAX_PACKET ==> r is None,
{
    if body.len() >= MAX_PACKET {
        return None;
    }
    let mut out: Vec<u8> = Vec::new();
    out.push(PROTO_VER);
    let mut i: usize = 0;
    while i < body.len()
        invariant
            i <= body@.len(),
            out@ == seq![PROTO_VER] + body@.take(i as int),
        decreases body@.len() - i,
    {
        out.push(body[i]);
        proof {
            assert(out@ =~= seq![PROTO_VER] + body@.take(i + 1));
        }
        i = i + 1;
    }
    proof {
        assert(body@.take(body@.len() as int) =~= body@);
    }
    Some(out)
}

/// Encode a session message: [`PROTO_VER`] then postcard's bytes for it; `None` if postcard
/// cannot serialize it or the datagram would exceed [`MAX_PACKET`].
pub fn encode(msg: &Message) -> (r: Option<Vec<u8>>)
    ensures
        r is Some <==> (postcard_body_of(*msg) matches Some(b) && b.len() + 1 <= MAX_PACKET),
        r matches Some(out) ==> out@ == seq![PROTO_VER] + postcard_body_of(*msg)->0,
{
    match postcard_encode(msg) {
        Ok(body) => frame_body(body.as_slice()),
        Err(_) => None,
    }
}

/// Decode a datagram: a size outside `1..=MAX_PACKET` is `Size`, another leading byte than
/// [`PROTO_VER`] is `Version`, and a body postcard cannot read is `Malformed`; otherwise the
/// message postcard reads from the body.
pub fn decode(bytes: &[u8]) -> (r: Result<Message, DecodeError>)
    ensures
        (bytes@.len() == 0 || bytes@.len() > MAX_PACKET) ==> (r matches Err(DecodeError::Size(n))
            && n == bytes@.len()),
        (1 <= bytes@.len() <= MAX_PACKET && bytes@[0] != PROTO_VER) ==> (r matches Err(
            DecodeError::Version(v),
        ) && v == bytes@[0]),
        (1 <= bytes@.len() <= MAX_PACKET && bytes@[0] == PROTO_VER) ==> {
            &&& postcard_message_of(bytes@.subrange(1, bytes@.len() as int)) matches Some(m) ==> r
                == Ok::<Message, DecodeError>(m)
            &&& postcard_message_of(bytes@.subrange(1, bytes@.len() as int)) is None ==> r matches Err(
                DecodeError::Malformed,
            )
        },
{
    if bytes.len() == 0 || bytes.len() > MAX_PACKET {
        return Err(DecodeError::Size(bytes.len()));
    }
    if bytes[0] != PROTO_VER {
        return Err(DecodeError::Version(bytes[0]));
    }
    let body = vstd::slice::slice_subrange(bytes, 1, bytes.len());
    match postcard_decode(body) {
        Ok(m) => Ok(m),
        Err(_) => Err(DecodeError::Malformed),
    }
}

} // verus!
