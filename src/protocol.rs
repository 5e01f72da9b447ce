//! The decisions of a session: what a received frame delivers, what a sent
//! message puts on the wire, and the two sides of the handshake. The reads,
//! writes and dials around them are left to the caller.
use vstd::prelude::*;
use vstd::slice::slice_subrange;
use vstd::string::StringExecFns;

use crate::address::{trim_str, trimmed};
use crate::book::{clock_now, has_id, last_update, touched, AddressBook};
use crate::consts::SIG_LENGTH;
use crate::crypto::{
    ed448_accepts, ed448_signature, random_u128_bytes, signature_accepted, signature_valid, Identity,
};
use crate::payload::{decode_message, direct_payload, encode_message, payload_text, MessageForNetwork};
use crate::wire::{build_frame, frame_bytes, greeting_auth, greeting_message};

verus! {

/// What a session hands to its embedder.
pub enum Message {
    /// A direct message: the sender's public key and the text.
    DirectMsg([u8; 57], String),
}

/// The payload part of a frame body (payload, then signature).
pub open spec fn frame_payload(body: Seq<u8>) -> Seq<u8> {
    body.subrange(0, body.len() - SIG_LENGTH)
}

/// The signature part of a frame body.
pub open spec fn frame_signature(body: Seq<u8>) -> Seq<u8> {
    body.subrange(body.len() - SIG_LENGTH, body.len() as int)
}

/// The text that a frame body from `peer` delivers: the signature must verify
/// under `peer` over the payload, the payload must hold a direct message, and
/// its text must not be empty.
pub open spec fn frame_text(peer: Seq<u8>, body: Seq<u8>) -> Option<Seq<char>> {
    if body.len() < SIG_LENGTH || !signature_accepted(peer, frame_payload(body), frame_signature(body)) {
        None
    } else {
        match payload_text(frame_payload(body)) {
            Some(t) => if t.len() > 0 {
                Some(t)
            } else {
                None
            },
            None => None,
        }
    }
}

/// The last `SIG_LENGTH` bytes of a frame body, as a signature.
fn signature_part(body: &[u8]) -> (r: [u8; 114])
    requires
        body@.len() >= SIG_LENGTH,
    ensures
        r@ == frame_signature(body@),
{
    let len = body.len();
    let n = len - SIG_LENGTH;
    let mut sig: [u8; 114] = [0u8; 114];
    let mut i: usize = 0;
    while i < SIG_LENGTH
        invariant
            i <= SIG_LENGTH,
            n + SIG_LENGTH == len,
            len == body@.len(),
            sig@.len() == SIG_LENGTH,
            forall|j: int| 0 <= j < i ==> sig@[j] == body@[n + j],
        decreases SIG_LENGTH - i,
    {
        sig[i] = body[n + i];
        i = i + 1;
    }
    assert(sig@ =~= frame_signature(body@));
    sig
}

/// Checks and decodes the body of a frame from `peer`: the signature is
/// verified before the payload is decoded.
pub fn open_frame(peer: &[u8; 57], body: &[u8]) -> (r: Option<String>)
    ensures
        r is Some <==> frame_text(peer@, body@) is Some,
        r matches Some(t) ==> frame_text(peer@, body@) == Some(t@),
        r is Some ==> ed448_accepts(peer@, frame_payload(body@), frame_signature(body@)),
{
    if body.len() < SIG_LENGTH {
        return None;
    }
    let n = body.len() - SIG_LENGTH;
    let payload = slice_subrange(body, 0, n);
    let sig = signature_part(body);
    if !signature_valid(peer, payload, &sig) {
        return None;
    }
    match decode_message(payload) {
        Some(MessageForNetwork::DirectMsg(t)) => {
            if t.as_str().is_empty() {
                None
            } else {
                Some(t)
            }
        },
        None => None,
    }
}

/// Handles the body of a frame from `peer` at time `now`: when it delivers a
/// text, the exchange is recorded in the book and the message to hand on is
/// returned; otherwise the connection is to be closed and the book is as it was.
pub fn receive_frame(book: &mut AddressBook, peer: &[u8; 57], body: &[u8], now: i64) -> (r: Option<
    Message,
>)
    ensures
        r is Some <==> frame_text(peer@, body@) is Some,
        r matches Some(Message::DirectMsg(id, t)) ==> id@ == peer@ && frame_text(peer@, body@) == Some(t@),
        r is Some ==> final(book)@ == touched(old(book)@, peer@, now as int),
        r is Some && has_id(old(book)@, peer@) ==> last_update(final(book)@, peer@) == Some(now as int),
        r is None ==> final(book)@ == old(book)@,
{
    match open_frame(peer, body) {
        Some(t) => {
            book.touch(peer, now);
            Some(Message::DirectMsg(*peer, t))
        },
        None => None,
    }
}

/// `receive_frame` at the current time.
pub fn receive_frame_now(book: &mut AddressBook, peer: &[u8; 57], body: &[u8]) -> (r: Option<Message>)
    ensures
        r is Some <==> frame_text(peer@, body@) is Some,
        r matches Some(Message::DirectMsg(id, t)) ==> id@ == peer@ && frame_text(peer@, body@) == Some(t@),
        r is Some ==> exists|t: int| final(book)@ == touched(old(book)@, peer@, t),
        r is None ==> final(book)@ == old(book)@,
{
    let now = clock_now();
    receive_frame(book, peer, body, now)
}

/// The frame that carries `text` from the holder of `secret`.
pub open spec fn direct_frame(secret: Seq<u8>, text: Seq<char>) -> Seq<u8> {
    frame_bytes(direct_payload(text), ed448_signature(secret, direct_payload(text)))
}

/// The frame to send for a direct message: the text is trimmed, and an empty
/// one is refused.
pub fn prepare_direct_message(me: &Identity, text: &str) -> (r: Option<Vec<u8>>)
    ensures
        r is Some <==> trimmed(text@).len() > 0,
        r matches Some(f) ==> f@ == direct_frame(me.secret_key(), trimmed(text@)),
{
    let t = trim_str(text);
    if t.is_empty() {
        return None;
    }
    let m = MessageForNetwork::DirectMsg(t.to_owned());
    let payload = match encode_message(&m) {
        Some(p) => p,
        None => {
            return None;
        },
    };
    let sig = me.sign(payload.as_slice());
    Some(build_frame(payload.as_slice(), &sig))
}

/// The first step of the accepting side: a peer that claims `key` gets a fresh
/// challenge only when the book knows `key`.
pub fn challenge_for(book: &AddressBook, key: &[u8; 57]) -> (r: Option<[u8; 16]>)
    ensures
        r is Some <==> has_id(book@, key@),
{
    if book.get(key).is_some() {
        Some(random_u128_bytes())
    } else {
        None
    }
}

/// Whether `sig` answers `challenge` for `peer`: it must verify under `peer`
/// over the transformed challenge.
pub open spec fn greeting_accepted(peer: Seq<u8>, challenge: Seq<u8>, sig: Seq<u8>) -> bool {
    signature_accepted(peer, greeting_message(challenge), sig)
}

/// The last step of the accepting side.
pub fn greeting_valid(peer: &[u8; 57], challenge: &[u8; 16], sig: &[u8; 114]) -> (r: bool)
    ensures
        r == greeting_accepted(peer@, challenge@, sig@),
{
    match greeting_auth(challenge) {
        Some(m) => signature_valid(peer, &m, sig),
        None => false,
    }
}

/// The dialing side's answer to a challenge.
pub fn answer_greeting(me: &Identity, challenge: &[u8; 16]) -> (r: [u8; 114])
    ensures
        r@ == ed448_signature(me.secret_key(), greeting_message(challenge@)),
{
    match greeting_auth(challenge) {
        Some(m) => me.sign(&m),
        None => {
            proof {
                assert(false);
            }
            [0u8; 114]
        },
    }
}

/// Where a peer is dialed: its hostname, on the port that every peer exposes.
pub fn dial_target(hostname: &str) -> (r: String)
    ensures
        r@ == hostname@ + seq![':', '4', '5', '4', '5'],
{
    let mut r = hostname.to_owned();
    proof {
        reveal_strlit(":4545");
    }
    r.append(":4545");
    r
}

/// The local SOCKS port, the one after the listening port; `None` when the
/// listening port is the last one.
pub fn socks_port(port: u16) -> (r: Option<u16>)
    ensures
        r is Some <==> port < u16::MAX,
        r matches Some(p) ==> p == port + 1,
{
    if port < u16::MAX {
        Some(port + 1)
    } else {
        None
    }
}

} // verus!
