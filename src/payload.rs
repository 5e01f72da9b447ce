//! The body of a frame: a tagged message record in bincode's layout, a
//! four-byte little-endian variant index followed by the variant's fields.
use vstd::prelude::*;
use vstd::utf8::encode_utf8;

use crate::wire::be_bytes;

verus! {

/// The `n` bytes that write `v` least significant byte first.
pub open spec fn le_bytes(v: nat, n: nat) -> Seq<u8> {
    be_bytes(v, n).reverse()
}

/// The bincode bytes of a text: its UTF-8 length as eight little-endian bytes,
/// then its UTF-8 bytes.
pub open spec fn bincode_of_text(s: Seq<char>) -> Seq<u8> {
    le_bytes(encode_utf8(s).len(), 8) + encode_utf8(s)
}

/// The text that bincode reads from the front of some bytes, if any.
pub uninterp spec fn bincode_text_of(b: Seq<u8>) -> Option<Seq<char>>;

/// Relies on `bincode::serialize` on a string, with its default fixed-width
/// integers: the byte length as a little-endian `u64`, then the bytes; with no
/// size limit, writing into a vector does not fail.
#[verifier::external_body]
fn bincode_serialize_text(s: &str) -> (r: Option<Vec<u8>>)
    ensures
        r is Some,
        r->Some_0@ == bincode_of_text(s@),
{
    bincode::serialize(s).ok()
}

/// Relies on `bincode::deserialize::<String>`: the result depends on the
/// bytes alone.
#[verifier::external_body]
fn bincode_deserialize_text(b: &[u8]) -> (r: Option<String>)
    ensures
        r is Some <==> bincode_text_of(b@) is Some,
        r is Some ==> bincode_text_of(b@) == Some(r->Some_0@),
{
    bincode::deserialize::<String>(b).ok()
}

/// What peers send each other.
pub enum MessageForNetwork {
    DirectMsg(String),
}

/// The variant index of `DirectMsg`, as bincode writes it.
pub open spec fn direct_tag() -> Seq<u8> {
    seq![0u8, 0u8, 0u8, 0u8]
}

/// The payload that carries a direct message.
pub open spec fn direct_payload(text: Seq<char>) -> Seq<u8> {
    direct_tag() + bincode_of_text(text)
}

/// The text of the direct message that a payload carries, if it carries one.
pub open spec fn payload_text(p: Seq<u8>) -> Option<Seq<char>> {
    if p.len() >= 4 && p.subrange(0, 4) == direct_tag() {
        bincode_text_of(p.subrange(4, p.len() as int))
    } else {
        None
    }
}

/// Serializes a message into a frame payload.
pub fn encode_message(m: &MessageForNetwork) -> (r: Option<Vec<u8>>)
    ensures
        r is Some,
        r matches Some(p) ==> (m matches MessageForNetwork::DirectMsg(t) && p@ == direct_payload(t@)),
{
    match m {
        MessageForNetwork::DirectMsg(text) => {
            let body = match bincode_serialize_text(text.as_str()) {
                Some(b) => b,
                None => {
                    return None;
                },
            };
            let mut p: Vec<u8> = vec![0u8, 0u8, 0u8, 0u8];
            let mut i: usize = 0;
            while i < body.len()
                invariant
                    i <= body@.len(),
                    p@ == direct_tag() + body@.subrange(0, i as int),
                decreases body@.len() - i,
            {
                p.push(body[i]);
                i = i + 1;
                assert(p@ =~= direct_tag() + body@.subrange(0, i as int));
            }
            assert(body@.subrange(0, body@.len() as int) =~= body@);
            Some(p)
        },
    }
}

/// Reads a frame payload back into a message.
pub fn decode_message(p: &[u8]) -> (r: Option<MessageForNetwork>)
    ensures
        r is Some <==> payload_text(p@) is Some,
        r matches Some(MessageForNetwork::DirectMsg(t)) ==> payload_text(p@) == Some(t@),
{
    if p.len() < 4 || p[0] != 0 || p[1] != 0 || p[2] != 0 || p[3] != 0 {
        proof {
            if p@.len() >= 4 {
                assert(p@.subrange(0, 4)[0] == p@[0]);
                assert(p@.subrange(0, 4)[1] == p@[1]);
                assert(p@.subrange(0, 4)[2] == p@[2]);
                assert(p@.subrange(0, 4)[3] == p@[3]);
            }
        }
        return None;
    }
    assert(p@.subrange(0, 4) =~= direct_tag());
    let mut rest: Vec<u8> = Vec::new();
    let mut i: usize = 4;
    while i < p.len()
        invariant
            4 <= i <= p@.len(),
            rest@ == p@.subrange(4, i as int),
        decreases p@.len() - i,
    {
        rest.push(p[i]);
        i = i + 1;
        assert(rest@ =~= p@.subrange(4, i as int));
    }
    match bincode_deserialize_text(rest.as_slice()) {
        Some(t) => Some(MessageForNetwork::DirectMsg(t)),
        None => None,
    }
}

} // verus!
