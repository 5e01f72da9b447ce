//! Byte layout of what travels on a connection: the big-endian length header,
//! whole frames, and the transformation applied to the handshake challenge.
use vstd::prelude::*;

use crate::consts::{CHALLENGE_LENGTH, HEADER_LENGTH, MAXMSGLEN, SIG_LENGTH};

verus! {

/// The unsigned integer that a byte string denotes, most significant byte first.
pub open spec fn be_value(s: Seq<u8>) -> nat
    decreases s.len(),
{
    if s.len() == 0 {
        0
    } else {
        be_value(s.drop_last()) * 256 + s.last() as nat
    }
}

/// The `n` bytes that write `v` most significant byte first (modulo `256^n`).
pub open spec fn be_bytes(v: nat, n: nat) -> Seq<u8>
    decreases n,
{
    if n == 0 {
        Seq::empty()
    } else {
        be_bytes(v / 256, (n - 1) as nat).push((v % 256) as u8)
    }
}

/// `be_bytes` writes exactly `n` bytes.
pub proof fn lemma_be_bytes_len(v: nat, n: nat)
    ensures
        be_bytes(v, n).len() == n,
    decreases n,
{
    if n > 0 {
        lemma_be_bytes_len(v / 256, (n - 1) as nat);
    }
}

/// `256^n`.
pub open spec fn pow256(n: nat) -> nat
    decreases n,
{
    if n == 0 {
        1
    } else {
        256 * pow256((n - 1) as nat)
    }
}

/// Writing a value that fits in `n` bytes and reading it back gives the value.
pub proof fn lemma_be_round_trip(v: nat, n: nat)
    requires
        v < pow256(n),
    ensures
        be_bytes(v, n).len() == n,
        be_value(be_bytes(v, n)) == v,
    decreases n,
{
    if n == 0 {
    } else {
        let m = (n - 1) as nat;
        assert(v / 256 < pow256(m)) by {
            vstd::arithmetic::div_mod::lemma_div_by_multiple_is_strongly_ordered(
                v as int, (256 * pow256(m)) as int, pow256(m) as int, 256);
        }
        lemma_be_round_trip(v / 256, m);
        let s = be_bytes(v, n);
        assert(s.drop_last() =~= be_bytes(v / 256, m));
        vstd::arithmetic::div_mod::lemma_fundamental_div_mod(v as int, 256);
    }
}

/// Bounds the value of `n` bytes by `256^n`.
pub proof fn lemma_be_value_bound(s: Seq<u8>)
    ensures
        be_value(s) < pow256(s.len()),
    decreases s.len(),
{
    if s.len() > 0 {
        lemma_be_value_bound(s.drop_last());
        let m = (s.len() - 1) as nat;
        assert(be_value(s.drop_last()) * 256 + (s.last() as nat) < pow256(m) * 256) by (nonlinear_arith)
            requires
                be_value(s.drop_last()) < pow256(m),
                (s.last() as nat) < 256,
        ;
    }
}

/// The eight bytes that carry `v` in a frame header.
pub fn u64_to_be(v: u64) -> (r: [u8; 8])
    ensures
        r@ == be_bytes(v as nat, 8),
{
    let mut r: [u8; 8] = [0u8; 8];
    let mut rest: u64 = v;
    let mut i: usize = 8;
    proof {
        lemma_be_bytes_len(v as nat, 8);
        assert(be_bytes(v as nat, 8).subrange(0, 8) =~= be_bytes(v as nat, 8));
    }
    while i > 0
        invariant
            i <= 8,
            r@.len() == 8,
            be_bytes(v as nat, 8).len() == 8,
            r@.subrange(i as int, 8) == be_bytes(v as nat, 8).subrange(i as int, 8),
            be_bytes(v as nat, 8).subrange(0, i as int) == be_bytes(rest as nat, i as nat),
        decreases i,
    {
        let ghost before = r@;
        let ghost old_rest = rest as nat;
        let ghost prefix = be_bytes(rest as nat, i as nat);
        proof {
            lemma_be_bytes_len(rest as nat, i as nat);
            lemma_be_bytes_len(rest as nat / 256, (i - 1) as nat);
        }
        assert(prefix == be_bytes(rest as nat / 256, (i - 1) as nat).push((rest as nat % 256) as u8));
        r[i - 1] = (rest % 256) as u8;
        rest = rest / 256;
        i = i - 1;
        proof {
            let whole = be_bytes(v as nat, 8);
            assert(whole.subrange(0, i as int) =~= whole.subrange(0, i + 1).drop_last());
            assert(whole[i as int] == whole.subrange(0, i + 1).last());
            assert(whole[i as int] == (old_rest % 256) as u8);
            assert(r@[i as int] == (old_rest % 256) as u8);
            assert forall|k: int| i < k < 8 implies r@[k] == before[k] by {}
            assert forall|k: int| i < k < 8 implies before[k] == whole[k] by {
                assert(before.subrange(i + 1, 8)[k - i - 1] == before[k]);
            }
            assert(r@.subrange(i as int, 8) =~= whole.subrange(i as int, 8));
        }
    }
    assert(r@ =~= r@.subrange(0, 8));
    r
}

/// The integer that a frame header carries.
pub fn u64_from_be(b: &[u8; 8]) -> (r: u64)
    ensures
        r as nat == be_value(b@),
{
    let mut r: u64 = 0;
    let mut i: usize = 0;
    while i < 8
        invariant
            i <= 8,
            b@.len() == 8,
            r as nat == be_value(b@.subrange(0, i as int)),
        decreases 8 - i,
    {
        proof {
            lemma_be_value_bound(b@.subrange(0, i as int));
            assert(pow256(i as nat) <= pow256(7)) by {
                lemma_pow256_mono(i as nat, 7);
            }
            reveal_with_fuel(pow256, 8);
            assert(pow256(7) == 0x100000000000000);
            assert(b@.subrange(0, i + 1).drop_last() =~= b@.subrange(0, i as int));
        }
        r = r * 256 + b[i] as u64;
        i = i + 1;
    }
    assert(b@.subrange(0, 8) =~= b@);
    r
}

/// `256^n` grows with `n`.
proof fn lemma_pow256_mono(a: nat, b: nat)
    requires
        a <= b,
    ensures
        pow256(a) <= pow256(b),
    decreases b,
{
    if a < b {
        lemma_pow256_mono(a, (b - 1) as nat);
    }
}

/// The payload length that a header announces, when a receiver accepts it.
pub open spec fn accepted_length(header: Seq<u8>) -> Option<nat> {
    if be_value(header) < MAXMSGLEN {
        Some(be_value(header))
    } else {
        None
    }
}

/// Reads a frame header; a length of `MAXMSGLEN` or more is refused before
/// any of the payload is read.
pub fn frame_length(header: &[u8; 8]) -> (r: Option<usize>)
    ensures
        r matches Some(n) ==> accepted_length(header@) == Some(n as nat),
        r is None ==> accepted_length(header@) is None,
        r matches Some(n) ==> n < MAXMSGLEN,
{
    let len = u64_from_be(header);
    if len < MAXMSGLEN as u64 {
        Some(len as usize)
    } else {
        None
    }
}

/// The bytes of one frame: the payload length, the payload, its signature.
pub open spec fn frame_bytes(payload: Seq<u8>, sig: Seq<u8>) -> Seq<u8> {
    be_bytes(payload.len(), HEADER_LENGTH as nat) + payload + sig
}

/// A receiver reads back the payload length that a sender wrote into the
/// header of a frame, when that length is under the limit.
pub proof fn lemma_header_read_back(payload: Seq<u8>, sig: Seq<u8>)
    requires
        payload.len() < MAXMSGLEN,
    ensures
        accepted_length(frame_bytes(payload, sig).subrange(0, HEADER_LENGTH as int)) == Some(payload.len()),
{
    reveal_with_fuel(pow256, 9);
    assert(pow256(8) == 0x1_0000_0000_0000_0000);
    lemma_be_round_trip(payload.len(), 8);
    let f = frame_bytes(payload, sig);
    assert(f.subrange(0, 8) =~= be_bytes(payload.len(), 8));
}

/// Lays out one frame.
pub fn build_frame(payload: &[u8], sig: &[u8; 114]) -> (r: Vec<u8>)
    ensures
        r@ == frame_bytes(payload@, sig@),
{
    let header = u64_to_be(payload.len() as u64);
    let mut r: Vec<u8> = Vec::new();
    let mut i: usize = 0;
    while i < HEADER_LENGTH
        invariant
            i <= HEADER_LENGTH,
            r@ == header@.subrange(0, i as int),
        decreases HEADER_LENGTH - i,
    {
        r.push(header[i]);
        i = i + 1;
        assert(r@ =~= header@.subrange(0, i as int));
    }
    let mut j: usize = 0;
    while j < payload.len()
        invariant
            j <= payload@.len(),
            r@ == header@ + payload@.subrange(0, j as int),
        decreases payload@.len() - j,
    {
        r.push(payload[j]);
        j = j + 1;
        assert(r@ =~= header@ + payload@.subrange(0, j as int));
    }
    let mut k: usize = 0;
    while k < SIG_LENGTH
        invariant
            k <= SIG_LENGTH,
            r@ == header@ + payload@ + sig@.subrange(0, k as int),
        decreases SIG_LENGTH - k,
    {
        r.push(sig[k]);
        k = k + 1;
        assert(r@ =~= header@ + payload@ + sig@.subrange(0, k as int));
    }
    assert(payload@.subrange(0, payload@.len() as int) =~= payload@);
    assert(sig@.subrange(0, 114) =~= sig@);
    r
}

/// The message that a peer signs in the handshake: the challenge read as a
/// big-endian 128-bit integer and written back little-endian, that is, its
/// first sixteen bytes in reverse order.
pub open spec fn greeting_message(auth: Seq<u8>) -> Seq<u8> {
    auth.subrange(0, CHALLENGE_LENGTH as int).reverse()
}

/// Transforms a handshake challenge into the message that is signed; `None`
/// when fewer than sixteen bytes are given.
pub fn greeting_auth(auth: &[u8]) -> (r: Option<[u8; 16]>)
    ensures
        auth@.len() < CHALLENGE_LENGTH ==> r is None,
        auth@.len() >= CHALLENGE_LENGTH ==> (r matches Some(m) && m@ == greeting_message(auth@)),
{
    if auth.len() < CHALLENGE_LENGTH {
        return None;
    }
    let mut m: [u8; 16] = [0u8; 16];
    let mut i: usize = 0;
    while i < CHALLENGE_LENGTH
        invariant
            i <= CHALLENGE_LENGTH,
            auth@.len() >= CHALLENGE_LENGTH,
            m@.len() == CHALLENGE_LENGTH,
            forall|k: int| 0 <= k < i ==> m@[k] == auth@[15 - k],
        decreases CHALLENGE_LENGTH - i,
    {
        m[i] = auth[15 - i];
        i = i + 1;
    }
    assert(m@ =~= greeting_message(auth@));
    Some(m)
}

} // verus!
