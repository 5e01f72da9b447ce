//! The identity of a session and the Ed448 operations it rests on.
use vstd::prelude::*;
use vstd::slice::slice_subrange;

use ed448_rust::{PrivateKey, PublicKey};
use rand::Rng;

use crate::consts::{KEY_LENGTH, SIG_LENGTH};

verus! {

/// What Ed448 verification answers for a key given as 57 bytes, a message and
/// a signature.
pub uninterp spec fn ed448_accepts(key: Seq<u8>, msg: Seq<u8>, sig: Seq<u8>) -> bool;

/// The Ed448 signature of a message under a private key given as 57 bytes.
pub uninterp spec fn ed448_signature(secret: Seq<u8>, msg: Seq<u8>) -> Seq<u8>;

/// The encoded public key that belongs to a private key given as 57 bytes.
pub uninterp spec fn ed448_public_key(secret: Seq<u8>) -> Seq<u8>;

/// The encoded point of `PublicKey::from(&key)` for 57 key bytes.
pub uninterp spec fn ed448_key_point(key: Seq<u8>) -> Seq<u8>;

/// The encoding of y = 1 (the point with x = 0 and positive y).
pub open spec fn one_y() -> Seq<u8> {
    Seq::new(57, |i: int| if i == 0 { 1u8 } else { 0u8 })
}

/// The encoding of y = p - 1, with p = 2^448 - 2^224 - 1.
pub open spec fn minus_one_y() -> Seq<u8> {
    Seq::new(57, |i: int| if i == 0 || i == 28 { 0xfeu8 } else if i == 56 { 0u8 } else { 0xffu8 })
}

/// An encoded point whose y-coordinate, the sign bit of x set aside, is 1 or
/// p - 1: the two points with x = 0.
pub open spec fn unit_y(b: Seq<u8>) -> bool {
    &&& b.len() == KEY_LENGTH
    &&& {
        let y = b.update(56, b[56] & 0x7f);
        y == one_y() || y == minus_one_y()
    }
}

/// The S half of a signature is zero.
pub open spec fn zero_scalar(sig: Seq<u8>) -> bool {
    forall|i: int| KEY_LENGTH <= i < SIG_LENGTH ==> sig[i] == 0
}

/// Inputs on which ed448_rust's verification reaches a zero field element in
/// an equality test, which panics: a key point or an R with x = 0, or S = 0.
pub open spec fn degenerate(point: Seq<u8>, sig: Seq<u8>) -> bool {
    ||| unit_y(point)
    ||| unit_y(sig.subrange(0, KEY_LENGTH as int))
    ||| zero_scalar(sig)
}

/// Whether a signature is accepted: it is not degenerate, and Ed448
/// verification accepts it.
pub open spec fn signature_accepted(key: Seq<u8>, msg: Seq<u8>, sig: Seq<u8>) -> bool {
    !degenerate(ed448_key_point(key), sig) && ed448_accepts(key, msg, sig)
}

/// Relies on ed448_rust's `PublicKey::from(&[u8; 57])` (the bytes are taken as
/// a scalar and multiplied by the base point) and `PublicKey::as_byte`: the
/// encoding depends on the bytes alone.
#[verifier::external_body]
fn ed448_key_point_of(key: &[u8; 57]) -> (r: [u8; 57])
    ensures
        r@ == ed448_key_point(key@),
{
    PublicKey::from(key).as_byte()
}

/// Relies on ed448_rust's `PublicKey::from(&[u8; 57])` and `PublicKey::verify`
/// (without context): the answer depends on the key bytes, the message and the
/// signature alone. `Field::eq` panics on a zero element, which the degenerate
/// inputs reach and `requires` leaves out; it could also be reached if
/// 4(R + hA) were the identity for the challenge hash h, which no known input
/// does.
#[verifier::external_body]
fn ed448_verify(key: &[u8; 57], msg: &[u8], sig: &[u8; 114]) -> (r: bool)
    requires
        !degenerate(ed448_key_point(key@), sig@),
    ensures
        r == ed448_accepts(key@, msg@, sig@),
{
    PublicKey::from(key).verify(msg, sig, None).is_ok()
}

/// The byte at `i` of the encoding of y = 1, or of y = p - 1.
fn unit_y_byte(i: usize, minus: bool) -> (r: u8)
    requires
        i < KEY_LENGTH,
    ensures
        r == (if minus { minus_one_y()[i as int] } else { one_y()[i as int] }),
{
    if minus {
        if i == 0 || i == 28 {
            0xfe
        } else if i == 56 {
            0
        } else {
            0xff
        }
    } else if i == 0 {
        1
    } else {
        0
    }
}

/// Whether `b`, its top bit set aside, is the encoding of y = 1 (or of y = p - 1).
fn is_unit_y_as(b: &[u8], minus: bool) -> (r: bool)
    requires
        b@.len() == KEY_LENGTH,
    ensures
        r == (b@.update(56, b@[56] & 0x7f) == (if minus { minus_one_y() } else { one_y() })),
{
    let ghost y = b@.update(56, b@[56] & 0x7f);
    let ghost target = if minus { minus_one_y() } else { one_y() };
    let mut i: usize = 0;
    while i < 56
        invariant
            i <= 56,
            b@.len() == KEY_LENGTH,
            y == b@.update(56, b@[56] & 0x7f),
            target == (if minus { minus_one_y() } else { one_y() }),
            forall|j: int| 0 <= j < i ==> y[j] == target[j],
        decreases 56 - i,
    {
        if b[i] != unit_y_byte(i, minus) {
            assert(y[i as int] != target[i as int]);
            return false;
        }
        i = i + 1;
    }
    let last = b[56] & 0x7f;
    if last != unit_y_byte(56, minus) {
        assert(y[56] != target[56]);
        return false;
    }
    assert(y =~= target);
    true
}

/// Whether an encoded point has x = 0.
fn is_unit_y(b: &[u8]) -> (r: bool)
    requires
        b@.len() == KEY_LENGTH,
    ensures
        r == unit_y(b@),
{
    is_unit_y_as(b, false) || is_unit_y_as(b, true)
}

/// Whether the S half of a signature is zero.
fn is_zero_scalar(sig: &[u8; 114]) -> (r: bool)
    ensures
        r == zero_scalar(sig@),
{
    let mut i: usize = KEY_LENGTH;
    while i < SIG_LENGTH
        invariant
            KEY_LENGTH <= i <= SIG_LENGTH,
            sig@.len() == SIG_LENGTH,
            forall|j: int| KEY_LENGTH <= j < i ==> sig@[j] == 0,
        decreases SIG_LENGTH - i,
    {
        if sig[i] != 0 {
            return false;
        }
        i = i + 1;
    }
    true
}

/// Relies on ed448_rust's `PrivateKey::sign` (without context): signing is
/// deterministic, and with no context it always succeeds.
#[verifier::external_body]
fn ed448_sign(secret: &[u8; 57], msg: &[u8]) -> (r: Option<[u8; 114]>)
    ensures
        r is Some,
        r->Some_0@ == ed448_signature(secret@, msg@),
{
    PrivateKey::from(secret).sign(msg, None).ok()
}

/// Relies on ed448_rust's `PublicKey::from(&PrivateKey)`: the encoded public
/// key depends on the private key alone.
#[verifier::external_body]
fn ed448_derive_public(secret: &[u8; 57]) -> (r: [u8; 57])
    ensures
        r@ == ed448_public_key(secret@),
{
    PublicKey::from(&PrivateKey::from(secret)).as_byte()
}

/// Relies on ed448_rust's `PrivateKey::new`, fed by the operating system's
/// random source: nothing is known of the bytes.
#[verifier::external_body]
fn ed448_generate() -> (r: [u8; 57]) {
    *PrivateKey::new(&mut rand::rngs::OsRng).as_bytes()
}

/// Relies on rand's `Rng::gen::<u128>` over the operating system's random
/// source, written big-endian: nothing is known of the bytes.
#[verifier::external_body]
pub(crate) fn random_u128_bytes() -> (r: [u8; 16]) {
    rand::rngs::OsRng.gen::<u128>().to_be_bytes()
}

/// Compares two keys byte by byte.
pub fn same_key(a: &[u8; 57], b: &[u8; 57]) -> (r: bool)
    ensures
        r == (a@ == b@),
{
    let mut i: usize = 0;
    while i < KEY_LENGTH
        invariant
            i <= KEY_LENGTH,
            a@.len() == KEY_LENGTH,
            b@.len() == KEY_LENGTH,
            forall|k: int| 0 <= k < i ==> a@[k] == b@[k],
        decreases KEY_LENGTH - i,
    {
        if a[i] != b[i] {
            return false;
        }
        i = i + 1;
    }
    assert(a@ =~= b@);
    true
}

/// Whether `sig` is accepted as the signature of `msg` under the peer key
/// `key`; degenerate inputs are refused without being verified.
pub fn signature_valid(key: &[u8; 57], msg: &[u8], sig: &[u8; 114]) -> (r: bool)
    ensures
        r == signature_accepted(key@, msg@, sig@),
{
    let point = ed448_key_point_of(key);
    if is_unit_y(point.as_slice()) || is_unit_y(slice_subrange(sig.as_slice(), 0, KEY_LENGTH))
        || is_zero_scalar(sig) {
        return false;
    }
    ed448_verify(key, msg, sig)
}

/// The key pair of a session: the private key and the public key derived
/// from it, which is the session's identifier everywhere.
pub struct Identity {
    secret: [u8; 57],
    public: [u8; 57],
}

impl Identity {
    /// The private key.
    pub closed spec fn secret_key(&self) -> Seq<u8> {
        self.secret@
    }

    /// The public key.
    pub closed spec fn public_key(&self) -> Seq<u8> {
        self.public@
    }

    /// The public key is the one that belongs to the private key.
    #[verifier::type_invariant]
    spec fn inv(&self) -> bool {
        self.public@ == ed448_public_key(self.secret@)
    }

    /// The identity whose private key is `secret`.
    pub fn from_secret(secret: [u8; 57]) -> (r: Identity)
        ensures
            r.secret_key() == secret@,
            r.public_key() == ed448_public_key(secret@),
    {
        let public = ed448_derive_public(&secret);
        Identity { secret, public }
    }

    /// A freshly generated identity.
    pub fn generate() -> (r: Identity)
        ensures
            r.public_key() == ed448_public_key(r.secret_key()),
    {
        Identity::from_secret(ed448_generate())
    }

    /// The private key, as it is stored.
    pub fn secret_bytes(&self) -> (r: [u8; 57])
        ensures
            r@ == self.secret_key(),
    {
        self.secret
    }

    /// The public key, which identifies this session to its peers.
    pub fn public_bytes(&self) -> (r: [u8; 57])
        ensures
            r@ == self.public_key(),
            r@ == ed448_public_key(self.secret_key()),
    {
        proof {
            use_type_invariant(self);
        }
        self.public
    }

    /// Signs `msg` with the private key.
    pub fn sign(&self, msg: &[u8]) -> (r: [u8; 114])
        ensures
            r@ == ed448_signature(self.secret_key(), msg@),
    {
        match ed448_sign(&self.secret, msg) {
            Some(s) => s,
            None => {
                proof {
                    assert(false);
                }
                [0u8; 114]
            }
        }
    }
}

} // verus!
