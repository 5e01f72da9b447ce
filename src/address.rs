//! Printable peer addresses, `BASE64URL_NOPAD(public key) + "@" + hostname`,
//! and the address-book records that they describe.
use vstd::prelude::*;
use vstd::string::{StrSliceExecFns, StringExecFns};

use crate::consts::KEY_LENGTH;

verus! {

/// The URL-safe, unpadded base64 text of some bytes.
pub uninterp spec fn base64url_encoded(b: Seq<u8>) -> Seq<char>;

/// The bytes that URL-safe, unpadded base64 text stands for, if it is valid.
pub uninterp spec fn base64url_decoded(s: Seq<char>) -> Option<Seq<u8>>;

/// A text without its leading and trailing whitespace.
pub uninterp spec fn trimmed(s: Seq<char>) -> Seq<char>;

/// A character of the URL-safe base64 alphabet.
pub open spec fn is_base64url_char(c: char) -> bool {
    ||| ('A' as u32 <= c as u32 && c as u32 <= 'Z' as u32)
    ||| ('a' as u32 <= c as u32 && c as u32 <= 'z' as u32)
    ||| ('0' as u32 <= c as u32 && c as u32 <= '9' as u32)
    ||| c == '-'
    ||| c == '_'
}

/// A printable ASCII character other than the space, which is never whitespace.
pub open spec fn is_ascii_graphic(c: char) -> bool {
    0x21 <= c as u32 && c as u32 <= 0x7e
}

/// Relies on base64's `encode_config` with `URL_SAFE_NO_PAD`: the text uses
/// the URL-safe alphabet only, and `decode_config` with the same configuration
/// gives the bytes back.
#[verifier::external_body]
fn base64url_encode(b: &[u8]) -> (r: String)
    ensures
        r@ == base64url_encoded(b@),
        forall|i: int| 0 <= i < r@.len() ==> is_base64url_char(#[trigger] r@[i]),
        base64url_decoded(r@) == Some(b@),
{
    base64::encode_config(b, base64::URL_SAFE_NO_PAD)
}

/// Relies on base64's `decode_config` with `URL_SAFE_NO_PAD`: the result
/// depends on the text alone.
#[verifier::external_body]
fn base64url_decode(s: &str) -> (r: Option<Vec<u8>>)
    ensures
        r is Some <==> base64url_decoded(s@) is Some,
        r is Some ==> base64url_decoded(s@) == Some(r->Some_0@),
{
    base64::decode_config(s, base64::URL_SAFE_NO_PAD).ok()
}

/// Relies on `str::trim`: the result depends on the text alone, and a text
/// that begins and ends with a printable ASCII character other than the space
/// is left as it is.
#[verifier::external_body]
pub(crate) fn trim_str<'a>(s: &'a str) -> (r: &'a str)
    ensures
        r@ == trimmed(s@),
        s@.len() > 0 && is_ascii_graphic(s@[0]) && is_ascii_graphic(s@.last()) ==> r@ == s@,
{
    s.trim()
}

/// `i` is the position of the first `@` in `s`.
pub open spec fn is_first_at(s: Seq<char>, i: int) -> bool {
    &&& 0 <= i < s.len()
    &&& s[i] == '@'
    &&& forall|j: int| 0 <= j < i ==> s[j] != '@'
}

/// The printable address of a peer.
pub open spec fn address_text(id: Seq<u8>, hostname: Seq<char>) -> Seq<char> {
    base64url_encoded(id) + seq!['@'] + hostname
}

/// The public key and hostname that an address (already trimmed) names: the
/// text is split at its first `@`, the left side must decode to a 57-byte key,
/// the right side is the hostname.
pub open spec fn address_fields(s: Seq<char>) -> Option<(Seq<u8>, Seq<char>)> {
    if exists|i: int| is_first_at(s, i) {
        let i = choose|i: int| is_first_at(s, i);
        match base64url_decoded(s.subrange(0, i)) {
            Some(key) => if key.len() == KEY_LENGTH {
                Some((key, s.subrange(i + 1, s.len() as int)))
            } else {
                None
            },
            None => None,
        }
    } else {
        None
    }
}

/// A peer as the address book knows it.
pub struct UserData {
    pub id: [u8; 57],
    pub hostname: String,
    pub username: Option<String>,
}

/// A peer as it is stored, with its key as a byte string of any length.
pub struct UserDataRaw {
    pub id: Vec<u8>,
    pub hostname: String,
    pub username: Option<String>,
}

/// The name that an optional label holds.
pub open spec fn name_view(n: Option<String>) -> Option<Seq<char>> {
    match n {
        Some(s) => Some(s@),
        None => None,
    }
}

/// Copies an optional name.
fn clone_name(n: &Option<String>) -> (r: Option<String>)
    ensures
        name_view(r) == name_view(*n),
{
    match n {
        Some(s) => Some(s.clone()),
        None => None,
    }
}

/// Copies a byte string of key length into a key.
fn key_from_slice(b: &[u8]) -> (r: [u8; 57])
    requires
        b@.len() == KEY_LENGTH,
    ensures
        r@ == b@,
{
    let mut k: [u8; 57] = [0u8; 57];
    let mut i: usize = 0;
    while i < KEY_LENGTH
        invariant
            i <= KEY_LENGTH,
            b@.len() == KEY_LENGTH,
            k@.len() == KEY_LENGTH,
            forall|j: int| 0 <= j < i ==> k@[j] == b@[j],
        decreases KEY_LENGTH - i,
    {
        k[i] = b[i];
        i = i + 1;
    }
    assert(k@ =~= b@);
    k
}

impl UserDataRaw {
    /// The record with its key checked to be 57 bytes long.
    pub fn to_userdata(&self) -> (r: Option<UserData>)
        ensures
            r is Some <==> self.id@.len() == KEY_LENGTH,
            r matches Some(u) ==> u.id@ == self.id@ && u.hostname@ == self.hostname@
                && name_view(u.username) == name_view(self.username),
    {
        if self.id.len() != KEY_LENGTH {
            return None;
        }
        Some(UserData {
            id: key_from_slice(self.id.as_slice()),
            hostname: self.hostname.clone(),
            username: clone_name(&self.username),
        })
    }
}

impl UserData {
    /// A copy of this record.
    pub fn copied(&self) -> (r: UserData)
        ensures
            r.id@ == self.id@,
            r.hostname@ == self.hostname@,
            name_view(r.username) == name_view(self.username),
    {
        UserData { id: self.id, hostname: self.hostname.clone(), username: clone_name(&self.username) }
    }

    /// The printable address of this peer.
    pub fn get_address(&self) -> (r: String)
        ensures
            r@ == address_text(self.id@, self.hostname@),
            address_fields(r@) == Some((self.id@, self.hostname@)),
    {
        let mut r = base64url_encode(&self.id);
        let ghost enc = r@;
        proof {
            reveal_strlit("@");
        }
        r.append("@");
        r.append(self.hostname.as_str());
        proof {
            assert(r@ =~= address_text(self.id@, self.hostname@));
            lemma_fields_of_address(self.id@, self.hostname@, enc);
        }
        r
    }
}

/// An address splits back into the key and hostname it was made from, given
/// that the key's text is base64 that decodes to the key.
proof fn lemma_fields_of_address(id: Seq<u8>, hostname: Seq<char>, enc: Seq<char>)
    requires
        id.len() == KEY_LENGTH,
        enc == base64url_encoded(id),
        forall|i: int| 0 <= i < enc.len() ==> is_base64url_char(#[trigger] enc[i]),
        base64url_decoded(enc) == Some(id),
    ensures
        address_fields(address_text(id, hostname)) == Some((id, hostname)),
{
    let s = address_text(id, hostname);
    let n = enc.len() as int;
    assert(s[n] == '@');
    assert forall|j: int| 0 <= j < n implies s[j] != '@' by {
        assert(s[j] == enc[j]);
        assert(is_base64url_char(enc[j]));
    }
    assert(is_first_at(s, n));
    let i = choose|i: int| is_first_at(s, i);
    assert(i == n) by {
        if i < n {
            assert(s[i] == enc[i]);
            assert(is_base64url_char(enc[i]));
        }
    }
    assert(s.subrange(0, n) =~= enc);
    assert(s.subrange(n + 1, s.len() as int) =~= hostname);
}

/// Splits an address that is already trimmed into a peer record.
pub fn decode_trimmed_address(t: &str) -> (r: Option<UserData>)
    ensures
        r is Some <==> address_fields(t@) is Some,
        r matches Some(u) ==> address_fields(t@) == Some((u.id@, u.hostname@)) && u.username is None,
{
    let n = t.unicode_len();
    let mut i: usize = 0;
    while i < n
        invariant
            i <= n,
            n == t@.len(),
            forall|j: int| 0 <= j < i ==> t@[j] != '@',
        ensures
            i <= n,
            forall|j: int| 0 <= j < i ==> t@[j] != '@',
            i < n ==> t@[i as int] == '@',
        decreases n - i,
    {
        if t.get_char(i) == '@' {
            break;
        }
        i = i + 1;
    }
    if i == n {
        return None;
    }
    proof {
        assert(is_first_at(t@, i as int));
        let c = choose|c: int| is_first_at(t@, c);
        assert(c == i) by {
            if c < i {
                assert(t@[c] != '@');
            } else if c > i {
                assert(t@[i as int] != '@');
            }
        }
    }
    let key_text = t.substring_char(0, i);
    let host = t.substring_char(i + 1, n);
    let key = match base64url_decode(key_text) {
        Some(k) => k,
        None => {
            return None;
        },
    };
    if key.len() != KEY_LENGTH {
        return None;
    }
    Some(UserData { id: key_from_slice(key.as_slice()), hostname: host.to_owned(), username: None })
}

/// Decodes a printable address into a peer record: the text is trimmed, split
/// at its first `@`, and the left side must be base64 of a 57-byte key.
pub fn decode_address(address: &str) -> (r: Option<UserData>)
    ensures
        r is Some <==> address_fields(trimmed(address@)) is Some,
        r matches Some(u) ==> address_fields(trimmed(address@)) == Some((u.id@, u.hostname@))
            && u.username is None,
        address@.len() > 0 && is_ascii_graphic(address@[0]) && is_ascii_graphic(address@.last())
            ==> trimmed(address@) == address@,
{
    decode_trimmed_address(trim_str(address))
}

/// A hostname of the overlay network.
pub open spec fn is_onion_host(h: Seq<char>) -> bool {
    h.len() >= 6 && h.subrange(h.len() - 6, h.len() as int) == seq!['.', 'o', 'n', 'i', 'o', 'n']
}

/// Whether a hostname ends in `.onion`.
pub fn ends_with_onion(h: &str) -> (r: bool)
    ensures
        r == is_onion_host(h@),
{
    let n = h.unicode_len();
    if n < 6 {
        return false;
    }
    let suffix = ".onion";
    proof {
        reveal_strlit(".onion");
    }
    let mut k: usize = 0;
    while k < 6
        invariant
            k <= 6,
            n == h@.len(),
            n >= 6,
            suffix@ == seq!['.', 'o', 'n', 'i', 'o', 'n'],
            forall|j: int| 0 <= j < k ==> h@[n - 6 + j] == suffix@[j],
        decreases 6 - k,
    {
        if h.get_char(n - 6 + k) != suffix.get_char(k) {
            assert(h@.subrange(n - 6, n as int)[k as int] != seq!['.', 'o', 'n', 'i', 'o', 'n'][k as int]);
            return false;
        }
        k = k + 1;
    }
    assert(h@.subrange(n - 6, n as int) =~= seq!['.', 'o', 'n', 'i', 'o', 'n']);
    true
}

/// The session's own address, from its public key and the content of the file
/// in which the overlay writes the local hostname; `None` until that content,
/// trimmed, is a hostname that ends in `.onion`.
pub fn self_address(public: &[u8; 57], hostname_file: &str) -> (r: Option<String>)
    ensures
        r is Some <==> is_onion_host(trimmed(hostname_file@)),
        r matches Some(a) ==> a@ == address_text(public@, trimmed(hostname_file@)),
{
    let host = trim_str(hostname_file);
    if !ends_with_onion(host) {
        return None;
    }
    let mut a = base64url_encode(public);
    proof {
        reveal_strlit("@");
    }
    a.append("@");
    a.append(host);
    assert(a@ =~= address_text(public@, trimmed(hostname_file@)));
    Some(a)
}

} // verus!
