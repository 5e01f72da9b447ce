use ed448_rust::{PrivateKey, PublicKey};
use sha3::digest::{ExtendableOutput, Update};
use libtea::book::AddressBook;
use libtea::conns::ConnectionTable;
use libtea::crypto::{same_key, signature_valid, Identity};
use libtea::payload::encode_message;
use libtea::protocol::{
    answer_greeting, challenge_for, dial_target, greeting_valid, open_frame, prepare_direct_message,
    receive_frame, receive_frame_now, socks_port,
};
use libtea::{passwd_gen, DeferWrapper, MessageForNetwork, UserData};

fn me() -> Identity {
    Identity::from_secret([1u8; 57])
}

#[test]
fn identity_public_key() {
    let id = me();
    let expected = PublicKey::from(&PrivateKey::from([1u8; 57])).as_byte();
    assert_eq!(id.public_bytes(), expected);
    assert_eq!(id.secret_bytes(), [1u8; 57]);
    assert_ne!(id.public_bytes(), id.secret_bytes());
    let g = Identity::generate();
    let derived = PublicKey::from(&PrivateKey::from(g.secret_bytes())).as_byte();
    assert_eq!(g.public_bytes(), derived);
}

#[test]
fn identity_signs_like_ed448() {
    let id = me();
    let sig = id.sign(b"payload");
    let expected = PrivateKey::from([1u8; 57]).sign(b"payload", None).unwrap();
    assert_eq!(sig.to_vec(), expected.to_vec());
}

#[test]
fn empty_message_rejected() {
    assert!(prepare_direct_message(&me(), "   ").is_none());
    assert!(prepare_direct_message(&me(), "").is_none());
}

#[test]
fn direct_message_frame() {
    let f = prepare_direct_message(&me(), "  hello \n").unwrap();
    let payload = encode_message(&MessageForNetwork::DirectMsg("hello".to_string())).unwrap();
    let n = payload.len();
    assert_eq!(&f[..8], &(n as u64).to_be_bytes());
    assert_eq!(&f[8..8 + n], payload.as_slice());
    let sig = PrivateKey::from([1u8; 57]).sign(&payload, None).unwrap();
    assert_eq!(&f[8 + n..], &sig[..]);
    assert_eq!(f.len(), 8 + n + 114);
}

#[test]
fn tampered_signature_rejected() {
    let id = me();
    let f = prepare_direct_message(&id, "hello").unwrap();
    let mut body = f[8..].to_vec();
    let last = body.len() - 1;
    body[last] ^= 1;
    let peer = id.public_bytes();
    assert!(open_frame(&peer, &body).is_none());
    let mut book = AddressBook::new();
    let addr = UserData { id: peer, hostname: "a.onion".to_string(), username: None }.get_address();
    book.add_user(&addr, 7).unwrap();
    assert!(receive_frame(&mut book, &peer, &body, 99).is_none());
    assert_eq!(book.rows()[0].lastupdate, 7);
}

/// The 57 bytes whose scalar multiple of the base point is the public key of
/// `secret` in ed448_rust: the clamped first half of SHAKE256(secret).
fn verifying_bytes(secret: &[u8; 57]) -> [u8; 57] {
    let h = sha3::Shake256::default().chain(secret).finalize_boxed(114);
    let mut s = [0u8; 57];
    s.copy_from_slice(&h[..57]);
    s[0] &= 0b1111_1100;
    s[56] = 0;
    s[55] |= 0b1000_0000;
    s
}

#[test]
fn short_frame_body_rejected() {
    assert!(open_frame(&[3u8; 57], &[0u8; 100]).is_none());
    // an all-zero S is refused without being handed to the verifier
    assert!(!signature_valid(&[3u8; 57], b"m", &[0u8; 114]));
}

#[test]
fn degenerate_key_refused() {
    let sig = me().sign(b"m");
    // the zero scalar gives the identity point, on which verification would panic
    assert!(!signature_valid(&[0u8; 57], b"m", &sig));
    let mut r_one = sig;
    r_one[..57].copy_from_slice(&[0u8; 57]);
    r_one[0] = 1;
    assert!(!signature_valid(&verifying_bytes(&[1u8; 57]), b"m", &r_one));
}

#[test]
fn signed_frame_delivered() {
    let sender = me();
    let peer = verifying_bytes(&[1u8; 57]);
    assert_eq!(PublicKey::from(&peer).as_byte(), sender.public_bytes());
    let f = prepare_direct_message(&sender, " hello ").unwrap();
    let body = f[8..].to_vec();
    assert_eq!(open_frame(&peer, &body), Some("hello".to_string()));
    let mut book = AddressBook::new();
    let addr = UserData { id: peer, hostname: "a.onion".to_string(), username: None }.get_address();
    book.add_user(&addr, 7).unwrap();
    let other = UserData { id: [8u8; 57], hostname: "c.onion".to_string(), username: None }.get_address();
    book.add_user(&other, 50).unwrap();
    assert_eq!(book.list()[0].id, [8u8; 57]);
    match receive_frame(&mut book, &peer, &body, 99) {
        Some(libtea::Message::DirectMsg(id, t)) => {
            assert_eq!(id, peer);
            assert_eq!(t, "hello");
        }
        None => panic!("frame refused"),
    }
    assert_eq!(book.rows()[0].lastupdate, 99);
    assert_eq!(book.list()[0].id, peer);
    assert_eq!(book.last_update_of(&peer), Some(99));
    assert!(receive_frame_now(&mut book, &peer, &body).is_some());
    assert!(book.last_update_of(&peer).unwrap() > 1_600_000_000);
    // a frame from someone else is refused
    assert!(open_frame(&verifying_bytes(&[2u8; 57]), &body).is_none());
}

#[test]
fn greeting_round_trip() {
    let c = [7u8; 16];
    let s = answer_greeting(&me(), &c);
    assert!(greeting_valid(&verifying_bytes(&[1u8; 57]), &c, &s));
    let mut bad = s;
    bad[3] ^= 0x10;
    assert!(!greeting_valid(&verifying_bytes(&[1u8; 57]), &c, &bad));
}

#[test]
fn unknown_peer_gets_no_challenge() {
    let mut book = AddressBook::new();
    assert!(challenge_for(&book, &[9u8; 57]).is_none());
    let addr = UserData { id: [9u8; 57], hostname: "k.onion".to_string(), username: None }.get_address();
    book.add_user(&addr, 1).unwrap();
    assert!(challenge_for(&book, &[9u8; 57]).is_some());
}

#[test]
fn greeting_answer_signs_reversed_challenge() {
    let c: [u8; 16] = [0, 1, 2, 3, 4, 5, 6, 7, 8, 9, 10, 11, 12, 13, 14, 15];
    let s = answer_greeting(&me(), &c);
    let mut rev = c;
    rev.reverse();
    let expected = PrivateKey::from([1u8; 57]).sign(&rev, None).unwrap();
    assert_eq!(s.to_vec(), expected.to_vec());
    assert!(!greeting_valid(&me().public_bytes(), &c, &[0u8; 114]));
}

#[test]
fn dial_and_ports() {
    assert_eq!(dial_target("abc.onion"), "abc.onion:4545");
    assert_eq!(socks_port(1919), Some(1920));
    assert_eq!(socks_port(65535), None);
}

#[test]
fn keys_compare() {
    assert!(same_key(&[4u8; 57], &[4u8; 57]));
    let mut k = [4u8; 57];
    k[56] = 5;
    assert!(!same_key(&[4u8; 57], &k));
}

#[test]
fn connection_table_one_entry_per_peer() {
    let mut t: ConnectionTable<&str> = ConnectionTable::new();
    assert!(t.insert([1u8; 57], "first").is_none());
    assert_eq!(t.insert([1u8; 57], "second"), Some("first"));
    assert_eq!(t.len(), 1);
    assert_eq!(t.get(&[1u8; 57]), Some(&"second"));
    assert!(t.insert([2u8; 57], "other").is_none());
    assert_eq!(t.len(), 2);
    assert_eq!(t.remove(&[1u8; 57]), Some("second"));
    assert!(!t.contains(&[1u8; 57]));
    assert!(t.contains(&[2u8; 57]));
    assert_eq!(t.remove(&[1u8; 57]), None);
}

#[test]
fn password_shape() {
    let p = passwd_gen();
    assert_eq!(p.chars().count(), 32);
    assert!(p.chars().all(|c| c.is_ascii_alphanumeric()));
    assert_ne!(passwd_gen(), p);
}

#[test]
fn defer_wrapper_keeps_closure() {
    let mut hits = 0;
    {
        let mut d = DeferWrapper::new(|| hits += 1);
        (d.f)();
    }
    assert_eq!(hits, 1);
}
