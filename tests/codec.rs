use libtea::consts::{MAXMSGLEN, SIG_LENGTH};
use libtea::payload::{decode_message, encode_message};
use libtea::wire::{build_frame, frame_length, u64_from_be, u64_to_be};
use libtea::{greeting_auth, MessageForNetwork};

#[test]
fn header_round_trip() {
    let h = u64_to_be(0x0102_0304_0506_0708);
    assert_eq!(h, [1, 2, 3, 4, 5, 6, 7, 8]);
    assert_eq!(u64_from_be(&h), 0x0102_0304_0506_0708);
    assert_eq!(u64_from_be(&[0xff; 8]), u64::MAX);
}

#[test]
fn frame_length_limit() {
    assert_eq!(MAXMSGLEN, 125002);
    assert_eq!(frame_length(&u64_to_be(0)), Some(0));
    assert_eq!(frame_length(&u64_to_be(125001)), Some(125001));
    assert_eq!(frame_length(&u64_to_be(125002)), None);
    assert_eq!(frame_length(&u64_to_be(u64::MAX)), None);
}

#[test]
fn oversize_frame_rejected() {
    // a header announcing 200000 bytes is refused before any payload is read
    let header = 200000u64.to_be_bytes();
    assert_eq!(frame_length(&header), None);
}

#[test]
fn frame_layout() {
    let sig = [7u8; 114];
    let f = build_frame(&[1, 2, 3], &sig);
    assert_eq!(f.len(), 8 + 3 + SIG_LENGTH);
    assert_eq!(&f[..8], &[0, 0, 0, 0, 0, 0, 0, 3]);
    assert_eq!(&f[8..11], &[1, 2, 3]);
    assert!(f[11..].iter().all(|b| *b == 7));
    let empty = build_frame(&[], &sig);
    assert_eq!(&empty[..8], &[0u8; 8]);
    assert_eq!(empty.len(), 8 + SIG_LENGTH);
}

#[test]
fn greeting_auth_reverses() {
    let c: Vec<u8> = (0u8..16).collect();
    let m = greeting_auth(&c).unwrap();
    let expected: Vec<u8> = (0u8..16).rev().collect();
    assert_eq!(m.to_vec(), expected);
    let mut arr = [0u8; 16];
    arr.copy_from_slice(&c);
    assert_eq!(m, u128::from_be_bytes(arr).to_le_bytes());
}

#[test]
fn greeting_auth_short_input() {
    assert_eq!(greeting_auth(&[1, 2, 3]), None);
    assert_eq!(greeting_auth(&[]), None);
    let long: Vec<u8> = (0u8..20).collect();
    let m = greeting_auth(&long).unwrap();
    assert_eq!(m[0], 15);
    assert_eq!(m[15], 0);
}

#[test]
fn payload_matches_bincode_layout() {
    let p = encode_message(&MessageForNetwork::DirectMsg("hello".to_string())).unwrap();
    let reference = bincode::serialize(&(0u32, "hello")).unwrap();
    assert_eq!(p, reference);
    assert_eq!(p.len(), 4 + 8 + 5);
    assert_eq!(&p[4..12], &5u64.to_le_bytes());
}

#[test]
fn payload_round_trip() {
    let p = encode_message(&MessageForNetwork::DirectMsg("こんにちは".to_string())).unwrap();
    match decode_message(&p) {
        Some(MessageForNetwork::DirectMsg(t)) => assert_eq!(t, "こんにちは"),
        None => panic!("payload did not decode"),
    }
}

#[test]
fn payload_with_unknown_tag_rejected() {
    let mut p = encode_message(&MessageForNetwork::DirectMsg("hi".to_string())).unwrap();
    p[0] = 1;
    assert!(decode_message(&p).is_none());
    assert!(decode_message(&[0, 0, 0]).is_none());
    assert!(decode_message(&[0, 0, 0, 0, 9]).is_none());
}
