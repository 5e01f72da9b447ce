use libtea::address::{decode_trimmed_address, ends_with_onion, self_address};
use libtea::{decode_address, UserData, UserDataRaw};

fn sample_user() -> UserData {
    let mut id = [0u8; 57];
    for (i, b) in id.iter_mut().enumerate() {
        *b = (i * 7 + 3) as u8;
    }
    UserData {
        id,
        hostname: "abcdefghijklmnop.onion".to_string(),
        username: None,
    }
}

#[test]
fn address_layout() {
    let u = sample_user();
    let a = u.get_address();
    let expected = format!(
        "{}@{}",
        base64::encode_config(u.id, base64::URL_SAFE_NO_PAD),
        u.hostname
    );
    assert_eq!(a, expected);
    assert!(!a.contains('='));
}

#[test]
fn address_round_trip() {
    let u = sample_user();
    let d = decode_address(&u.get_address()).unwrap();
    assert_eq!(d.id, u.id);
    assert_eq!(d.hostname, u.hostname);
    assert!(d.username.is_none());
}

#[test]
fn address_is_trimmed() {
    let u = sample_user();
    let d = decode_address(&format!("  {}\n", u.get_address())).unwrap();
    assert_eq!(d.id, u.id);
    assert_eq!(d.hostname, u.hostname);
    assert!(decode_trimmed_address(&format!(" {}", u.get_address())).is_none());
}

#[test]
fn address_without_at_rejected() {
    assert!(decode_address("abcdef").is_none());
    assert!(decode_address("").is_none());
}

#[test]
fn address_with_bad_key_rejected() {
    // not base64
    assert!(decode_address("!!!!@host.onion").is_none());
    // base64 of ten bytes: wrong key length
    let short = base64::encode_config([1u8; 10], base64::URL_SAFE_NO_PAD);
    assert!(decode_address(&format!("{}@host.onion", short)).is_none());
}

#[test]
fn address_split_at_first_at() {
    let u = sample_user();
    let key = base64::encode_config(u.id, base64::URL_SAFE_NO_PAD);
    let d = decode_address(&format!("{}@a@b.onion", key)).unwrap();
    assert_eq!(d.hostname, "a@b.onion");
}

#[test]
fn raw_record_key_length() {
    let ok = UserDataRaw { id: vec![5u8; 57], hostname: "h.onion".to_string(), username: Some("bob".to_string()) };
    let u = ok.to_userdata().unwrap();
    assert_eq!(u.id, [5u8; 57]);
    assert_eq!(u.hostname, "h.onion");
    assert_eq!(u.username.as_deref(), Some("bob"));
    let bad = UserDataRaw { id: vec![5u8; 56], hostname: "h.onion".to_string(), username: None };
    assert!(bad.to_userdata().is_none());
}

#[test]
fn onion_suffix() {
    assert!(ends_with_onion("abc.onion"));
    assert!(ends_with_onion(".onion"));
    assert!(!ends_with_onion("onion"));
    assert!(!ends_with_onion("abc.onion "));
    assert!(!ends_with_onion("abc.com"));
}

#[test]
fn own_address_from_hostname_file() {
    let u = sample_user();
    let a = self_address(&u.id, "  abcdefghijklmnop.onion\n").unwrap();
    assert_eq!(a, u.get_address());
    assert!(self_address(&u.id, "").is_none());
    assert!(self_address(&u.id, "example.com\n").is_none());
}
