use libtea::book::{AddressBook, BookEntry};
use libtea::UserData;

fn key(n: u8) -> [u8; 57] {
    let mut k = [0u8; 57];
    for (i, b) in k.iter_mut().enumerate() {
        *b = n.wrapping_mul(31).wrapping_add(i as u8);
    }
    k
}

fn address(n: u8, host: &str) -> String {
    UserData { id: key(n), hostname: host.to_string(), username: None }.get_address()
}

#[test]
fn add_then_get() {
    let mut book = AddressBook::new();
    let e = book.add_user(&address(1, "one.onion"), 100).unwrap();
    assert_eq!(e.lastupdate, 100);
    assert_eq!(e.user.id, key(1));
    assert_eq!(e.user.hostname, "one.onion");
    let u = book.get(&key(1)).unwrap();
    assert_eq!(u.hostname, "one.onion");
    assert!(book.get(&key(2)).is_none());
    assert_eq!(book.len(), 1);
}

#[test]
fn duplicate_add_rejected() {
    let mut book = AddressBook::new();
    assert!(book.add_user(&address(1, "one.onion"), 100).is_some());
    assert!(book.add_user(&address(1, "other.onion"), 200).is_none());
    assert_eq!(book.len(), 1);
    let rows = book.rows();
    assert_eq!(rows.iter().filter(|r| r.user.id == key(1)).count(), 1);
    assert_eq!(book.get(&key(1)).unwrap().hostname, "one.onion");
    assert_eq!(rows[0].lastupdate, 100);
}

#[test]
fn bad_address_not_added() {
    let mut book = AddressBook::new();
    assert!(book.add_user("no-at-sign", 1).is_none());
    assert_eq!(book.len(), 0);
}

#[test]
fn listing_is_newest_first() {
    let mut book = AddressBook::new();
    book.add_user(&address(1, "one.onion"), 100).unwrap();
    book.add_user(&address(2, "two.onion"), 300).unwrap();
    book.add_user(&address(3, "three.onion"), 200).unwrap();
    let ids: Vec<[u8; 57]> = book.list().iter().map(|u| u.id).collect();
    assert_eq!(ids, vec![key(2), key(3), key(1)]);
    let times: Vec<i64> = book.rows().iter().map(|r| r.lastupdate).collect();
    assert_eq!(times, vec![300, 200, 100]);
}

#[test]
fn equal_times_newest_insert_first() {
    let mut book = AddressBook::new();
    book.add_user(&address(1, "one.onion"), 100).unwrap();
    book.add_user(&address(2, "two.onion"), 100).unwrap();
    let ids: Vec<[u8; 57]> = book.list().iter().map(|u| u.id).collect();
    assert_eq!(ids, vec![key(2), key(1)]);
}

#[test]
fn touch_moves_peer_first() {
    let mut book = AddressBook::new();
    book.add_user(&address(1, "one.onion"), 100).unwrap();
    book.add_user(&address(2, "two.onion"), 200).unwrap();
    assert!(book.touch(&key(1), 500));
    let rows = book.rows();
    assert_eq!(rows[0].user.id, key(1));
    assert_eq!(rows[0].lastupdate, 500);
    assert_eq!(rows[0].user.hostname, "one.onion");
    assert_eq!(rows[1].lastupdate, 200);
    assert!(!book.touch(&key(9), 600));
    assert_eq!(book.len(), 2);
}

#[test]
fn touch_now_sets_current_time() {
    let mut book = AddressBook::new();
    book.add_user(&address(1, "one.onion"), 0).unwrap();
    let t = book.touch_now(&key(1)).unwrap();
    assert!(t > 1_600_000_000);
    assert_eq!(book.rows()[0].lastupdate, t);
    assert!(book.touch_now(&key(2)).is_none());
}

#[test]
fn add_user_now_uses_clock() {
    let mut book = AddressBook::new();
    let e = book.add_user_now(&address(4, "four.onion")).unwrap();
    assert!(e.lastupdate > 1_600_000_000);
    assert!(book.add_user_now(&address(4, "four.onion")).is_none());
}

#[test]
fn delete_is_idempotent() {
    let mut book = AddressBook::new();
    book.add_user(&address(1, "one.onion"), 100).unwrap();
    book.add_user(&address(2, "two.onion"), 200).unwrap();
    assert!(book.delete(&key(1)));
    assert!(!book.delete(&key(1)));
    assert_eq!(book.len(), 1);
    assert!(book.get(&key(1)).is_none());
    assert!(book.get(&key(2)).is_some());
}

#[test]
fn restore_from_rows() {
    let mut book = AddressBook::new();
    book.add_user(&address(1, "one.onion"), 100).unwrap();
    book.add_user(&address(2, "two.onion"), 300).unwrap();
    let saved = book.rows();
    let mut again = AddressBook::new();
    for r in saved {
        assert!(again.insert_entry(r));
    }
    let hosts: Vec<String> = again.list().into_iter().map(|u| u.hostname).collect();
    assert_eq!(hosts, vec!["two.onion".to_string(), "one.onion".to_string()]);
    let dup = BookEntry { lastupdate: 5, user: UserData { id: key(1), hostname: "x".to_string(), username: None } };
    assert!(!again.insert_entry(dup));
    assert_eq!(again.len(), 2);
}
