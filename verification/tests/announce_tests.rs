use link2lan::announce::{
    announcement_key, is_default_cryptkey, open_announcement, seal_announcement, seal_announcement_with_nonce,
    Announcement,
};
use link2lan::hex::{hex_decode_chunks, hex_encode};
use link2lan::message::signal_message;

#[test]
fn default_secret_is_refused() {
    assert!(is_default_cryptkey("key"));
    assert!(is_default_cryptkey("keyboard"));
    assert!(!is_default_cryptkey("ke"));
    assert!(!is_default_cryptkey("my key"));
}

#[test]
fn key_is_sha256_of_secret() {
    assert_eq!(
        hex_encode(&announcement_key("abc")),
        "ba7816bf8f01cfea414140de5dae2223b00361a396177a9cb410ff61f20015ad"
    );
}

#[test]
fn sealed_datagram_is_accepted_within_ten_seconds() {
    let msg = signal_message("getsrvstr", 5, "1.2.3.4:5", "6.7.8.9:10", 3);
    let text = seal_announcement("s3cret", 1_700_000_000, &msg);
    let payload = hex_decode_chunks(text.as_bytes());
    // nonce, then "1700000000|" and the signal, then the tag
    assert_eq!(payload.len(), 24 + 11 + msg.len() + 16);
    let key = announcement_key("s3cret");
    for now in [1_700_000_000u64, 1_700_000_009, 1_699_999_991] {
        match open_announcement(&key, &payload, now) {
            Announcement::Accepted(args) => {
                assert_eq!(args, vec!["getsrvstr", "5", "1.2.3.4:5", "6.7.8.9:10", "3"]);
            }
            _ => panic!("not accepted at {}", now),
        }
    }
    assert!(matches!(open_announcement(&key, &payload, 1_700_000_010), Announcement::Ignored));
    assert!(matches!(open_announcement(&key, &payload, 1_699_999_990), Announcement::Ignored));
}

#[test]
fn other_key_or_tampering_fails() {
    let text = seal_announcement("s3cret", 100, "go");
    let mut payload = hex_decode_chunks(text.as_bytes());
    let other = announcement_key("other");
    assert!(matches!(open_announcement(&other, &payload, 100), Announcement::Undecryptable));
    let key = announcement_key("s3cret");
    let last = payload.len() - 1;
    payload[last] ^= 1;
    assert!(matches!(open_announcement(&key, &payload, 100), Announcement::Undecryptable));
}

#[test]
fn short_datagram_is_dropped() {
    let key = announcement_key("s3cret");
    assert!(matches!(open_announcement(&key, &[0u8; 39], 0), Announcement::TooShort));
}

#[test]
fn sealing_with_a_given_nonce_is_deterministic() {
    let key = announcement_key("k2");
    let nonce = [7u8; 24];
    let a = seal_announcement_with_nonce(&key, &nonce, 42, "hello world");
    let b = seal_announcement_with_nonce(&key, &nonce, 42, "hello world");
    assert_eq!(a, b);
    assert!(a.starts_with(&"07".repeat(24)));
    let payload = hex_decode_chunks(a.as_bytes());
    assert_eq!(payload.len(), 24 + "42|hello world".len() + 16);
    // the plaintext does not appear in the clear
    assert!(!a.contains(&hex_encode(b"hello")));
    match open_announcement(&key, &payload, 45) {
        Announcement::Accepted(args) => assert_eq!(args, vec!["hello", "world"]),
        _ => panic!("not accepted"),
    }
}

#[test]
fn accepted_arguments_are_the_five_signal_fields() {
    let msg = signal_message("getsrvstr", 12345, "198.51.100.7:443", "[2001:db8::5]:9000", 4);
    let text = seal_announcement("s3cret", 500, &msg);
    let payload = hex_decode_chunks(text.as_bytes());
    let key = announcement_key("s3cret");
    match open_announcement(&key, &payload, 505) {
        Announcement::Accepted(args) => {
            assert_eq!(args, vec!["getsrvstr", "12345", "198.51.100.7:443", "[2001:db8::5]:9000", "4"]);
        }
        _ => panic!("not accepted"),
    }
}
