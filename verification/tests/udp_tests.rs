use link2lan::udp::{udp_bind_addr, udp_packet_data};

#[test]
fn empty_input_gives_random_letters_and_digits() {
    let a = udp_packet_data("");
    assert_eq!(a.len(), 64);
    assert!(a.iter().all(|b| b.is_ascii_alphanumeric()));
}

#[test]
fn hex_input_gives_its_bytes() {
    assert_eq!(udp_packet_data("48656c6c6f"), b"Hello".to_vec());
}

#[test]
fn bind_address_follows_the_target_family() {
    assert_eq!(udp_bind_addr("1.2.3.4:5"), "0.0.0.0:0");
    assert_eq!(udp_bind_addr("[2001:db8::1]:5"), "[::]:0");
}
