use link2lan::stun::{pick_stun_server, stun_info, stun_reply, stun_servers, StunReply};

#[test]
fn servers_are_trimmed_and_empty_ones_dropped() {
    assert_eq!(stun_servers(" 1.1.1.1:3478 ,, 8.8.8.8:19302,  "), vec!["1.1.1.1:3478", "8.8.8.8:19302"]);
    assert_eq!(stun_servers(" , "), Vec::<String>::new());
}

#[test]
fn pick_is_one_of_the_servers() {
    for _ in 0..20 {
        let s = pick_stun_server("a:1, b:2 ,c:3").unwrap();
        assert!(s == "a:1" || s == "b:2" || s == "c:3");
    }
    assert_eq!(pick_stun_server(" ,,"), None);
}

#[test]
fn info_v4_and_v6() {
    let i = stun_info("162.159.207.0:3478", "192.168.1.2", 5000, "203.0.113.7", 61000, false);
    assert_eq!(i.stunstr, "162.159.207.0:3478");
    assert_eq!(i.localstr, "192.168.1.2:5000");
    assert_eq!(i.localport, "5000");
    assert_eq!(i.mappedstr, "203.0.113.7:61000");
    assert_eq!(i.mappedip, "203.0.113.7");
    assert_eq!(i.mappedport, "61000");
    let j = stun_info("s", "::", 1, "2001:db8::2", 2, true);
    assert_eq!(j.localstr, "[::]:1");
    assert_eq!(j.mappedstr, "[2001:db8::2]:2");
}

#[test]
fn replies_by_format() {
    let i = stun_info("s", "10.0.0.1", 3478, "198.51.100.1", 50000, false);
    assert!(matches!(stun_reply(0, &i), StunReply::SendText(t) if t == "198.51.100.1:50000-3478"));
    assert!(matches!(stun_reply(1, &i), StunReply::SendJson));
    assert!(matches!(stun_reply(2, &i), StunReply::PrintText(t) if t == "198.51.100.1:50000"));
    assert!(matches!(stun_reply(3, &i), StunReply::PrintJson));
    assert!(matches!(stun_reply(9, &i), StunReply::PrintText(t) if t == "198.51.100.1:50000-3478"));
}
