use link2lan::endpoint::{check_endpoint_pattern, count_x_segments, expand_ip_pattern, gen_endpoint, parse_range, port_range};

#[test]
fn port_ranges() {
    assert_eq!(parse_range("80"), Ok((80, 80)));
    assert_eq!(parse_range("1000-2000"), Ok((1000, 2000)));
    assert_eq!(port_range("1-2-3"), None);
    assert_eq!(port_range("x"), None);
    assert_eq!(port_range("9-1"), Some((9, 1)));
}

#[test]
fn pattern_checks() {
    assert!(check_endpoint_pattern("1.2.3.4:80"));
    assert!(check_endpoint_pattern("no colon here"));
    assert!(!check_endpoint_pattern("1.2.3.4:9-1"));
    assert!(!check_endpoint_pattern("1.2.3.4:http"));
}

#[test]
fn fixed_endpoint() {
    let e = gen_endpoint("1.2.3.4:80").ok().unwrap();
    assert_eq!(e.ip, "1.2.3.4");
    assert_eq!(e.port, 80);
}

#[test]
fn missing_colon_is_reported() {
    assert_eq!(gen_endpoint("1.2.3.4").err(), Some("Format Error: ':' NOT found".to_string()));
}

#[test]
fn random_segments_and_port() {
    for _ in 0..20 {
        let e = gen_endpoint("10.0.x.X:1000-1010").ok().unwrap();
        assert!((1000..=1010).contains(&e.port));
        let parts: Vec<&str> = e.ip.split('.').collect();
        assert_eq!(parts.len(), 4);
        assert_eq!(parts[0], "10");
        assert_eq!(parts[1], "0");
        assert!(parts[2].parse::<u16>().unwrap() <= 255);
        assert!(parts[3].parse::<u16>().unwrap() <= 255);
    }
    let e = gen_endpoint("[2001:db8::x]:5000").ok().unwrap();
    assert_eq!(e.port, 5000);
    assert!(e.ip.starts_with("2001:db8::"));
    let last = e.ip.rsplit(':').next().unwrap();
    assert!(u16::from_str_radix(last, 16).is_ok());
    assert_eq!(last, last.to_lowercase());
}

#[test]
fn expansion_with_given_values() {
    assert_eq!(count_x_segments("x.1.x.x"), 3);
    assert_eq!(count_x_segments("[fe80::x:X]"), 2);
    assert_eq!(expand_ip_pattern("x.1.x.x", &[10, 20, 255]), "10.1.20.255");
    assert_eq!(expand_ip_pattern("[fe80::x:X]", &[0xabc, 0xffff]), "fe80::abc:ffff");
    assert_eq!(expand_ip_pattern("1.2.3.4", &[]), "1.2.3.4");
}
