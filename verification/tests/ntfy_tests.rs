use link2lan::message::signal_message;
use link2lan::ntfy::{is_message_event, parse_resolve_arg, resolve_error_text, signal_reply, MyNtfyPayload, MyPayload, ResolveError};
use link2lan::text::split_once_str;
use link2lan::num::IntErrorKind;

#[test]
fn resolve_arg_parts() {
    let t = parse_resolve_arg("ntfy.sh:443:1.2.3.4").ok().unwrap();
    assert_eq!(t.domain, "ntfy.sh");
    assert_eq!(t.port, 443);
    assert_eq!(t.ip, "1.2.3.4");
    let t = parse_resolve_arg("example.org:8443:[2001:db8::1]").ok().unwrap();
    assert_eq!(t.domain, "example.org");
    assert_eq!(t.port, 8443);
    assert_eq!(t.ip, "2001:db8::1");
}

#[test]
fn resolve_arg_errors() {
    assert_eq!(parse_resolve_arg("ntfy.sh:443").err(), Some(ResolveError::Format));
    assert_eq!(parse_resolve_arg("").err(), Some(ResolveError::Format));
    assert_eq!(parse_resolve_arg(":443:1.2.3.4").err(), Some(ResolveError::EmptyDomain));
    assert_eq!(parse_resolve_arg("a::1.2.3.4").err(), Some(ResolveError::EmptyPort));
    assert_eq!(parse_resolve_arg("a:1:").err(), Some(ResolveError::EmptyIp));
    assert_eq!(parse_resolve_arg("a:http:1.2.3.4").err(), Some(ResolveError::Port(IntErrorKind::InvalidDigit)));
    assert_eq!(parse_resolve_arg("a:70000:1.2.3.4").err(), Some(ResolveError::Port(IntErrorKind::PosOverflow)));
}

#[test]
fn message_events() {
    let ev = |s: &str| MyNtfyPayload { event: s.to_string() };
    assert!(is_message_event(&ev("message")));
    assert!(!is_message_event(&ev("keepalive")));
    assert!(!is_message_event(&ev("open")));
}

#[test]
fn signal_is_space_separated() {
    assert_eq!(signal_message("getsrvstr", 7, "1.2.3.4:5", "6.7.8.9:10", 3), "getsrvstr 7 1.2.3.4:5 6.7.8.9:10 3");
}

#[test]
fn reply_to_matching_signal() {
    let m = MyPayload { message: signal_message("respsrvstr", 42, "0.0.0.0:0", "203.0.113.9:40000", 3) };
    assert_eq!(signal_reply(&m, "respsrvstr"), Some("203.0.113.9:40000-42".to_string()));
    assert_eq!(signal_reply(&m, "srvstr"), Some("203.0.113.9:40000-42".to_string()));
    assert_eq!(signal_reply(&m, "getsrvstr"), None);
    let short = MyPayload { message: "getsrvstr 1".to_string() };
    assert_eq!(signal_reply(&short, "respsrvstr"), None);
}

#[test]
fn answer_splits_back_at_the_dash() {
    let m = MyPayload { message: signal_message("respsrvstr", 42, "x", "203.0.113.9:40000", 3) };
    let answer = signal_reply(&m, "respsrvstr").unwrap();
    assert_eq!(split_once_str(&answer, '-'), Some(("203.0.113.9:40000".to_string(), "42".to_string())));
}

#[test]
fn resolve_arg_roundtrip_example() {
    let t = parse_resolve_arg(&format!("{}:{}:{}", "ntfy.example", 65535, "[::1]")).ok().unwrap();
    assert_eq!((t.domain.as_str(), t.port, t.ip.as_str()), ("ntfy.example", 65535, "::1"));
}

#[test]
fn resolve_error_messages() {
    let msg = |s: &str| resolve_error_text(s, parse_resolve_arg(s).err().unwrap());
    assert_eq!(msg("a:1"), "Resolve failed: 'a:1' Format: <domain>:<port>:<ip>");
    assert_eq!(msg(":1:2"), "Failed to get domain from: ':1:2'");
    assert_eq!(msg("a::2"), "Failed to get port from: 'a::2'");
    assert_eq!(msg("a:1:"), "Failed to get ip from: 'a:1:'");
    assert_eq!(msg("a:http:1.2.3.4"), "Failed to parse port 'http': invalid digit found in string");
    assert_eq!(msg("a:99999:1.2.3.4"), "Failed to parse port '99999': number too large to fit in target type");
    assert_eq!("http".parse::<u16>().unwrap_err().to_string(), "invalid digit found in string");
    assert_eq!("99999".parse::<u16>().unwrap_err().to_string(), "number too large to fit in target type");
}
