use vstd::prelude::*;
use crate::message::signal_message_spec;
use crate::num::{
    decimal_parse_roundtrip, decimal_spec, is_digit, lemma_decimal_digits, parse_uint_chars,
    parse_uint_spec, IntErrorKind,
};
use crate::text::{
    chars_of, contains_chars, contains_seq, lemma_split_on_concat, lemma_split_on_no_sep,
    lemma_split_once_concat, slice_chars, split_on, split_once_chars, split_once_spec, split_str,
    string_from_chars, strings_view,
};

verus! {

/// The part of an ntfy event that tells what kind of event it is.
pub struct MyNtfyPayload {
    pub event: String,
}

/// The part of an ntfy `message` event that carries the published text.
pub struct MyPayload {
    pub message: String,
}

// ---------------------------------------------------------------------------
// The `--resolve` argument: `<domain>:<port>:<ip>`
// ---------------------------------------------------------------------------

/// A host name pinned to an address, as the HTTP client's `resolve` takes it.
pub struct ResolveTarget {
    pub domain: String,
    pub port: u16,
    /// The address text, without the brackets of an IPv6 literal.
    pub ip: String,
}

/// Why a `--resolve` argument was refused.
#[derive(Debug, Clone, Copy, PartialEq, Eq, Structural)]
pub enum ResolveError {
    /// Fewer than three parts separated by `:`.
    Format,
    EmptyDomain,
    EmptyPort,
    EmptyIp,
    /// The port is not a `u16`.
    Port(IntErrorKind),
}

/// `s` without the square brackets around it, if it has both.
pub open spec fn strip_brackets_spec(s: Seq<char>) -> Seq<char> {
    if s.len() > 0 && s[0] == '[' && s.last() == ']' {
        s.subrange(1, s.len() - 1)
    } else {
        s
    }
}

/// The domain, the port and the address of a `--resolve` argument: the text
/// is cut at its first two `:` (the address keeps any further `:`), no part
/// may be empty, and the port must read as a `u16`.
pub open spec fn resolve_spec(s: Seq<char>) -> Result<(Seq<char>, nat, Seq<char>), ResolveError> {
    match split_once_spec(s, ':') {
        None => Err(ResolveError::Format),
        Some((domain, rest)) => match split_once_spec(rest, ':') {
            None => Err(ResolveError::Format),
            Some((port, ip)) => if domain.len() == 0 {
                Err(ResolveError::EmptyDomain)
            } else if port.len() == 0 {
                Err(ResolveError::EmptyPort)
            } else if ip.len() == 0 {
                Err(ResolveError::EmptyIp)
            } else {
                match parse_uint_spec(port, u16::MAX as nat) {
                    Ok(p) => Ok((domain, p, strip_brackets_spec(ip))),
                    Err(e) => Err(ResolveError::Port(e)),
                }
            },
        },
    }
}

fn strip_brackets(s: &[char]) -> (r: Vec<char>)
    ensures
        r@ == strip_brackets_spec(s@),
{
    let n = s.len();
    if n > 0 && s[0] == '[' && s[n - 1] == ']' {
        slice_chars(s, 1, n - 1)
    } else {
        slice_chars(s, 0, n)
    }
}

/// Reads a `--resolve` argument `<domain>:<port>:<ip>`.
pub fn parse_resolve_arg(resolve_str: &str) -> (r: Result<ResolveTarget, ResolveError>)
    ensures
        match r {
            Ok(t) => resolve_spec(resolve_str@) == Ok::<(Seq<char>, nat, Seq<char>), ResolveError>(
                (t.domain@, t.port as nat, t.ip@),
            ),
            Err(e) => resolve_spec(resolve_str@) == Err::<(Seq<char>, nat, Seq<char>), ResolveError>(
                e,
            ),
        },
{
    let cs = chars_of(resolve_str);
    let (domain, rest) = match split_once_chars(cs.as_slice(), ':') {
        Some(p) => p,
        None => return Err(ResolveError::Format),
    };
    let (port, ip) = match split_once_chars(rest.as_slice(), ':') {
        Some(p) => p,
        None => return Err(ResolveError::Format),
    };
    if domain.len() == 0 {
        return Err(ResolveError::EmptyDomain);
    }
    if port.len() == 0 {
        return Err(ResolveError::EmptyPort);
    }
    if ip.len() == 0 {
        return Err(ResolveError::EmptyIp);
    }
    let stripped = strip_brackets(ip.as_slice());
    match parse_uint_chars(port.as_slice(), 65535) {
        Ok(p) => Ok(
            ResolveTarget {
                domain: string_from_chars(domain.as_slice()),
                port: p as u16,
                ip: string_from_chars(stripped.as_slice()),
            },
        ),
        Err(e) => Err(ResolveError::Port(e)),
    }
}

/// What `std::num::ParseIntError` prints for each kind.
pub open spec fn int_error_text_spec(kind: IntErrorKind) -> Seq<char> {
    match kind {
        IntErrorKind::Empty => "cannot parse integer from empty string"@,
        IntErrorKind::InvalidDigit => "invalid digit found in string"@,
        IntErrorKind::PosOverflow => "number too large to fit in target type"@,
    }
}

/// The port part of a `--resolve` argument: between its first two `:`.
pub open spec fn resolve_port_text(s: Seq<char>) -> Seq<char> {
    match split_once_spec(s, ':') {
        Some((_, rest)) => match split_once_spec(rest, ':') {
            Some((port, _)) => port,
            None => Seq::<char>::empty(),
        },
        None => Seq::<char>::empty(),
    }
}

/// The message that reports a refused `--resolve` argument.
pub open spec fn resolve_error_text_spec(s: Seq<char>, e: ResolveError) -> Seq<char> {
    match e {
        ResolveError::Format => "Resolve failed: '"@ + s + "' Format: <domain>:<port>:<ip>"@,
        ResolveError::EmptyDomain => "Failed to get domain from: '"@ + s + "'"@,
        ResolveError::EmptyPort => "Failed to get port from: '"@ + s + "'"@,
        ResolveError::EmptyIp => "Failed to get ip from: '"@ + s + "'"@,
        ResolveError::Port(kind) => "Failed to parse port '"@ + resolve_port_text(s) + "': "@
            + int_error_text_spec(kind),
    }
}

fn int_error_text(kind: IntErrorKind) -> (r: Vec<char>)
    ensures
        r@ == int_error_text_spec(kind),
{
    match kind {
        IntErrorKind::Empty => chars_of("cannot parse integer from empty string"),
        IntErrorKind::InvalidDigit => chars_of("invalid digit found in string"),
        IntErrorKind::PosOverflow => chars_of("number too large to fit in target type"),
    }
}

fn resolve_port_chars(s: &[char]) -> (r: Vec<char>)
    ensures
        r@ == resolve_port_text(s@),
{
    match split_once_chars(s, ':') {
        Some((_, rest)) => match split_once_chars(rest.as_slice(), ':') {
            Some((port, _)) => port,
            None => Vec::new(),
        },
        None => Vec::new(),
    }
}

/// Writes the message that reports a refused `--resolve` argument.
pub fn resolve_error_text(resolve_str: &str, e: ResolveError) -> (r: String)
    ensures
        r@ == resolve_error_text_spec(resolve_str@, e),
{
    let s = chars_of(resolve_str);
    let mut out: Vec<char>;
    match e {
        ResolveError::Format => {
            out = chars_of("Resolve failed: '");
            let mut a = s.clone();
            out.append(&mut a);
            let mut b = chars_of("' Format: <domain>:<port>:<ip>");
            out.append(&mut b);
        },
        ResolveError::EmptyDomain => {
            out = chars_of("Failed to get domain from: '");
            let mut a = s.clone();
            out.append(&mut a);
            let mut b = chars_of("'");
            out.append(&mut b);
        },
        ResolveError::EmptyPort => {
            out = chars_of("Failed to get port from: '");
            let mut a = s.clone();
            out.append(&mut a);
            let mut b = chars_of("'");
            out.append(&mut b);
        },
        ResolveError::EmptyIp => {
            out = chars_of("Failed to get ip from: '");
            let mut a = s.clone();
            out.append(&mut a);
            let mut b = chars_of("'");
            out.append(&mut b);
        },
        ResolveError::Port(kind) => {
            out = chars_of("Failed to parse port '");
            let mut a = resolve_port_chars(s.as_slice());
            out.append(&mut a);
            let mut b = chars_of("': ");
            out.append(&mut b);
            let mut c = int_error_text(kind);
            out.append(&mut c);
        },
    }
    string_from_chars(out.as_slice())
}

/// A `--resolve` argument written as its documented form `<domain>:<port>:<ip>`
/// reads back as the domain, the port and the address, for every non-empty
/// domain without `:`, every port and every non-empty address.
pub proof fn resolve_arg_roundtrip(domain: Seq<char>, port: u16, ip: Seq<char>)
    requires
        domain.len() > 0,
        !domain.contains(':'),
        ip.len() > 0,
    ensures
        resolve_spec(domain + seq![':'] + decimal_spec(port as nat) + seq![':'] + ip) == Ok::<
            (Seq<char>, nat, Seq<char>),
            ResolveError,
        >((domain, port as nat, strip_brackets_spec(ip))),
{
    let d = decimal_spec(port as nat);
    lemma_decimal_digits(port as nat);
    assert(!d.contains(':')) by {
        if d.contains(':') {
            let k = choose|k: int| 0 <= k < d.len() && d[k] == ':';
            assert(is_digit(d[k]));
        }
    }
    let rest = d + seq![':'] + ip;
    assert(domain + seq![':'] + d + seq![':'] + ip == domain + seq![':'] + rest);
    lemma_split_once_concat(domain, ':', rest);
    lemma_split_once_concat(d, ':', ip);
    decimal_parse_roundtrip(port as nat, u16::MAX as nat);
}

// ---------------------------------------------------------------------------
// Subscribing: which published message answers a request
// ---------------------------------------------------------------------------

/// The word that marks an ntfy event carrying a published message.
pub open spec fn message_word() -> Seq<char> {
    seq!['m', 'e', 's', 's', 'a', 'g', 'e']
}

/// An ntfy event that carries a published message: its kind contains
/// `message`.
pub fn is_message_event(payload: &MyNtfyPayload) -> (r: bool)
    ensures
        r == contains_seq(payload.event@, message_word()),
{
    let h = chars_of(payload.event.as_str());
    let mut w: Vec<char> = Vec::new();
    w.push('m');
    w.push('e');
    w.push('s');
    w.push('s');
    w.push('a');
    w.push('g');
    w.push('e');
    assert(w@ == message_word());
    contains_chars(h.as_slice(), w.as_slice())
}

/// A published message answers the subscription to `regevent` when its first
/// space-separated field contains `regevent`; the answer is the fourth field,
/// `-`, and the second field (the peer's address and the stream id).
pub open spec fn signal_reply_spec(message: Seq<char>, regevent: Seq<char>) -> Option<Seq<char>> {
    let items = split_on(message, ' ');
    if contains_seq(items[0], regevent) {
        Some(items[3] + seq!['-'] + items[1])
    } else {
        None
    }
}

/// A message that answers the subscription has at least four fields: the
/// answer is built from the fourth, and a subscriber fails without one.
pub open spec fn signal_reply_defined(message: Seq<char>, regevent: Seq<char>) -> bool {
    let items = split_on(message, ' ');
    contains_seq(items[0], regevent) ==> items.len() >= 4
}

/// Decides whether a published message answers the subscription to
/// `regevent`, and what it answers.
pub fn signal_reply(payload: &MyPayload, regevent: &str) -> (r: Option<String>)
    requires
        signal_reply_defined(payload.message@, regevent@),
    ensures
        match r {
            Some(s) => signal_reply_spec(payload.message@, regevent@) == Some(s@),
            None => signal_reply_spec(payload.message@, regevent@) is None,
        },
{
    let items = split_str(payload.message.as_str(), ' ');
    proof {
        crate::text::lemma_split_on_len(payload.message@, ' ');
    }
    assert(strings_view(items@)[0] == items@[0]@);
    let first = chars_of(items[0].as_str());
    let re = chars_of(regevent);
    if contains_chars(first.as_slice(), re.as_slice()) {
        assert(strings_view(items@)[1] == items@[1]@);
        assert(strings_view(items@)[3] == items@[3]@);
        let mut out = chars_of(items[3].as_str());
        out.push('-');
        let mut id = chars_of(items[1].as_str());
        out.append(&mut id);
        Some(string_from_chars(out.as_slice()))
    } else {
        None
    }
}

proof fn lemma_no_space_in_decimal(n: nat)
    ensures
        !decimal_spec(n).contains(' '),
{
    lemma_decimal_digits(n);
    let d = decimal_spec(n);
    if d.contains(' ') {
        let k = choose|k: int| 0 <= k < d.len() && d[k] == ' ';
        assert(is_digit(d[k]));
    }
}

/// The fields of a signal whose event, server and local addresses hold no
/// space are the five values it was written from.
pub proof fn signal_fields(
    event: Seq<char>,
    streamid: nat,
    srvstr: Seq<char>,
    localstr: Seq<char>,
    nattype: nat,
)
    requires
        !event.contains(' '),
        !srvstr.contains(' '),
        !localstr.contains(' '),
    ensures
        split_on(signal_message_spec(event, streamid, srvstr, localstr, nattype), ' ') == seq![
            event,
            decimal_spec(streamid),
            srvstr,
            localstr,
            decimal_spec(nattype),
        ],
{
    let sp = seq![' '];
    let d1 = decimal_spec(streamid);
    let d2 = decimal_spec(nattype);
    lemma_no_space_in_decimal(streamid);
    lemma_no_space_in_decimal(nattype);
    let r4 = d2;
    let r3 = localstr + sp + r4;
    let r2 = srvstr + sp + r3;
    let r1 = d1 + sp + r2;
    assert(signal_message_spec(event, streamid, srvstr, localstr, nattype) == event + sp + r1);
    lemma_split_on_concat(event, ' ', r1);
    lemma_split_on_concat(d1, ' ', r2);
    lemma_split_on_concat(srvstr, ' ', r3);
    lemma_split_on_concat(localstr, ' ', r4);
    lemma_split_on_no_sep(event, ' ');
    lemma_split_on_no_sep(d1, ' ');
    lemma_split_on_no_sep(srvstr, ' ');
    lemma_split_on_no_sep(localstr, ' ');
    lemma_split_on_no_sep(d2, ' ');
}

/// A subscriber to `regevent` that receives the signal a peer published for
/// an event containing `regevent` answers with the peer's local address, `-`,
/// and the stream id; for an event not containing it, it keeps waiting.
pub proof fn signal_reply_roundtrip(
    event: Seq<char>,
    streamid: u64,
    srvstr: Seq<char>,
    localstr: Seq<char>,
    nattype: u8,
    regevent: Seq<char>,
)
    requires
        !event.contains(' '),
        !srvstr.contains(' '),
        !localstr.contains(' '),
    ensures
        ({
            let m = signal_message_spec(event, streamid as nat, srvstr, localstr, nattype as nat);
            &&& signal_reply_defined(m, regevent)
            &&& signal_reply_spec(m, regevent) == if contains_seq(event, regevent) {
                Some(localstr + seq!['-'] + decimal_spec(streamid as nat))
            } else {
                None
            }
        }),
{
    signal_fields(event, streamid as nat, srvstr, localstr, nattype as nat);
}

/// The answer splits back at its first `-` into the peer's address and the
/// stream id, when the address holds no `-`.
pub proof fn signal_answer_splits(localstr: Seq<char>, streamid: u64)
    requires
        !localstr.contains('-'),
    ensures
        split_once_spec(localstr + seq!['-'] + decimal_spec(streamid as nat), '-') == Some(
            (localstr, decimal_spec(streamid as nat)),
        ),
{
    lemma_split_once_concat(localstr, '-', decimal_spec(streamid as nat));
}


/// The brackets around an address are removed, whatever it holds.
pub proof fn strip_brackets_removes_them(t: Seq<char>)
    ensures
        strip_brackets_spec(seq!['['] + t + seq![']']) == t,
{
    let s = seq!['['] + t + seq![']'];
    assert(s[0] == '[');
    assert(s.last() == ']');
    assert(s.subrange(1, s.len() - 1) == t);
}

/// A `--resolve` argument whose address is written in brackets reads back
/// the address without them, for every address text.
pub proof fn resolve_arg_bracketed(domain: Seq<char>, port: u16, t: Seq<char>)
    requires
        domain.len() > 0,
        !domain.contains(':'),
    ensures
        resolve_spec(domain + seq![':'] + decimal_spec(port as nat) + seq![':'] + (seq!['['] + t
            + seq![']'])) == Ok::<(Seq<char>, nat, Seq<char>), ResolveError>(
            (domain, port as nat, t),
        ),
{
    resolve_arg_roundtrip(domain, port, seq!['['] + t + seq![']']);
    strip_brackets_removes_them(t);
}

} // verus!
