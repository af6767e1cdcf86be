use vstd::prelude::*;
use crate::num::{decimal_spec, lower_hex_spec, parse_uint_chars, parse_uint_spec, push_decimal, push_lower_hex};
use crate::rng::random_u16_inclusive;
use crate::text::{
    chars_of, rsplit_once_chars, rsplit_once_spec, slice_chars, split_on, split_once_chars,
    split_once_spec, split_str, string_from_chars, strings_view,
};

verus! {

// ---------------------------------------------------------------------------
// Port ranges: `port` or `first-last`
// ---------------------------------------------------------------------------

/// The two bounds of a port range as text: the parts around the first `-`,
/// or the whole text twice when there is none.
pub open spec fn range_bounds_text(s: Seq<char>) -> (Seq<char>, Seq<char>) {
    match split_once_spec(s, '-') {
        Some((l, r)) => (l, r),
        None => (s, s),
    }
}

/// The bounds of a port range, when both read as `u16`.
pub open spec fn port_range_spec(s: Seq<char>) -> Option<(nat, nat)> {
    let (l, r) = range_bounds_text(s);
    match (parse_uint_spec(l, u16::MAX as nat), parse_uint_spec(r, u16::MAX as nat)) {
        (Ok(a), Ok(b)) => Some((a, b)),
        _ => None,
    }
}

/// Reads a port range `port` or `first-last`; none when a bound is not a
/// `u16`.
pub fn port_range(portstr: &str) -> (r: Option<(u16, u16)>)
    ensures
        match r {
            Some((a, b)) => port_range_spec(portstr@) == Some((a as nat, b as nat)),
            None => port_range_spec(portstr@) is None,
        },
{
    let cs = chars_of(portstr);
    let (l, r) = match split_once_chars(cs.as_slice(), '-') {
        Some(p) => p,
        None => (slice_chars(cs.as_slice(), 0, cs.len()), slice_chars(cs.as_slice(), 0, cs.len())),
    };
    assert(cs@.subrange(0, cs@.len() as int) == cs@);
    match (parse_uint_chars(l.as_slice(), 65535), parse_uint_chars(r.as_slice(), 65535)) {
        (Ok(a), Ok(b)) => Some((a as u16, b as u16)),
        _ => None,
    }
}

/// Reads a port range `port` or `first-last` whose bounds are both `u16`.
pub fn parse_range(portstr: &str) -> (r: Result<(u16, u16), String>)
    requires
        port_range_spec(portstr@) is Some,
    ensures
        r matches Ok((a, b)) && port_range_spec(portstr@) == Some((a as nat, b as nat)),
{
    match port_range(portstr) {
        Some(p) => Ok(p),
        None => {
            assert(false);
            Err(String::new())
        },
    }
}

// ---------------------------------------------------------------------------
// Address patterns: an `x` segment stands for a random one
// ---------------------------------------------------------------------------

/// A segment that stands for a random value: `x` or `X`.
pub open spec fn is_x_segment(seg: Seq<char>) -> bool {
    seg == seq!['x'] || seg == seq!['X']
}

/// How many segments stand for random values.
pub open spec fn x_count(segs: Seq<Seq<char>>) -> nat
    decreases segs.len(),
{
    if segs.len() == 0 {
        0
    } else {
        x_count(segs.drop_last()) + if is_x_segment(segs.last()) {
            1nat
        } else {
            0nat
        }
    }
}

/// The text of a random value: lower-case hexadecimal in an IPv6 address,
/// decimal in an IPv4 one.
pub open spec fn fill_text(v: u16, ipv6: bool) -> Seq<char> {
    if ipv6 {
        lower_hex_spec(v as nat)
    } else {
        decimal_spec(v as nat)
    }
}

/// The segments with each `x` replaced, in order, by the text of the next value.
pub open spec fn fill_segments(segs: Seq<Seq<char>>, fills: Seq<u16>, ipv6: bool) -> Seq<Seq<char>>
    decreases segs.len(),
{
    if segs.len() == 0 {
        Seq::<Seq<char>>::empty()
    } else if is_x_segment(segs.last()) {
        fill_segments(segs.drop_last(), fills.drop_last(), ipv6).push(fill_text(fills.last(), ipv6))
    } else {
        fill_segments(segs.drop_last(), fills, ipv6).push(segs.last())
    }
}

/// The parts joined by `sep`, as `[String]::join` does.
pub open spec fn join_spec(parts: Seq<Seq<char>>, sep: char) -> Seq<char>
    decreases parts.len(),
{
    if parts.len() == 0 {
        Seq::<char>::empty()
    } else if parts.len() == 1 {
        parts[0]
    } else {
        join_spec(parts.drop_last(), sep) + seq![sep] + parts.last()
    }
}

/// An address pattern in square brackets is IPv6.
pub open spec fn is_bracketed(s: Seq<char>) -> bool {
    s.len() > 0 && s[0] == '[' && s.last() == ']'
}

/// The segments of an address pattern: between the `:` inside the brackets
/// of an IPv6 pattern, else between the `.`.
pub open spec fn ip_segments(ip: Seq<char>) -> Seq<Seq<char>> {
    if is_bracketed(ip) {
        split_on(ip.subrange(1, ip.len() - 1), ':')
    } else {
        split_on(ip, '.')
    }
}

/// The address that a pattern and the drawn values give. The brackets of an
/// IPv6 pattern are not kept.
pub open spec fn expand_ip_spec(ip: Seq<char>, fills: Seq<u16>) -> Seq<char> {
    let v6 = is_bracketed(ip);
    join_spec(fill_segments(ip_segments(ip), fills, v6), if v6 { ':' } else { '.' })
}

/// The values that may be drawn: any `u16` for IPv6, at most 255 for IPv4.
pub open spec fn fills_in_bounds(fills: Seq<u16>, ipv6: bool) -> bool {
    forall|i: int| 0 <= i < fills.len() ==> ipv6 || #[trigger] fills[i] <= 255
}

proof fn lemma_fill_segments_len(segs: Seq<Seq<char>>, fills: Seq<u16>, ipv6: bool)
    ensures
        fill_segments(segs, fills, ipv6).len() == segs.len(),
    decreases segs.len(),
{
    if segs.len() > 0 {
        if is_x_segment(segs.last()) {
            lemma_fill_segments_len(segs.drop_last(), fills.drop_last(), ipv6);
        } else {
            lemma_fill_segments_len(segs.drop_last(), fills, ipv6);
        }
    }
}

proof fn lemma_x_count_prefix(segs: Seq<Seq<char>>, i: int)
    requires
        0 <= i <= segs.len(),
    ensures
        x_count(segs.take(i)) <= x_count(segs),
    decreases segs.len() - i,
{
    if i < segs.len() {
        lemma_x_count_prefix(segs, i + 1);
        assert(segs.take(i + 1).drop_last() == segs.take(i));
    } else {
        assert(segs.take(i) == segs);
    }
}

fn is_x_segment_exec(seg: &str) -> (r: bool)
    ensures
        r == is_x_segment(seg@),
{
    let cs = chars_of(seg);
    if cs.len() == 1 && (cs[0] == 'x' || cs[0] == 'X') {
        assert(cs@ == seq![cs@[0]]);
        true
    } else {
        proof {
            if is_x_segment(cs@) {
                assert(cs@[0] == seq!['x'][0] || cs@[0] == seq!['X'][0]);
            }
        }
        false
    }
}

/// Writes the address that a pattern and the drawn values give.
pub fn expand_ip_pattern(ip_part: &str, fills: &[u16]) -> (r: String)
    requires
        fills@.len() == x_count(ip_segments(ip_part@)),
    ensures
        r@ == expand_ip_spec(ip_part@, fills@),
{
    let cs = chars_of(ip_part);
    let n = cs.len();
    let v6 = n > 0 && cs[0] == '[' && cs[n - 1] == ']';
    assert(v6 == is_bracketed(ip_part@));
    let sep = if v6 { ':' } else { '.' };
    let body = if v6 {
        slice_chars(cs.as_slice(), 1, n - 1)
    } else {
        slice_chars(cs.as_slice(), 0, n)
    };
    assert(cs@.subrange(0, n as int) == cs@);
    let body_str = string_from_chars(body.as_slice());
    let segs = split_str(body_str.as_str(), sep);
    let ghost sv = strings_view(segs@);
    assert(sv == ip_segments(ip_part@));
    let m = segs.len();
    let mut out: Vec<char> = Vec::new();
    let mut k: usize = 0;
    assert(sv.take(0) == Seq::<Seq<char>>::empty());
    assert(fills@.take(0) == Seq::<u16>::empty());
    for i in 0..m
        invariant
            m == segs@.len(),
            sv == strings_view(segs@),
            fills@.len() == x_count(sv),
            k == x_count(sv.take(i as int)),
            k <= fills@.len(),
            out@ == join_spec(fill_segments(sv.take(i as int), fills@.take(k as int), v6), sep),
    {
        let ghost prev = fill_segments(sv.take(i as int), fills@.take(k as int), v6);
        proof {
            lemma_fill_segments_len(sv.take(i as int), fills@.take(k as int), v6);
            assert(sv.take(i + 1).drop_last() == sv.take(i as int));
            assert(sv.take(i + 1).last() == segs@[i as int]@);
            lemma_x_count_prefix(sv, i + 1);
        }
        let mut piece: Vec<char> = Vec::new();
        if is_x_segment_exec(segs[i].as_str()) {
            assert(k < fills@.len());
            if v6 {
                push_lower_hex(&mut piece, fills[k] as u64);
            } else {
                push_decimal(&mut piece, fills[k] as u64);
            }
            assert(fills@.take(k + 1).drop_last() == fills@.take(k as int));
            assert(fills@.take(k + 1).last() == fills@[k as int]);
            k = k + 1;
        } else {
            piece = chars_of(segs[i].as_str());
        }
        let ghost next = fill_segments(sv.take(i + 1), fills@.take(k as int), v6);
        assert(next == prev.push(piece@));
        if i > 0 {
            out.push(sep);
        } else {
            assert(prev.len() == 0);
            assert(prev.push(piece@).len() == 1);
            assert(Seq::<char>::empty() + piece@ == piece@);
        }
        let mut p = piece;
        out.append(&mut p);
        assert(next.drop_last() == prev);
    }
    assert(sv.take(m as int) == sv);
    assert(fills@.take(k as int) == fills@);
    string_from_chars(out.as_slice())
}

// ---------------------------------------------------------------------------
// Endpoints: `address-pattern:port-range`
// ---------------------------------------------------------------------------

/// A generated endpoint: an address (not yet checked to be one) and a port.
pub struct Endpoint {
    pub ip: String,
    pub port: u16,
}

/// The text of the error for a pattern without `:`.
pub open spec fn missing_colon_message() -> Seq<char> {
    "Format Error: ':' NOT found"@
}

/// A pattern that can be expanded without failing: it has no `:` (which is
/// reported), or its port range reads and is not empty.
pub open spec fn endpoint_pattern_ok(pattern: Seq<char>) -> bool {
    match rsplit_once_spec(pattern, ':') {
        None => true,
        Some((_, port)) => match port_range_spec(port) {
            Some((a, b)) => a <= b,
            None => false,
        },
    }
}

/// Tells whether a pattern can be expanded without failing.
pub fn check_endpoint_pattern(pattern: &str) -> (r: bool)
    ensures
        r == endpoint_pattern_ok(pattern@),
{
    let cs = chars_of(pattern);
    match rsplit_once_chars(cs.as_slice(), ':') {
        None => true,
        Some((_, port)) => {
            let ps = string_from_chars(port.as_slice());
            match port_range(ps.as_str()) {
                Some((a, b)) => a <= b,
                None => false,
            }
        },
    }
}

/// Expands an endpoint pattern `address:ports`: the part after the last `:`
/// is a port range, from which a port is drawn; in the address, each segment
/// `x` is replaced by a drawn value (up to `ffff` in an IPv6 address in
/// brackets, up to 255 in an IPv4 one).
pub fn gen_endpoint(pattern: &str) -> (r: Result<Endpoint, String>)
    requires
        endpoint_pattern_ok(pattern@),
    ensures
        match r {
            Err(e) => rsplit_once_spec(pattern@, ':') is None && e@ == missing_colon_message(),
            Ok(ep) => match rsplit_once_spec(pattern@, ':') {
                None => false,
                Some((ip, port)) => {
                    &&& port_range_spec(port) matches Some((a, b)) && a <= ep.port <= b
                    &&& exists|fills: Seq<u16>|
                        {
                            &&& fills.len() == x_count(ip_segments(ip))
                            &&& fills_in_bounds(fills, is_bracketed(ip))
                            &&& ep.ip@ == expand_ip_spec(ip, fills)
                        }
                },
            },
        },
{
    let cs = chars_of(pattern);
    let (ip, port) = match rsplit_once_chars(cs.as_slice(), ':') {
        Some(p) => p,
        None => return Err("Format Error: ':' NOT found".to_string()),
    };
    let ip_str = string_from_chars(ip.as_slice());
    let port_str = string_from_chars(port.as_slice());
    let (pstart, pend) = match parse_range(port_str.as_str()) {
        Ok(p) => p,
        Err(_) => {
            assert(false);
            (0, 0)
        },
    };
    let final_port = random_u16_inclusive(pstart, pend);
    // Count the segments to fill, then draw one value for each.
    let n = ip.len();
    let v6 = n > 0 && ip[0] == '[' && ip[n - 1] == ']';
    assert(v6 == is_bracketed(ip@));
    let hi: u16 = if v6 { 0xffff } else { 255 };
    let wanted = count_x_segments(ip_str.as_str());
    let mut fills: Vec<u16> = Vec::new();
    for i in 0..wanted
        invariant
            fills@.len() == i,
            fills_in_bounds(fills@, v6),
            hi == (if v6 { 0xffffu16 } else { 255u16 }),
    {
        let v = random_u16_inclusive(0, hi);
        fills.push(v);
    }
    let generated = expand_ip_pattern(ip_str.as_str(), fills.as_slice());
    Ok(Endpoint { ip: generated, port: final_port })
}

/// The number of segments of an address pattern that stand for random values.
pub fn count_x_segments(ip_part: &str) -> (r: usize)
    ensures
        r == x_count(ip_segments(ip_part@)),
{
    let cs = chars_of(ip_part);
    let n = cs.len();
    let v6 = n > 0 && cs[0] == '[' && cs[n - 1] == ']';
    let sep = if v6 { ':' } else { '.' };
    let body = if v6 {
        slice_chars(cs.as_slice(), 1, n - 1)
    } else {
        slice_chars(cs.as_slice(), 0, n)
    };
    assert(cs@.subrange(0, n as int) == cs@);
    let body_str = string_from_chars(body.as_slice());
    let segs = split_str(body_str.as_str(), sep);
    let ghost sv = strings_view(segs@);
    let m = segs.len();
    let mut k: usize = 0;
    assert(sv.take(0) == Seq::<Seq<char>>::empty());
    for i in 0..m
        invariant
            m == segs@.len(),
            sv == strings_view(segs@),
            k == x_count(sv.take(i as int)),
            k <= i,
    {
        assert(sv.take(i + 1).drop_last() == sv.take(i as int));
        assert(sv.take(i + 1).last() == segs@[i as int]@);
        if is_x_segment_exec(segs[i].as_str()) {
            k = k + 1;
        }
    }
    assert(sv.take(m as int) == sv);
    k
}


/// A port range reads back every pair of ports written as their decimal
/// text: `"a-b"` reads as `(a, b)` and `"a"` as `(a, a)`, for all `u16`
/// values `a` and `b`.
pub proof fn port_range_reads_written_ports(a: u16, b: u16)
    ensures
        port_range_spec(decimal_spec(a as nat) + seq!['-'] + decimal_spec(b as nat)) == Some(
            (a as nat, b as nat),
        ),
        port_range_spec(decimal_spec(a as nat)) == Some((a as nat, a as nat)),
{
    let da = decimal_spec(a as nat);
    let db = decimal_spec(b as nat);
    crate::num::lemma_decimal_digits(a as nat);
    assert(!da.contains('-')) by {
        if da.contains('-') {
            let k = choose|k: int| 0 <= k < da.len() && da[k] == '-';
            assert(crate::num::is_digit(da[k]));
        }
    }
    crate::text::lemma_split_once_concat(da, '-', db);
    crate::text::lemma_split_once_absent(da, '-');
    crate::num::decimal_parse_roundtrip(a as nat, u16::MAX as nat);
    crate::num::decimal_parse_roundtrip(b as nat, u16::MAX as nat);
}

} // verus!
