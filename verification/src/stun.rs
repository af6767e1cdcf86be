use vstd::prelude::*;
use crate::num::{decimal_spec, push_decimal, u64_to_decimal};
use crate::rng::random_index;
use crate::text::{chars_of, split_on, split_str, string_from_chars, strings_view, trim_spec, trim_str};

verus! {

/// What a STUN exchange tells about a socket: the server asked, and the local
/// and the mapped (public) address, each whole and in its parts.
pub struct StunInfo {
    pub stunstr: String,
    pub localstr: String,
    pub localip: String,
    pub localport: String,
    pub mappedstr: String,
    pub mappedip: String,
    pub mappedport: String,
}

// ---------------------------------------------------------------------------
// The list of STUN servers
// ---------------------------------------------------------------------------

/// The trimmed pieces that are not empty once trimmed, in order.
pub open spec fn trimmed_nonempty(parts: Seq<Seq<char>>) -> Seq<Seq<char>>
    decreases parts.len(),
{
    if parts.len() == 0 {
        Seq::<Seq<char>>::empty()
    } else {
        let prev = trimmed_nonempty(parts.drop_last());
        let t = trim_spec(parts.last());
        if t.len() > 0 {
            prev.push(t)
        } else {
            prev
        }
    }
}

/// The servers of a comma-separated list: each item trimmed, empty items
/// left out.
pub open spec fn stun_servers_spec(stunstr: Seq<char>) -> Seq<Seq<char>> {
    trimmed_nonempty(split_on(stunstr, ','))
}

/// The servers of a comma-separated list.
pub fn stun_servers(stunstr: &str) -> (r: Vec<String>)
    ensures
        strings_view(r@) == stun_servers_spec(stunstr@),
{
    let parts = split_str(stunstr, ',');
    let n = parts.len();
    let mut r: Vec<String> = Vec::new();
    assert(strings_view(parts@).take(0) == Seq::<Seq<char>>::empty());
    for i in 0..n
        invariant
            n == parts@.len(),
            strings_view(r@) == trimmed_nonempty(strings_view(parts@).take(i as int)),
    {
        let ghost ps = strings_view(parts@);
        assert(ps.take(i + 1).drop_last() == ps.take(i as int));
        assert(ps.take(i + 1).last() == parts@[i as int]@);
        let t = trim_str(parts[i].as_str());
        let tc = chars_of(t.as_str());
        let ghost before = strings_view(r@);
        if tc.len() > 0 {
            r.push(t);
            assert(strings_view(r@) == before.push(t@));
        }
    }
    assert(strings_view(parts@).take(n as int) == strings_view(parts@));
    r
}

/// Picks one server of the list at random; none when the list has none.
pub fn pick_stun_server(stunstr: &str) -> (r: Option<String>)
    ensures
        r is None <==> stun_servers_spec(stunstr@).len() == 0,
        r matches Some(s) ==> stun_servers_spec(stunstr@).contains(s@),
{
    let servers = stun_servers(stunstr);
    match random_index(servers.len()) {
        Some(i) => {
            let s = servers[i].clone();
            assert(strings_view(servers@)[i as int] == s@);
            Some(s)
        },
        None => None,
    }
}

// ---------------------------------------------------------------------------
// Describing a socket
// ---------------------------------------------------------------------------

/// `ip:port`, or `[ip]:port` for an IPv6 address.
pub open spec fn host_port_spec(ip: Seq<char>, port: nat, ipv6: bool) -> Seq<char> {
    if ipv6 {
        seq!['['] + ip + seq![']', ':'] + decimal_spec(port)
    } else {
        ip + seq![':'] + decimal_spec(port)
    }
}

fn host_port(ip: &str, port: u16, ipv6: bool) -> (r: String)
    ensures
        r@ == host_port_spec(ip@, port as nat, ipv6),
{
    let mut out: Vec<char> = Vec::new();
    if ipv6 {
        out.push('[');
    }
    let mut ipc = chars_of(ip);
    out.append(&mut ipc);
    if ipv6 {
        out.push(']');
    }
    out.push(':');
    push_decimal(&mut out, port as u64);
    string_from_chars(out.as_slice())
}

/// Describes a socket from the addresses a STUN exchange found: the local
/// and the mapped address are written in IPv6 form (in brackets) when the
/// mapped address is IPv6.
pub fn stun_info(
    stunstr: &str,
    local_ip: &str,
    local_port: u16,
    mapped_ip: &str,
    mapped_port: u16,
    ipv6: bool,
) -> (r: StunInfo)
    ensures
        r.stunstr@ == stunstr@,
        r.localip@ == local_ip@,
        r.localport@ == decimal_spec(local_port as nat),
        r.localstr@ == host_port_spec(local_ip@, local_port as nat, ipv6),
        r.mappedip@ == mapped_ip@,
        r.mappedport@ == decimal_spec(mapped_port as nat),
        r.mappedstr@ == host_port_spec(mapped_ip@, mapped_port as nat, ipv6),
{
    let s = chars_of(stunstr);
    let li = chars_of(local_ip);
    let mi = chars_of(mapped_ip);
    StunInfo {
        stunstr: string_from_chars(s.as_slice()),
        localstr: host_port(local_ip, local_port, ipv6),
        localip: string_from_chars(li.as_slice()),
        localport: u64_to_decimal(local_port as u64),
        mappedstr: host_port(mapped_ip, mapped_port, ipv6),
        mappedip: string_from_chars(mi.as_slice()),
        mappedport: u64_to_decimal(mapped_port as u64),
    }
}

// ---------------------------------------------------------------------------
// What the crude STUN server does with what it found
// ---------------------------------------------------------------------------

/// What the crude STUN server does once it has described the asking socket.
pub enum StunReply {
    /// Send this text back to the asker.
    SendText(String),
    /// Send the description as JSON back to the asker.
    SendJson,
    /// Print this text.
    PrintText(String),
    /// Print the description as JSON.
    PrintJson,
}

/// `mapped-localport`: the mapped address, `-`, and the server's local port.
pub open spec fn mapped_reply_spec(info: StunInfo) -> Seq<char> {
    info.mappedstr@ + seq!['-'] + info.localport@
}

/// The reply for a format number: 0 sends `mapped-localport` back, 1 sends the
/// JSON description, 2 prints the mapped address, 3 prints the JSON
/// description, and any other number prints `mapped-localport`.
pub fn stun_reply(resfmt: u8, info: &StunInfo) -> (r: StunReply)
    ensures
        resfmt == 0 ==> (r matches StunReply::SendText(t) && t@ == mapped_reply_spec(*info)),
        resfmt == 1 ==> r is SendJson,
        resfmt == 2 ==> (r matches StunReply::PrintText(t) && t@ == info.mappedstr@),
        resfmt == 3 ==> r is PrintJson,
        resfmt > 3 ==> (r matches StunReply::PrintText(t) && t@ == mapped_reply_spec(*info)),
{
    let mut text = chars_of(info.mappedstr.as_str());
    text.push('-');
    let mut port = chars_of(info.localport.as_str());
    text.append(&mut port);
    let reply = string_from_chars(text.as_slice());
    match resfmt {
        0 => StunReply::SendText(reply),
        1 => StunReply::SendJson,
        2 => StunReply::PrintText(info.mappedstr.clone()),
        3 => StunReply::PrintJson,
        _ => StunReply::PrintText(reply),
    }
}


proof fn lemma_trimmed_nonempty_concat(p: Seq<Seq<char>>, q: Seq<Seq<char>>)
    ensures
        trimmed_nonempty(p + q) == trimmed_nonempty(p) + trimmed_nonempty(q),
    decreases q.len(),
{
    if q.len() == 0 {
        assert(p + q == p);
        assert(trimmed_nonempty(p) + Seq::<Seq<char>>::empty() == trimmed_nonempty(p));
    } else {
        lemma_trimmed_nonempty_concat(p, q.drop_last());
        assert((p + q).drop_last() == p + q.drop_last());
        assert((p + q).last() == q.last());
        let t = trim_spec(q.last());
        let a = trimmed_nonempty(p);
        let b = trimmed_nonempty(q.drop_last());
        assert((a + b).push(t) == a + b.push(t));
    }
}

/// A list without `,` holds one item: its servers are that item trimmed,
/// unless it is empty once trimmed.
pub proof fn stun_servers_of_one_item(t: Seq<char>)
    requires
        !t.contains(','),
    ensures
        stun_servers_spec(t) == if trim_spec(t).len() > 0 {
            seq![trim_spec(t)]
        } else {
            Seq::<Seq<char>>::empty()
        },
{
    crate::text::lemma_split_on_no_sep(t, ',');
    let one = seq![t];
    assert(one.drop_last() == Seq::<Seq<char>>::empty());
    assert(one.last() == t);
    assert(trimmed_nonempty(Seq::<Seq<char>>::empty()) == Seq::<Seq<char>>::empty());
    assert(trimmed_nonempty(one) == if trim_spec(t).len() > 0 {
        trimmed_nonempty(one.drop_last()).push(trim_spec(t))
    } else {
        trimmed_nonempty(one.drop_last())
    });
    assert(Seq::<Seq<char>>::empty().push(trim_spec(t)) == seq![trim_spec(t)]);
}

/// The servers of two lists joined by `,` are the servers of the first
/// followed by the servers of the second: no item is lost or moved.
pub proof fn stun_servers_of_joined_lists(a: Seq<char>, b: Seq<char>)
    ensures
        stun_servers_spec(a + seq![','] + b) == stun_servers_spec(a) + stun_servers_spec(b),
{
    crate::text::lemma_split_on_concat(a, ',', b);
    lemma_trimmed_nonempty_concat(split_on(a, ','), split_on(b, ','));
}

} // verus!
