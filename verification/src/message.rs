use vstd::prelude::*;
use crate::num::{decimal_spec, is_digit, lemma_decimal_digits, push_decimal};
use crate::text::{
    chars_of, is_white_space, lemma_ws_scan_space, lemma_ws_scan_word, no_white_space, split_whitespace_spec,
    string_from_chars, ws_scan,
};

verus! {

/// The signal that peers exchange: the event, the stream id, the server
/// address, the local address and the NAT type, separated by single spaces,
/// as `format!("{} {} {} {} {}", ..)` writes them.
pub open spec fn signal_message_spec(
    event: Seq<char>,
    streamid: nat,
    srvstr: Seq<char>,
    localstr: Seq<char>,
    nattype: nat,
) -> Seq<char> {
    event + seq![' '] + decimal_spec(streamid) + seq![' '] + srvstr + seq![' '] + localstr + seq![' ']
        + decimal_spec(nattype)
}

/// Writes the signal message.
pub fn signal_message(event: &str, streamid: u64, srvstr: &str, localstr: &str, nattype: u8) -> (r:
    String)
    ensures
        r@ == signal_message_spec(event@, streamid as nat, srvstr@, localstr@, nattype as nat),
{
    let mut out: Vec<char> = chars_of(event);
    out.push(' ');
    push_decimal(&mut out, streamid);
    out.push(' ');
    let mut s = chars_of(srvstr);
    out.append(&mut s);
    out.push(' ');
    let mut l = chars_of(localstr);
    out.append(&mut l);
    out.push(' ');
    push_decimal(&mut out, nattype as u64);
    string_from_chars(out.as_slice())
}

proof fn lemma_decimal_no_white_space(n: nat)
    ensures
        no_white_space(decimal_spec(n)),
        decimal_spec(n).len() > 0,
{
    lemma_decimal_digits(n);
    let d = decimal_spec(n);
    assert forall|i: int| 0 <= i < d.len() implies !is_white_space(#[trigger] d[i]) by {
        assert(is_digit(d[i]));
    }
}

/// The words of a signal whose event, server and local addresses are
/// non-empty and hold no whitespace are its five fields: the event, the
/// stream id, the server address, the local address and the NAT type. These
/// are the arguments a receiver hands to its command.
pub proof fn signal_words(
    event: Seq<char>,
    streamid: nat,
    srvstr: Seq<char>,
    localstr: Seq<char>,
    nattype: nat,
)
    requires
        event.len() > 0,
        srvstr.len() > 0,
        localstr.len() > 0,
        no_white_space(event),
        no_white_space(srvstr),
        no_white_space(localstr),
    ensures
        split_whitespace_spec(signal_message_spec(event, streamid, srvstr, localstr, nattype)) == seq![
            event,
            decimal_spec(streamid),
            srvstr,
            localstr,
            decimal_spec(nattype),
        ],
{
    let sp = seq![' '];
    let d1 = decimal_spec(streamid);
    let d2 = decimal_spec(nattype);
    lemma_decimal_no_white_space(streamid);
    lemma_decimal_no_white_space(nattype);
    let e = Seq::<char>::empty();
    let p0 = e + event;
    assert(p0 == event);
    assert(ws_scan(e) == (Seq::<Seq<char>>::empty(), Seq::<char>::empty()));
    lemma_ws_scan_word(e, event);
    assert(ws_scan(e).1 + event == event);
    lemma_ws_scan_space(p0);
    let p1 = p0 + sp;
    lemma_ws_scan_word(p1, d1);
    assert(ws_scan(p1).1 + d1 == d1);
    let p2 = p1 + d1;
    lemma_ws_scan_space(p2);
    let p3 = p2 + sp;
    lemma_ws_scan_word(p3, srvstr);
    assert(ws_scan(p3).1 + srvstr == srvstr);
    let p4 = p3 + srvstr;
    lemma_ws_scan_space(p4);
    let p5 = p4 + sp;
    lemma_ws_scan_word(p5, localstr);
    assert(ws_scan(p5).1 + localstr == localstr);
    let p6 = p5 + localstr;
    lemma_ws_scan_space(p6);
    let p7 = p6 + sp;
    lemma_ws_scan_word(p7, d2);
    assert(ws_scan(p7).1 + d2 == d2);
    let p8 = p7 + d2;
    assert(p8 == signal_message_spec(event, streamid, srvstr, localstr, nattype));
    assert(ws_scan(p8) == (seq![event, d1, srvstr, localstr], d2));
}

} // verus!
