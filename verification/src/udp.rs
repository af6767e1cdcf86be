use vstd::prelude::*;
use vstd::utf8::encode_utf8;
use crate::hex::{hex_decode_chunks, hex_decode_spec};
use crate::rng::{is_ascii_alphanumeric, random_token};
use crate::text::chars_of;

verus! {

/// The bytes of a test datagram: the chunk-by-chunk hexadecimal reading of
/// the given text, or, when the text is empty, 64 random letters and digits.
pub fn udp_packet_data(hex_input: &str) -> (r: Vec<u8>)
    ensures
        hex_input@.len() == 0 ==> r@.len() == 64 && forall|i: int|
            0 <= i < 64 ==> is_ascii_alphanumeric(#[trigger] r@[i]),
        hex_input@.len() > 0 ==> r@ == hex_decode_spec(encode_utf8(hex_input@)),
{
    if hex_input.is_empty() {
        random_token(64)
    } else {
        hex_decode_chunks(hex_input.as_bytes())
    }
}

/// How many times `c` occurs in `s`.
pub open spec fn count_char(s: Seq<char>, c: char) -> nat
    decreases s.len(),
{
    if s.len() == 0 {
        0
    } else {
        count_char(s.drop_last(), c) + if s.last() == c {
            1nat
        } else {
            0nat
        }
    }
}

/// The local address to send from: the IPv6 wildcard when the target holds
/// two `:` or more (an IPv6 address), else the IPv4 wildcard.
pub fn udp_bind_addr(target: &str) -> (r: &'static str)
    ensures
        count_char(target@, ':') >= 2 ==> r@ == "[::]:0"@,
        count_char(target@, ':') < 2 ==> r@ == "0.0.0.0:0"@,
{
    let cs = chars_of(target);
    let n = cs.len();
    let mut count: usize = 0;
    assert(cs@.take(0) == Seq::<char>::empty());
    for i in 0..n
        invariant
            n == cs@.len(),
            count == count_char(cs@.take(i as int), ':'),
            count <= i,
    {
        assert(cs@.take(i + 1).drop_last() == cs@.take(i as int));
        assert(cs@.take(i + 1).last() == cs@[i as int]);
        if cs[i] == ':' {
            count = count + 1;
        }
    }
    assert(cs@.take(n as int) == cs@);
    if count >= 2 {
        "[::]:0"
    } else {
        "0.0.0.0:0"
    }
}


/// Counting is additive: the count in `a + b` is the count in `a` plus the
/// count in `b`.
pub proof fn count_char_concat(a: Seq<char>, b: Seq<char>, c: char)
    ensures
        count_char(a + b, c) == count_char(a, c) + count_char(b, c),
    decreases b.len(),
{
    if b.len() == 0 {
        assert(a + b == a);
    } else {
        count_char_concat(a, b.drop_last(), c);
        assert((a + b).drop_last() == a + b.drop_last());
        assert((a + b).last() == b.last());
    }
}

/// A single character counts once when it is `c`, else not at all.
pub proof fn count_char_single(x: char, c: char)
    ensures
        count_char(seq![x], c) == if x == c {
            1nat
        } else {
            0nat
        },
{
    assert(seq![x].drop_last() == Seq::<char>::empty());
    assert(seq![x].last() == x);
    assert(count_char(Seq::<char>::empty(), c) == 0);
    assert(count_char(seq![x], c) == count_char(seq![x].drop_last(), c) + if x == c {
        1nat
    } else {
        0nat
    });
}

/// Every `:` counts, wherever it stands: a target of the form
/// `a:b:c` holds at least two, so the IPv6 wildcard is chosen for it.
pub proof fn count_two_colons(a: Seq<char>, b: Seq<char>, c: Seq<char>)
    ensures
        count_char(a + seq![':'] + b + seq![':'] + c, ':') >= 2,
{
    count_char_concat(a + seq![':'] + b + seq![':'], c, ':');
    count_char_concat(a + seq![':'] + b, seq![':'], ':');
    count_char_concat(a + seq![':'], b, ':');
    count_char_concat(a, seq![':'], ':');
    count_char_single(':', ':');
}

} // verus!
