use vstd::prelude::*;
use vstd::utf8::*;
use crate::num::{digit_char, digit_char_exec};

verus! {

// ---------------------------------------------------------------------------
// Encoding
// ---------------------------------------------------------------------------

/// The two lower-case hexadecimal characters of a byte, as `format!("{:02x}", b)`
/// writes them.
pub open spec fn byte_hex_spec(b: u8) -> Seq<char> {
    seq![digit_char((b / 16) as nat), digit_char((b % 16) as nat)]
}

/// The lower-case hexadecimal text of a byte sequence, two characters a byte.
pub open spec fn hex_encode_spec(bs: Seq<u8>) -> Seq<char>
    decreases bs.len(),
{
    if bs.len() == 0 {
        Seq::<char>::empty()
    } else {
        byte_hex_spec(bs[0]) + hex_encode_spec(bs.drop_first())
    }
}

/// Writes each byte as two lower-case hexadecimal digits.
pub fn hex_encode(bs: &[u8]) -> (r: String)
    ensures
        r@ == hex_encode_spec(bs@),
{
    let n = bs.len();
    let mut out: Vec<char> = Vec::new();
    assert(bs@.skip(0) == bs@);
    for i in 0..n
        invariant
            n == bs@.len(),
            out@ + hex_encode_spec(bs@.skip(i as int)) == hex_encode_spec(bs@),
    {
        let b = bs[i];
        assert(bs@.skip(i as int).drop_first() == bs@.skip(i + 1));
        let ghost before = out@;
        out.push(digit_char_exec((b / 16) as u64));
        out.push(digit_char_exec((b % 16) as u64));
        assert(out@ == before + byte_hex_spec(b));
        assert(before + byte_hex_spec(b) + hex_encode_spec(bs@.skip(i + 1)) == before + (
        byte_hex_spec(b) + hex_encode_spec(bs@.skip(i + 1))));
    }
    assert(bs@.skip(n as int) == Seq::<u8>::empty());
    assert(out@ + hex_encode_spec(bs@.skip(n as int)) == out@);
    crate::text::string_from_chars(out.as_slice())
}

// ---------------------------------------------------------------------------
// Decoding
// ---------------------------------------------------------------------------

/// The value of an ASCII hexadecimal digit (either case), as
/// `char::to_digit(16)` gives it.
pub open spec fn hex_digit_value(b: u8) -> Option<u8> {
    if 48 <= b <= 57 {
        Some((b - 48) as u8)
    } else if 97 <= b <= 102 {
        Some((b - 87) as u8)
    } else if 65 <= b <= 70 {
        Some((b - 55) as u8)
    } else {
        None
    }
}

/// What `u8::from_str_radix(chunk, 16)` gives for a chunk of one or two bytes
/// that passed `str::from_utf8`: one digit, two digits, or `+` and one digit.
/// A byte outside ASCII is never a digit, whether or not the chunk is valid
/// UTF-8, so the chunk fails in both cases.
pub open spec fn hex_chunk_spec(chunk: Seq<u8>) -> Option<u8> {
    if chunk.len() == 1 {
        hex_digit_value(chunk[0])
    } else if chunk.len() == 2 {
        if chunk[0] == 43 {
            hex_digit_value(chunk[1])
        } else {
            match (hex_digit_value(chunk[0]), hex_digit_value(chunk[1])) {
                (Some(h), Some(l)) => Some((h * 16 + l) as u8),
                _ => None,
            }
        }
    } else {
        None
    }
}

/// The bytes of the chunks of two (the last may be of one) that parse as
/// hexadecimal numbers; the other chunks are left out.
pub open spec fn hex_decode_spec(bs: Seq<u8>) -> Seq<u8>
    decreases bs.len(),
{
    if bs.len() == 0 {
        Seq::<u8>::empty()
    } else {
        let n: int = if bs.len() >= 2 {
            2
        } else {
            1
        };
        let head = match hex_chunk_spec(bs.take(n)) {
            Some(v) => seq![v],
            None => Seq::<u8>::empty(),
        };
        head + hex_decode_spec(bs.skip(n))
    }
}

fn hex_digit_value_exec(b: u8) -> (r: Option<u8>)
    ensures
        r == hex_digit_value(b),
{
    if 48 <= b && b <= 57 {
        Some(b - 48)
    } else if 97 <= b && b <= 102 {
        Some(b - 87)
    } else if 65 <= b && b <= 70 {
        Some(b - 55)
    } else {
        None
    }
}

fn hex_chunk(bs: &[u8], i: usize, n: usize) -> (r: Option<u8>)
    requires
        n == 1 || n == 2,
        i + n <= bs@.len(),
    ensures
        r == hex_chunk_spec(bs@.subrange(i as int, i + n)),
{
    let ghost chunk = bs@.subrange(i as int, i + n);
    assert(chunk[0] == bs@[i as int]);
    if n == 1 {
        hex_digit_value_exec(bs[i])
    } else {
        assert(chunk[1] == bs@[i + 1]);
        if bs[i] == 43 {
            hex_digit_value_exec(bs[i + 1])
        } else {
            match (hex_digit_value_exec(bs[i]), hex_digit_value_exec(bs[i + 1])) {
                (Some(h), Some(l)) => Some(h * 16 + l),
                _ => None,
            }
        }
    }
}

/// Reads a byte string two bytes at a time and keeps the value of each chunk
/// that is a hexadecimal number, skipping the others.
pub fn hex_decode_chunks(bs: &[u8]) -> (r: Vec<u8>)
    ensures
        r@ == hex_decode_spec(bs@),
{
    let len = bs.len();
    let mut out: Vec<u8> = Vec::new();
    let mut i: usize = 0;
    assert(bs@.skip(0) == bs@);
    while i < len
        invariant
            i <= len,
            len == bs@.len(),
            out@ + hex_decode_spec(bs@.skip(i as int)) == hex_decode_spec(bs@),
        decreases len - i,
    {
        let n: usize = if len - i >= 2 { 2 } else { 1 };
        let ghost rest = bs@.skip(i as int);
        assert(rest.take(n as int) == bs@.subrange(i as int, i + n));
        assert(rest.skip(n as int) == bs@.skip(i + n));
        let ghost before = out@;
        match hex_chunk(bs, i, n) {
            Some(v) => {
                out.push(v);
                assert(out@ == before + seq![v]);
            },
            None => {
                assert(out@ == before + Seq::<u8>::empty());
            },
        }
        i = i + n;
    }
    assert(bs@.skip(len as int) == Seq::<u8>::empty());
    assert(out@ + hex_decode_spec(bs@.skip(len as int)) == out@);
    out
}

// ---------------------------------------------------------------------------
// Round trip
// ---------------------------------------------------------------------------

/// The bytes of the hexadecimal text of a byte sequence.
pub open spec fn hex_bytes_spec(bs: Seq<u8>) -> Seq<u8>
    decreases bs.len(),
{
    if bs.len() == 0 {
        Seq::<u8>::empty()
    } else {
        seq![digit_byte((bs[0] / 16) as nat), digit_byte((bs[0] % 16) as nat)] + hex_bytes_spec(
            bs.drop_first(),
        )
    }
}

/// The ASCII code of a lower-case digit below sixteen.
pub open spec fn digit_byte(d: nat) -> u8 {
    if d < 10 {
        (48 + d) as u8
    } else {
        (87 + d) as u8
    }
}

proof fn lemma_digit_char_ascii(d: nat)
    requires
        d < 16,
    ensures
        '\0' <= digit_char(d) <= '\u{7f}',
        digit_char(d) as u8 == digit_byte(d),
        hex_digit_value(digit_byte(d)) == Some(d as u8),
        digit_byte(d) != 43,
{
}

proof fn lemma_hex_text_ascii(bs: Seq<u8>)
    ensures
        hex_encode_spec(bs).len() == hex_bytes_spec(bs).len(),
        is_ascii_chars(hex_encode_spec(bs)),
        forall|i: int|
            0 <= i < hex_encode_spec(bs).len() ==> #[trigger] hex_encode_spec(bs)[i] as u8
                == hex_bytes_spec(bs)[i],
    decreases bs.len(),
{
    if bs.len() > 0 {
        lemma_hex_text_ascii(bs.drop_first());
        let b = bs[0];
        lemma_digit_char_ascii((b / 16) as nat);
        lemma_digit_char_ascii((b % 16) as nat);
        let t = hex_encode_spec(bs);
        let r = hex_encode_spec(bs.drop_first());
        let u = hex_bytes_spec(bs);
        let v = hex_bytes_spec(bs.drop_first());
        assert forall|i: int| 0 <= i < t.len() implies '\0' <= #[trigger] t[i] <= '\u{7f}' by {
            if i >= 2 {
                assert(t[i] == r[i - 2]);
            }
        }
        assert forall|i: int| 0 <= i < t.len() implies #[trigger] t[i] as u8 == u[i] by {
            if i >= 2 {
                assert(t[i] == r[i - 2]);
                assert(u[i] == v[i - 2]);
            }
        }
    }
}

proof fn lemma_hex_bytes_decode(bs: Seq<u8>)
    ensures
        hex_decode_spec(hex_bytes_spec(bs)) == bs,
    decreases bs.len(),
{
    if bs.len() > 0 {
        lemma_hex_bytes_decode(bs.drop_first());
        let b = bs[0];
        let hi = (b / 16) as nat;
        let lo = (b % 16) as nat;
        lemma_digit_char_ascii(hi);
        lemma_digit_char_ascii(lo);
        let h = hex_bytes_spec(bs);
        let head = seq![digit_byte(hi), digit_byte(lo)];
        assert(h.take(2) == head);
        assert(h.skip(2) == hex_bytes_spec(bs.drop_first()));
        assert(hex_chunk_spec(head) == Some(b));
        assert(seq![b] + bs.drop_first() == bs);
    }
}

/// Decoding the bytes of the hexadecimal text of a byte sequence, chunk by
/// chunk, gives back the byte sequence.
pub proof fn hex_roundtrip(bs: Seq<u8>)
    ensures
        hex_decode_spec(encode_utf8(hex_encode_spec(bs))) == bs,
{
    let t = hex_encode_spec(bs);
    lemma_hex_text_ascii(bs);
    is_ascii_chars_encode_utf8(t);
    assert(encode_utf8(t) == hex_bytes_spec(bs));
    lemma_hex_bytes_decode(bs);
}


/// The ASCII code of an upper-case digit below sixteen, as `{:X}` writes it.
pub open spec fn upper_digit_byte(d: nat) -> u8 {
    if d < 10 {
        (48 + d) as u8
    } else {
        (55 + d) as u8
    }
}

/// Every hexadecimal digit reads as its value, written in lower or upper case.
pub proof fn hex_digits_read_in_both_cases(d: nat)
    requires
        d < 16,
    ensures
        hex_digit_value(digit_byte(d)) == Some(d as u8),
        hex_digit_value(upper_digit_byte(d)) == Some(d as u8),
{
}

/// A letter reads as the same digit (or as none) in either case.
pub proof fn hex_digits_ignore_case(b: u8)
    requires
        65 <= b <= 90,
    ensures
        hex_digit_value(b) == hex_digit_value((b + 32) as u8),
{
}

/// The upper-case hexadecimal text of a byte, as one chunk, reads back as
/// the byte.
pub proof fn hex_chunk_reads_upper_case(b: u8)
    ensures
        hex_chunk_spec(seq![upper_digit_byte((b / 16) as nat), upper_digit_byte((b % 16) as nat)])
            == Some(b),
{
    let c = seq![upper_digit_byte((b / 16) as nat), upper_digit_byte((b % 16) as nat)];
    assert(c[0] != 43);
}

} // verus!
