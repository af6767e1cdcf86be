use vstd::prelude::*;

verus! {

// ---------------------------------------------------------------------------
// Digits
// ---------------------------------------------------------------------------

/// An ASCII decimal digit.
pub open spec fn is_digit(c: char) -> bool {
    '0' <= c && c <= '9'
}

/// The value of an ASCII decimal digit.
pub open spec fn digit_value(c: char) -> nat {
    (c as int - '0' as int) as nat
}

/// The lower-case character of a digit below sixteen.
pub open spec fn digit_char(d: nat) -> char {
    if d < 10 {
        ((48 + d) as u8) as char
    } else {
        ((87 + d) as u8) as char
    }
}

/// The lower-case character of a digit below sixteen.
pub fn digit_char_exec(d: u64) -> (c: char)
    requires
        d < 16,
    ensures
        c == digit_char(d as nat),
{
    if d < 10 {
        ((48 + d) as u8) as char
    } else {
        ((87 + d) as u8) as char
    }
}

// ---------------------------------------------------------------------------
// Formatting
// ---------------------------------------------------------------------------

/// The decimal text of `n`, as `format!("{}", n)` writes it: no sign, no
/// leading zero but for zero itself.
pub open spec fn decimal_spec(n: nat) -> Seq<char>
    decreases n,
{
    if n < 10 {
        seq![digit_char(n)]
    } else {
        decimal_spec(n / 10).push(digit_char(n % 10))
    }
}

/// The lower-case hexadecimal text of `n`, as `format!("{:x}", n)` writes it.
pub open spec fn lower_hex_spec(n: nat) -> Seq<char>
    decreases n,
{
    if n < 16 {
        seq![digit_char(n)]
    } else {
        lower_hex_spec(n / 16).push(digit_char(n % 16))
    }
}

/// Appends the decimal text of `n`.
pub fn push_decimal(out: &mut Vec<char>, n: u64)
    ensures
        final(out)@ == old(out)@ + decimal_spec(n as nat),
    decreases n,
{
    if n >= 10 {
        push_decimal(out, n / 10);
    }
    out.push(digit_char_exec(n % 10));
}

/// Appends the lower-case hexadecimal text of `n`.
pub fn push_lower_hex(out: &mut Vec<char>, n: u64)
    ensures
        final(out)@ == old(out)@ + lower_hex_spec(n as nat),
    decreases n,
{
    if n >= 16 {
        push_lower_hex(out, n / 16);
    }
    out.push(digit_char_exec(n % 16));
}

/// The decimal text of `n`.
pub fn decimal_chars(n: u64) -> (r: Vec<char>)
    ensures
        r@ == decimal_spec(n as nat),
{
    let mut r: Vec<char> = Vec::new();
    push_decimal(&mut r, n);
    assert(r@ == decimal_spec(n as nat));
    r
}

/// A digit below ten is written as the decimal digit of that value.
pub proof fn lemma_digit_char(d: nat)
    requires
        d < 10,
    ensures
        is_digit(digit_char(d)),
        digit_value(digit_char(d)) == d,
{
    let c = ((48 + d) as u8) as char;
    assert(c as int == 48 + d);
}

pub proof fn lemma_decimal_digits(n: nat)
    ensures
        decimal_spec(n).len() >= 1,
        forall|i: int| 0 <= i < decimal_spec(n).len() ==> is_digit(#[trigger] decimal_spec(n)[i]),
        digits_value(decimal_spec(n)) == n,
    decreases n,
{
    lemma_digit_char(n % 10);
    if n >= 10 {
        lemma_decimal_digits(n / 10);
        let p = decimal_spec(n / 10);
        let s = p.push(digit_char(n % 10));
        assert(s.drop_last() == p);
        assert(s.last() == digit_char(n % 10));
        assert(n == (n / 10) * 10 + n % 10) by (nonlinear_arith);
        assert(digits_value(s) == digits_value(p) * 10 + digit_value(s.last()));
        assert forall|i: int| 0 <= i < s.len() implies is_digit(#[trigger] s[i]) by {
            if i < p.len() {
                assert(s[i] == p[i]);
            }
        }
    } else {
        let s = decimal_spec(n);
        assert(s.drop_last() == Seq::<char>::empty());
        assert(digits_value(Seq::<char>::empty()) == 0);
        assert(digits_value(s) == digits_value(s.drop_last()) * 10 + digit_value(s.last()));
    }
}

// ---------------------------------------------------------------------------
// Parsing
// ---------------------------------------------------------------------------

/// The value of a run of decimal digits.
pub open spec fn digits_value(s: Seq<char>) -> nat
    decreases s.len(),
{
    if s.len() == 0 {
        0
    } else {
        digits_value(s.drop_last()) * 10 + digit_value(s.last())
    }
}

/// Why a text is not an unsigned integer, as `std::num::IntErrorKind` says.
#[derive(Debug, Clone, Copy, PartialEq, Eq, Structural)]
pub enum IntErrorKind {
    /// The text is empty.
    Empty,
    /// A character is not a digit.
    InvalidDigit,
    /// The value exceeds the type's maximum.
    PosOverflow,
}

/// Reading digits left to right: the first non-digit, or the first digit at
/// which the value exceeds `max`, ends the reading with an error.
pub open spec fn scan_digits(s: Seq<char>, max: nat) -> Result<nat, IntErrorKind>
    decreases s.len(),
{
    if s.len() == 0 {
        Ok(0)
    } else {
        match scan_digits(s.drop_last(), max) {
            Err(e) => Err(e),
            Ok(v) => if !is_digit(s.last()) {
                Err(IntErrorKind::InvalidDigit)
            } else if v * 10 + digit_value(s.last()) > max {
                Err(IntErrorKind::PosOverflow)
            } else {
                Ok(v * 10 + digit_value(s.last()))
            },
        }
    }
}

/// What `str::parse` gives for an unsigned integer type whose maximum is
/// `max`: an optional leading `+`, then one or more decimal digits whose value
/// does not exceed `max`.
pub open spec fn parse_uint_spec(s: Seq<char>, max: nat) -> Result<nat, IntErrorKind> {
    if s.len() == 0 {
        Err(IntErrorKind::Empty)
    } else {
        let body = if s[0] == '+' {
            s.drop_first()
        } else {
            s
        };
        if body.len() == 0 {
            Err(IntErrorKind::InvalidDigit)
        } else {
            scan_digits(body, max)
        }
    }
}

/// All characters are decimal digits.
pub open spec fn all_digits(s: Seq<char>) -> bool {
    forall|i: int| 0 <= i < s.len() ==> is_digit(#[trigger] s[i])
}

/// A run of digits only grows in value when a digit is added.
pub proof fn lemma_scan_digits_ok(s: Seq<char>, max: nat)
    ensures
        scan_digits(s, max) is Ok <==> (all_digits(s) && digits_value(s) <= max),
        scan_digits(s, max) is Ok ==> scan_digits(s, max) == Ok::<nat, IntErrorKind>(
            digits_value(s),
        ),
    decreases s.len(),
{
    if s.len() > 0 {
        let p = s.drop_last();
        lemma_scan_digits_ok(p, max);
        assert(all_digits(s) ==> all_digits(p)) by {
            if all_digits(s) {
                assert forall|i: int| 0 <= i < p.len() implies is_digit(#[trigger] p[i]) by {
                    assert(p[i] == s[i]);
                }
            }
        }
        assert(s.last() == s[s.len() - 1]);
        if all_digits(p) && digits_value(p) <= max && is_digit(s.last()) {
            assert forall|i: int| 0 <= i < s.len() implies is_digit(#[trigger] s[i]) by {
                if i < p.len() {
                    assert(p[i] == s[i]);
                }
            }
        }
        if all_digits(s) && digits_value(s) <= max {
            assert(digits_value(p) <= digits_value(s));
        }
    }
}

/// Once reading a prefix fails, reading the whole fails the same way.
pub proof fn lemma_scan_digits_err_extends(s: Seq<char>, k: int, max: nat)
    requires
        0 <= k <= s.len(),
        scan_digits(s.take(k), max) is Err,
    ensures
        scan_digits(s, max) == scan_digits(s.take(k), max),
    decreases s.len() - k,
{
    if k < s.len() {
        assert(s.take(k + 1).drop_last() == s.take(k));
        lemma_scan_digits_err_extends(s, k + 1, max);
    } else {
        assert(s.take(k) == s);
    }
}

/// Parses an unsigned integer of at most `max`, as `str::parse` does for
/// the unsigned type with that maximum.
pub fn parse_uint_chars(s: &[char], max: u64) -> (r: Result<u64, IntErrorKind>)
    ensures
        match r {
            Ok(v) => parse_uint_spec(s@, max as nat) == Ok::<nat, IntErrorKind>(v as nat),
            Err(e) => parse_uint_spec(s@, max as nat) == Err::<nat, IntErrorKind>(e),
        },
{
    let n = s.len();
    if n == 0 {
        return Err(IntErrorKind::Empty);
    }
    let start: usize = if s[0] == '+' { 1 } else { 0 };
    let ghost body = if s@[0] == '+' { s@.drop_first() } else { s@ };
    assert(body == s@.skip(start as int));
    if start == n {
        return Err(IntErrorKind::InvalidDigit);
    }
    let mut v: u64 = 0;
    let mut i: usize = start;
    assert(body.take(0) == Seq::<char>::empty());
    while i < n
        invariant
            start <= i <= n,
            n == s@.len(),
            body == s@.skip(start as int),
            v <= max,
            parse_uint_spec(s@, max as nat) == scan_digits(body, max as nat),
            scan_digits(body.take(i - start), max as nat) == Ok::<nat, IntErrorKind>(v as nat),
        decreases n - i,
    {
        let c = s[i];
        proof {
            let k = i - start;
            assert(body.take(k + 1).drop_last() == body.take(k));
            assert(body.take(k + 1).last() == c);
        }
        if !('0' <= c && c <= '9') {
            proof {
                lemma_scan_digits_err_extends(body, i - start + 1, max as nat);
            }
            return Err(IntErrorKind::InvalidDigit);
        }
        let d = (c as u32 - '0' as u32) as u64;
        assert(d as nat == digit_value(c));
        let next: u128 = v as u128 * 10 + d as u128;
        if next > max as u128 {
            proof {
                lemma_scan_digits_err_extends(body, i - start + 1, max as nat);
            }
            return Err(IntErrorKind::PosOverflow);
        }
        v = next as u64;
        i = i + 1;
    }
    assert(body.take(n - start) == body);
    Ok(v)
}

/// Parses a `u64` from a string slice, as `str::parse::<u64>` does.
pub fn parse_u64_str(s: &str) -> (r: Result<u64, IntErrorKind>)
    ensures
        match r {
            Ok(v) => parse_uint_spec(s@, u64::MAX as nat) == Ok::<nat, IntErrorKind>(v as nat),
            Err(e) => parse_uint_spec(s@, u64::MAX as nat) == Err::<nat, IntErrorKind>(e),
        },
{
    let cs = crate::text::chars_of(s);
    parse_uint_chars(cs.as_slice(), u64::MAX)
}

/// Parses a `u16` from a string slice, as `str::parse::<u16>` does.
pub fn parse_u16_str(s: &str) -> (r: Result<u16, IntErrorKind>)
    ensures
        match r {
            Ok(v) => parse_uint_spec(s@, u16::MAX as nat) == Ok::<nat, IntErrorKind>(v as nat),
            Err(e) => parse_uint_spec(s@, u16::MAX as nat) == Err::<nat, IntErrorKind>(e),
        },
{
    let cs = crate::text::chars_of(s);
    match parse_uint_chars(cs.as_slice(), 65535) {
        Ok(v) => Ok(v as u16),
        Err(e) => Err(e),
    }
}

/// The decimal text of `n`, as a `String`.
pub fn u64_to_decimal(n: u64) -> (r: String)
    ensures
        r@ == decimal_spec(n as nat),
{
    let cs = decimal_chars(n);
    crate::text::string_from_chars(cs.as_slice())
}

/// Parsing gives back what formatting wrote: for every `n` up to `max`,
/// reading the decimal text of `n` as an unsigned integer of maximum `max`
/// yields `n`.
pub proof fn decimal_parse_roundtrip(n: nat, max: nat)
    requires
        n <= max,
    ensures
        parse_uint_spec(decimal_spec(n), max) == Ok::<nat, IntErrorKind>(n),
{
    lemma_decimal_digits(n);
    let s = decimal_spec(n);
    assert(is_digit(s[0]));
    lemma_scan_digits_ok(s, max);
}

} // verus!
