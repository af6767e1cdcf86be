use vstd::prelude::*;
use vstd::utf8::*;
use crate::crypto::{aead_fits, aead_opens, sha256, sha256_spec, xchacha20poly1305_open, xchacha20poly1305_seal, xchacha_open, xchacha_seal, utf8_decode};
use crate::hex::{hex_decode_spec, hex_encode, hex_encode_spec, hex_roundtrip};
use crate::num::{decimal_parse_roundtrip, decimal_spec, lemma_decimal_digits, parse_uint_chars, parse_uint_spec, push_decimal};
use crate::rng::random_nonce;
use crate::text::{
    chars_of, lemma_split_once_concat, split_once_chars, split_once_spec, split_whitespace_spec,
    split_whitespace_str, string_from_chars, strings_view,
};

verus! {

broadcast use {encode_utf8_valid_utf8, encode_utf8_decode_utf8};

/// How far apart two instants are, in seconds.
pub open spec fn abs_diff(a: nat, b: nat) -> nat {
    if a >= b {
        (a - b) as nat
    } else {
        (b - a) as nat
    }
}

/// The text that is sealed: the sending time in seconds, `|`, and the signal.
pub open spec fn announcement_text(now: nat, message: Seq<char>) -> Seq<char> {
    decimal_spec(now) + seq!['|'] + message
}

/// The cipher key: the SHA-256 digest of the UTF-8 bytes of the shared secret.
pub open spec fn announcement_key_spec(cryptkey: Seq<char>) -> Seq<u8> {
    sha256_spec(encode_utf8(cryptkey))
}

/// The datagram: the 24-byte nonce followed by the sealed text.
pub open spec fn sealed_packet_spec(key: Seq<u8>, nonce: Seq<u8>, now: nat, message: Seq<char>) -> Seq<
    u8,
> {
    nonce + xchacha20poly1305_seal(key, nonce, encode_utf8(announcement_text(now, message)))
}

/// The datagram is the nonce, the sealed text and the 16-byte tag, and
/// opening its sealed part under `key` and `nonce` gives back the bytes of
/// `<seconds>|<signal>`.
pub open spec fn sealed_packet_facts(key: Seq<u8>, nonce: Seq<u8>, now: nat, message: Seq<char>) -> bool {
    let packet = sealed_packet_spec(key, nonce, now, message);
    let plain = encode_utf8(announcement_text(now, message));
    &&& packet.len() == 24 + plain.len() + 16
    &&& packet.take(24) == nonce
    &&& xchacha20poly1305_open(key, nonce, packet.skip(24)) == Some(plain)
}

/// What a receiver makes of a datagram.
pub enum Announcement {
    /// Shorter than a nonce and a tag: dropped without a word.
    TooShort,
    /// The tag does not check under the shared key.
    Undecryptable,
    /// Authentic, but not UTF-8, without a `|`, without a time, or sent ten
    /// seconds or more from now: dropped without a word.
    Ignored,
    /// To be handed to the command, as its arguments.
    Accepted(Vec<String>),
}

/// The meaning of an [`Announcement`].
pub enum AnnouncementView {
    TooShort,
    Undecryptable,
    Ignored,
    Accepted(Seq<Seq<char>>),
}

impl View for Announcement {
    type V = AnnouncementView;

    open spec fn view(&self) -> AnnouncementView {
        match self {
            Announcement::TooShort => AnnouncementView::TooShort,
            Announcement::Undecryptable => AnnouncementView::Undecryptable,
            Announcement::Ignored => AnnouncementView::Ignored,
            Announcement::Accepted(args) => AnnouncementView::Accepted(strings_view(args@)),
        }
    }
}

/// The arguments that an opened text carries, if it is UTF-8 of the form
/// `<seconds>|<signal>` with a time less than ten seconds from `now`: the
/// words of the signal.
pub open spec fn accepted_args(plain: Seq<u8>, now: nat) -> Option<Seq<Seq<char>>> {
    if !valid_utf8(plain) {
        None
    } else {
        match split_once_spec(decode_utf8(plain), '|') {
            None => None,
            Some((ts, msg)) => match parse_uint_spec(ts, u64::MAX as nat) {
                Ok(t) => if abs_diff(now, t) < 10 {
                    Some(split_whitespace_spec(msg))
                } else {
                    None
                },
                Err(_) => None,
            },
        }
    }
}

/// What a receiver holding `key` makes of `payload` at time `now`.
pub open spec fn open_announcement_spec(key: Seq<u8>, payload: Seq<u8>, now: nat) -> AnnouncementView {
    if payload.len() < 40 {
        AnnouncementView::TooShort
    } else {
        match xchacha20poly1305_open(key, payload.take(24), payload.skip(24)) {
            None => AnnouncementView::Undecryptable,
            Some(p) => match accepted_args(p, now) {
                Some(args) => AnnouncementView::Accepted(args),
                None => AnnouncementView::Ignored,
            },
        }
    }
}

/// A secret that still starts with the placeholder `key` is refused.
pub fn is_default_cryptkey(cryptkey: &str) -> (r: bool)
    ensures
        r == (cryptkey@.len() >= 3 && cryptkey@.take(3) == seq!['k', 'e', 'y']),
{
    let cs = chars_of(cryptkey);
    if cs.len() >= 3 && cs[0] == 'k' && cs[1] == 'e' && cs[2] == 'y' {
        assert(cs@.take(3) == seq!['k', 'e', 'y']);
        true
    } else {
        proof {
            if cs@.len() >= 3 && cs@.take(3) == seq!['k', 'e', 'y'] {
                assert(cs@[0] == cs@.take(3)[0]);
                assert(cs@[1] == cs@.take(3)[1]);
                assert(cs@[2] == cs@.take(3)[2]);
            }
        }
        false
    }
}

/// The cipher key derived from the shared secret.
pub fn announcement_key(cryptkey: &str) -> (r: Vec<u8>)
    ensures
        r@ == announcement_key_spec(cryptkey@),
        r@.len() == 32,
{
    sha256(cryptkey.as_bytes())
}

fn bytes_range(bs: &[u8], from: usize, to: usize) -> (r: Vec<u8>)
    requires
        from <= to <= bs@.len(),
    ensures
        r@ == bs@.subrange(from as int, to as int),
{
    let mut r: Vec<u8> = Vec::new();
    for i in from..to
        invariant
            from <= to <= bs@.len(),
            r@ == bs@.subrange(from as int, i as int),
    {
        r.push(bs[i]);
        assert(bs@.subrange(from as int, i + 1) == bs@.subrange(from as int, i as int).push(
            bs@[i as int],
        ));
    }
    r
}

fn append_bytes(out: &mut Vec<u8>, bs: &[u8])
    ensures
        final(out)@ == old(out)@ + bs@,
{
    let n = bs.len();
    let ghost start = out@;
    for i in 0..n
        invariant
            n == bs@.len(),
            out@ == start + bs@.take(i as int),
    {
        out.push(bs[i]);
        assert(bs@.take(i + 1) == bs@.take(i as int).push(bs@[i as int]));
    }
    assert(bs@.take(n as int) == bs@);
}

fn announcement_text_string(now: u64, message: &str) -> (r: String)
    ensures
        r@ == announcement_text(now as nat, message@),
{
    let mut out: Vec<char> = Vec::new();
    push_decimal(&mut out, now);
    out.push('|');
    let mut m = chars_of(message);
    out.append(&mut m);
    string_from_chars(out.as_slice())
}

/// The arguments that an opened text carries, if any.
fn announcement_args(plain: &[u8], now: u64) -> (r: Option<Vec<String>>)
    ensures
        match r {
            Some(args) => accepted_args(plain@, now as nat) == Some(strings_view(args@)),
            None => accepted_args(plain@, now as nat) is None,
        },
{
    let text = match utf8_decode(plain) {
        Some(t) => t,
        None => return None,
    };
    let cs = chars_of(text.as_str());
    let (ts, msg) = match split_once_chars(cs.as_slice(), '|') {
        Some(parts) => parts,
        None => return None,
    };
    let t = match parse_uint_chars(ts.as_slice(), u64::MAX) {
        Ok(t) => t,
        Err(_) => return None,
    };
    let diff = if now >= t { now - t } else { t - now };
    if diff < 10 {
        let m = string_from_chars(msg.as_slice());
        Some(split_whitespace_str(m.as_str()))
    } else {
        None
    }
}

/// A datagram length that opening never panics on (every length a UDP
/// datagram can have is one).
pub open spec fn datagram_opens(len: nat) -> bool {
    len < 40 || aead_opens((len - 24) as nat)
}

/// What a receiver holding `key` makes of a datagram at time `now`.
pub fn open_announcement(key: &[u8], payload: &[u8], now: u64) -> (r: Announcement)
    requires
        key@.len() == 32,
        datagram_opens(payload@.len()),
    ensures
        r@ == open_announcement_spec(key@, payload@, now as nat),
{
    let len = payload.len();
    if len < 40 {
        return Announcement::TooShort;
    }
    let nonce = bytes_range(payload, 0, 24);
    let ciphertext = bytes_range(payload, 24, len);
    assert(nonce@ == payload@.take(24));
    assert(ciphertext@ == payload@.skip(24));
    match xchacha_open(key, nonce.as_slice(), ciphertext.as_slice()) {
        None => Announcement::Undecryptable,
        Some(plain) => match announcement_args(plain.as_slice(), now) {
            Some(args) => Announcement::Accepted(args),
            None => Announcement::Ignored,
        },
    }
}

/// Seals a signal under `key` with the given nonce and returns the datagram as
/// hexadecimal text. A receiver holding the same key that decodes the text
/// chunk by chunk accepts it, with the words of the signal as arguments,
/// exactly when it is less than ten seconds from the sending time.
pub fn seal_announcement_with_nonce(key: &[u8], nonce: &[u8], now: u64, message: &str) -> (r: String)
    requires
        key@.len() == 32,
        nonce@.len() == 24,
        aead_fits(encode_utf8(announcement_text(now as nat, message@)).len()),
    ensures
        r@ == hex_encode_spec(sealed_packet_spec(key@, nonce@, now as nat, message@)),
        sealed_packet_facts(key@, nonce@, now as nat, message@),
        forall|received: nat|
            #[trigger] open_announcement_spec(key@, hex_decode_spec(encode_utf8(r@)), received) == (
            if abs_diff(received, now as nat) < 10 {
                AnnouncementView::Accepted(split_whitespace_spec(message@))
            } else {
                AnnouncementView::Ignored
            }),
{
    let text = announcement_text_string(now, message);
    let plain = text.as_str().as_bytes();
    let sealed = match xchacha_seal(key, nonce, plain) {
        Some(c) => c,
        None => {
            assert(false);
            Vec::new()
        },
    };
    let mut packet: Vec<u8> = Vec::new();
    append_bytes(&mut packet, nonce);
    append_bytes(&mut packet, sealed.as_slice());
    let r = hex_encode(packet.as_slice());
    proof {
        let pkt = packet@;
        let t = announcement_text(now as nat, message@);
        assert(pkt == sealed_packet_spec(key@, nonce@, now as nat, message@));
        hex_roundtrip(pkt);
        assert(pkt.take(24) == nonce@);
        assert(pkt.skip(24) == sealed@);
        lemma_decimal_digits(now as nat);
        let d = decimal_spec(now as nat);
        assert(!d.contains('|')) by {
            if d.contains('|') {
                let k = choose|k: int| 0 <= k < d.len() && d[k] == '|';
                assert(crate::num::is_digit(d[k]));
            }
        }
        lemma_split_once_concat(d, '|', message@);
        decimal_parse_roundtrip(now as nat, u64::MAX as nat);
        assert(decode_utf8(encode_utf8(t)) == t);
        assert forall|received: nat|
            #[trigger] open_announcement_spec(key@, hex_decode_spec(encode_utf8(r@)), received) == (
            if abs_diff(received, now as nat) < 10 {
                AnnouncementView::Accepted(split_whitespace_spec(message@))
            } else {
                AnnouncementView::Ignored
            }) by {
            assert(hex_decode_spec(encode_utf8(r@)) == pkt);
        }
    }
    r
}

/// Seals a signal under the key derived from `cryptkey`, with a fresh random
/// nonce, and returns the datagram as hexadecimal text.
pub fn seal_announcement(cryptkey: &str, now: u64, message: &str) -> (r: String)
    requires
        aead_fits(encode_utf8(announcement_text(now as nat, message@)).len()),
    ensures
        exists|nonce: Seq<u8>|
            {
                &&& nonce.len() == 24
                &&& r@ == hex_encode_spec(
                    sealed_packet_spec(announcement_key_spec(cryptkey@), nonce, now as nat, message@),
                )
                &&& sealed_packet_facts(announcement_key_spec(cryptkey@), nonce, now as nat, message@)
            },
        forall|received: nat|
            #[trigger] open_announcement_spec(
                announcement_key_spec(cryptkey@),
                hex_decode_spec(encode_utf8(r@)),
                received,
            ) == (if abs_diff(received, now as nat) < 10 {
                AnnouncementView::Accepted(split_whitespace_spec(message@))
            } else {
                AnnouncementView::Ignored
            }),
{
    let key = announcement_key(cryptkey);
    let nonce = random_nonce();
    seal_announcement_with_nonce(key.as_slice(), nonce.as_slice(), now, message)
}

} // verus!
