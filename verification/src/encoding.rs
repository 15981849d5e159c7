//! Text encodings of the login flow: base64 for URLs, percent encoding, and the
//! digest and random bytes that go into them.
use crate::text::text_of;
use vstd::prelude::*;
use vstd::string::*;
use vstd::utf8::{decode_utf8, encode_utf8, is_ascii_chars, valid_utf8};

verus! {

broadcast use {vstd::seq::group_seq_axioms, vstd::string::group_string_axioms};

// ---- base64 -----------------------------------------------------------------

/// The six bits at place `k` of the bytes, followed by zeros.
pub open spec fn sextet(data: Seq<u8>, k: int) -> int {
    let i = 6 * k / 8;
    let next = if i + 1 < data.len() {
        data[i + 1] as int
    } else {
        0
    };
    let pair = data[i] * 256 + next;
    if 6 * k % 8 == 0 {
        pair / 1024
    } else if 6 * k % 8 == 2 {
        pair / 256 % 64
    } else if 6 * k % 8 == 4 {
        pair / 64 % 64
    } else {
        pair / 16 % 64
    }
}

/// The letter of six bits: `A` to `Z`, `a` to `z`, `0` to `9`, `-`, `_`.
pub open spec fn base64_letter(v: int) -> char {
    if v < 26 {
        (65 + v) as char
    } else if v < 52 {
        (71 + v) as char
    } else if v < 62 {
        (v - 4) as char
    } else if v == 62 {
        '-'
    } else {
        '_'
    }
}

/// The bytes in base64 with the alphabet for URLs, without padding.
pub open spec fn base64url(data: Seq<u8>) -> Seq<char> {
    Seq::new(((8 * data.len() + 5) / 6) as nat, |k: int| base64_letter(sextet(data, k)))
}

/// `base64::Engine::encode` with `URL_SAFE_NO_PAD`: six bits to a letter, the rest
/// filled up with zeros, without padding.
#[verifier::external_body]
pub(crate) fn encode_base64(data: &Vec<u8>) -> (r: String)
    ensures
        r@ == base64url(data@),
{
    base64::Engine::encode(&base64::engine::general_purpose::URL_SAFE_NO_PAD, data)
}

/// `base64::Engine::decode` with `URL_SAFE_NO_PAD`: the bytes whose encoding the
/// text is. Padding, other characters, a single letter at the end and bits beyond
/// the last byte are refused, so there is at most one.
#[verifier::external_body]
pub(crate) fn decode_base64(text: &str) -> (r: Option<Vec<u8>>)
    ensures
        match r {
            Some(b) => base64url(b@) == text@,
            None => forall|b: Seq<u8>| #[trigger] base64url(b) != text@,
        },
{
    base64::Engine::decode(&base64::engine::general_purpose::URL_SAFE_NO_PAD, text).ok()
}

// ---- digest and random bytes ------------------------------------------------

/// The SHA-256 digest of bytes.
pub uninterp spec fn sha256(data: Seq<u8>) -> Seq<u8>;

/// `sha2::Sha256::digest`: 32 bytes that depend on the input alone.
#[verifier::external_body]
fn digest(data: &[u8]) -> (r: Vec<u8>)
    ensures
        r@ == sha256(data@),
        r@.len() == 32,
{
    <sha2::Sha256 as sha2::Digest>::digest(data).to_vec()
}

/// `n` random bytes by `getrandom::fill`; none where the machine has no source of
/// them. For no bytes at all the source is not asked, so that cannot fail. Nothing is
/// claimed of the bytes.
#[verifier::external_body]
fn random_bytes(n: usize) -> (r: Option<Vec<u8>>)
    ensures
        r matches Some(b) ==> b@.len() == n,
        n == 0 ==> r is Some,
{
    let mut buf = vec![0u8; n];
    match getrandom::fill(&mut buf) {
        Ok(()) => Some(buf),
        Err(_) => None,
    }
}

/// Random bytes, written down: `n` of them, in base64; none where the machine has no
/// source of them and some are asked for.
pub fn random_b64url(n: usize) -> (r: Option<String>)
    ensures
        r matches Some(t) ==> exists|b: Seq<u8>| b.len() == n && t@ == #[trigger] base64url(b),
        n == 0 ==> r is Some,
{
    match random_bytes(n) {
        Some(b) => Some(encode_base64(&b)),
        None => None,
    }
}

/// The SHA-256 digest of a text, in base64.
pub fn sha256_b64url(s: &str) -> (r: String)
    ensures
        r@ == base64url(sha256(encode_utf8(s@))),
{
    let d: Vec<u8> = digest(s.as_bytes());
    encode_base64(&d)
}

// ---- percent encoding -------------------------------------------------------

/// A byte that stands for itself: an ASCII letter or digit, or one of `-`, `_`, `.`
/// and `~`.
pub open spec fn unreserved(b: u8) -> bool {
    ||| 65 <= b <= 90
    ||| 97 <= b <= 122
    ||| 48 <= b <= 57
    ||| b == 45
    ||| b == 95
    ||| b == 46
    ||| b == 126
}

/// A digit of base sixteen, in upper case.
pub open spec fn hex_upper(d: int) -> char {
    if d < 10 {
        (48 + d) as char
    } else {
        (55 + d) as char
    }
}

/// A byte in percent encoding.
pub open spec fn enc_byte(b: u8) -> Seq<char> {
    if unreserved(b) {
        seq![b as char]
    } else {
        seq!['%', hex_upper(b as int / 16), hex_upper(b as int % 16)]
    }
}

/// Bytes in percent encoding.
pub open spec fn enc_bytes(b: Seq<u8>) -> Seq<char>
    decreases b.len(),
{
    if b.len() == 0 {
        Seq::empty()
    } else {
        enc_bytes(b.drop_last()) + enc_byte(b.last())
    }
}

/// A text in percent encoding, as a component of a query.
pub open spec fn encoded(s: Seq<char>) -> Seq<char> {
    enc_bytes(encode_utf8(s))
}

fn hex_digit(d: u8) -> (r: char)
    requires
        d < 16,
    ensures
        r == hex_upper(d as int),
{
    if d < 10 {
        (48 + d) as char
    } else {
        (55 + d) as char
    }
}

/// A text in percent encoding, as a component of a query.
pub fn enc(s: &str) -> (r: String)
    ensures
        r@ == encoded(s@),
{
    let bytes: &[u8] = s.as_bytes();
    let mut out: Vec<char> = Vec::new();
    let mut i: usize = 0;
    while i < bytes.len()
        invariant
            i <= bytes@.len(),
            out@ == enc_bytes(bytes@.take(i as int)),
        decreases bytes@.len() - i,
    {
        let b: u8 = bytes[i];
        assert(bytes@.take(i + 1).drop_last() =~= bytes@.take(i as int));
        let ghost before = out@;
        let plain: bool = (b >= 65 && b <= 90) || (b >= 97 && b <= 122) || (b >= 48 && b <= 57) || b == 45 || b == 95 || b == 46
            || b == 126;
        if plain {
            out.push(b as char);
        } else {
            out.push('%');
            out.push(hex_digit(b / 16));
            out.push(hex_digit(b % 16));
        }
        assert(out@ =~= before + enc_byte(b));
        i = i + 1;
    }
    assert(bytes@.take(bytes@.len() as int) =~= bytes@);
    text_of(&out)
}

/// A digit of base sixteen, in either case.
pub open spec fn hex_byte(b: u8) -> Option<u8> {
    if 48 <= b <= 57 {
        Some((b - 48) as u8)
    } else if 65 <= b <= 70 {
        Some((b - 55) as u8)
    } else if 97 <= b <= 102 {
        Some((b - 87) as u8)
    } else {
        None
    }
}

/// Two characters as a number of base sixteen: two digits, or a plus sign and one.
pub open spec fn hex_pair(a: u8, b: u8) -> Option<u8> {
    match (hex_byte(a), hex_byte(b)) {
        (Some(x), Some(y)) => Some((16 * x + y) as u8),
        (None, Some(y)) => if a == 43 {
            Some(y)
        } else {
            None
        },
        _ => None,
    }
}

/// The bytes that percent encoding stands for; a plus sign is a space, and a percent
/// sign without a number stands for itself.
pub open spec fn dec_bytes(b: Seq<u8>) -> Seq<u8>
    decreases b.len(),
{
    if b.len() == 0 {
        Seq::empty()
    } else if b[0] == 37 && b.len() > 2 {
        match hex_pair(b[1], b[2]) {
            Some(h) => seq![h] + dec_bytes(b.skip(3)),
            None => seq![37u8] + dec_bytes(b.skip(1)),
        }
    } else if b[0] == 43 {
        seq![32u8] + dec_bytes(b.skip(1))
    } else {
        seq![b[0]] + dec_bytes(b.skip(1))
    }
}

/// No percent sign is followed by one and a half characters.
pub open spec fn decodable(b: Seq<u8>) -> bool
    decreases b.len(),
{
    if b.len() == 0 {
        true
    } else if b[0] == 37 && b.len() > 2 {
        &&& b.len() > 3 ==> !(128 <= b[3] < 192)
        &&& match hex_pair(b[1], b[2]) {
            Some(h) => decodable(b.skip(3)),
            None => decodable(b.skip(1)),
        }
    } else {
        decodable(b.skip(1))
    }
}

/// The text of bytes, with what is not UTF-8 replaced.
pub uninterp spec fn lossy_text(b: Seq<u8>) -> Seq<char>;

/// `String::from_utf8_lossy`: the text of the bytes, where they are UTF-8; what it
/// puts in place of other bytes is left open.
#[verifier::external_body]
fn text_from_bytes(b: &Vec<u8>) -> (r: String)
    ensures
        r@ == lossy_text(b@),
        valid_utf8(b@) ==> r@ == decode_utf8(b@),
{
    String::from_utf8_lossy(b).into_owned()
}

/// What a component of a query in percent encoding stands for.
pub open spec fn decoded_text(s: Seq<char>) -> Seq<char> {
    lossy_text(dec_bytes(encode_utf8(s)))
}

fn hex_value(b: u8) -> (r: Option<u8>)
    ensures
        r == hex_byte(b),
{
    if b >= 48 && b <= 57 {
        Some(b - 48)
    } else if b >= 65 && b <= 70 {
        Some(b - 55)
    } else if b >= 97 && b <= 102 {
        Some(b - 87)
    } else {
        None
    }
}

fn pair_value(a: u8, b: u8) -> (r: Option<u8>)
    ensures
        r == hex_pair(a, b),
{
    match (hex_value(a), hex_value(b)) {
        (Some(x), Some(y)) => Some(16 * x + y),
        (None, Some(y)) => if a == 43 {
            Some(y)
        } else {
            None
        },
        _ => None,
    }
}

/// Decodes a component of a query in percent encoding.
pub fn dec(s: &str) -> (r: String)
    requires
        decodable(encode_utf8(s@)),
    ensures
        r@ == decoded_text(s@),
        valid_utf8(dec_bytes(encode_utf8(s@))) ==> r@ == decode_utf8(dec_bytes(encode_utf8(s@))),
{
    let bytes: &[u8] = s.as_bytes();
    let ghost all = bytes@;
    let mut out: Vec<u8> = Vec::new();
    let mut i: usize = 0;
    assert(all.skip(0) =~= all);
    while i < bytes.len()
        invariant
            i <= bytes@.len(),
            all == bytes@,
            dec_bytes(all) == out@ + dec_bytes(all.skip(i as int)),
        decreases bytes@.len() - i,
    {
        let ghost before = out@;
        let ghost rest = all.skip(i as int);
        let b: u8 = bytes[i];
        assert(rest[0] == b);
        if b == 37 && bytes.len() - i > 2 {
            assert(rest[1] == all[i + 1] && rest[2] == all[i + 2]);
            match pair_value(bytes[i + 1], bytes[i + 2]) {
                Some(h) => {
                    out.push(h);
                    i = i + 3;
                    assert(rest.skip(3) =~= all.skip(i as int));
                    assert(before + (seq![h] + dec_bytes(rest.skip(3))) =~= out@ + dec_bytes(all.skip(i as int)));
                },
                None => {
                    out.push(37);
                    i = i + 1;
                    assert(rest.skip(1) =~= all.skip(i as int));
                    assert(before + (seq![37u8] + dec_bytes(rest.skip(1))) =~= out@ + dec_bytes(all.skip(i as int)));
                },
            }
        } else if b == 43 {
            out.push(32);
            i = i + 1;
            assert(rest.skip(1) =~= all.skip(i as int));
            assert(before + (seq![32u8] + dec_bytes(rest.skip(1))) =~= out@ + dec_bytes(all.skip(i as int)));
        } else {
            out.push(b);
            i = i + 1;
            assert(rest.skip(1) =~= all.skip(i as int));
            assert(before + (seq![b] + dec_bytes(rest.skip(1))) =~= out@ + dec_bytes(all.skip(i as int)));
        }
    }
    assert(all.skip(all.len() as int) =~= Seq::<u8>::empty());
    assert(out@ =~= dec_bytes(all));
    text_from_bytes(&out)
}

/// Whether [`dec`] takes a text: see [`decodable`].
pub fn can_decode(s: &str) -> (r: bool)
    ensures
        r == decodable(encode_utf8(s@)),
{
    let bytes: &[u8] = s.as_bytes();
    let ghost all = bytes@;
    let mut i: usize = 0;
    assert(all.skip(0) =~= all);
    while i < bytes.len()
        invariant
            i <= bytes@.len(),
            all == bytes@,
            all == encode_utf8(s@),
            decodable(all) == decodable(all.skip(i as int)),
        decreases bytes@.len() - i,
    {
        let ghost rest = all.skip(i as int);
        let b: u8 = bytes[i];
        assert(rest[0] == b);
        assert(rest.skip(1) =~= all.skip(i + 1));
        if b == 37 && bytes.len() - i > 2 {
            assert(rest[1] == all[i + 1] && rest[2] == all[i + 2]);
            if bytes.len() - i > 3 {
                assert(rest[3] == all[i + 3]);
                if bytes[i + 3] >= 128 && bytes[i + 3] < 192 {
                    return false;
                }
            }
            assert(rest.skip(3) =~= all.skip(i + 3));
            if pair_value(bytes[i + 1], bytes[i + 2]).is_some() {
                i = i + 3;
            } else {
                i = i + 1;
            }
        } else {
            i = i + 1;
        }
    }
    assert(all.skip(all.len() as int) =~= Seq::<u8>::empty());
    true
}

// ---- laws -------------------------------------------------------------------

/// A byte's encoding as bytes.
spec fn enc_raw(b: u8) -> Seq<u8> {
    if unreserved(b) {
        seq![b]
    } else {
        seq![37u8, hex_upper(b as int / 16) as u8, hex_upper(b as int % 16) as u8]
    }
}

spec fn enc_raw_all(b: Seq<u8>) -> Seq<u8>
    decreases b.len(),
{
    if b.len() == 0 {
        Seq::empty()
    } else {
        enc_raw(b[0]) + enc_raw_all(b.drop_first())
    }
}

proof fn lemma_enc_front(b: Seq<u8>)
    requires
        b.len() > 0,
    ensures
        enc_bytes(b) == enc_byte(b[0]) + enc_bytes(b.drop_first()),
    decreases b.len(),
{
    if b.len() == 1 {
        assert(b.drop_last() =~= Seq::<u8>::empty());
        assert(b.drop_first() =~= Seq::<u8>::empty());
        assert(enc_bytes(b) =~= enc_byte(b[0]) + enc_bytes(b.drop_first()));
    } else {
        lemma_enc_front(b.drop_last());
        assert(b.drop_last().drop_first() =~= b.drop_first().drop_last());
        assert(enc_bytes(b) =~= enc_byte(b[0]) + enc_bytes(b.drop_first()));
    }
}

proof fn lemma_enc_ascii(b: Seq<u8>)
    ensures
        is_ascii_chars(enc_bytes(b)),
        enc_raw_all(b).len() == enc_bytes(b).len(),
        forall|i: int| 0 <= i < enc_bytes(b).len() ==> enc_raw_all(b)[i] == (#[trigger] enc_bytes(b)[i]) as u8,
    decreases b.len(),
{
    if b.len() > 0 {
        lemma_enc_front(b);
        lemma_enc_ascii(b.drop_first());
        let first = enc_byte(b[0]);
        let rest = enc_bytes(b.drop_first());
        assert forall|i: int| 0 <= i < first.len() implies '\0' <= #[trigger] first[i] <= '\u{7f}' && enc_raw(b[0])[i] == first[i] as u8 by {}
        assert forall|i: int| 0 <= i < enc_bytes(b).len() implies '\0' <= #[trigger] enc_bytes(b)[i] <= '\u{7f}' && enc_raw_all(b)[i]
            == enc_bytes(b)[i] as u8 by {
            if i < first.len() {
                assert(enc_bytes(b)[i] == first[i]);
            } else {
                assert(enc_bytes(b)[i] == rest[i - first.len()]);
            }
        }
    }
}

proof fn lemma_dec_raw(b: Seq<u8>)
    ensures
        dec_bytes(enc_raw_all(b)) == b,
        decodable(enc_raw_all(b)),
        enc_raw_all(b).len() > 0 ==> enc_raw_all(b)[0] < 128,
    decreases b.len(),
{
    let t = enc_raw_all(b);
    if b.len() > 0 {
        let rest = enc_raw_all(b.drop_first());
        lemma_dec_raw(b.drop_first());
        let c = b[0];
        if unreserved(c) {
            assert(t[0] == c);
            assert(t.skip(1) =~= rest);
            assert(seq![c] + b.drop_first() =~= b);
        } else {
            assert(t[0] == 37 && t.len() > 2);
            assert(t.skip(3) =~= rest);
            assert(hex_pair(t[1], t[2]) == Some(c));
            if t.len() > 3 {
                assert(t[3] == rest[0]);
            }
            assert(seq![c] + b.drop_first() =~= b);
        }
    } else {
        assert(dec_bytes(t) =~= b);
    }
}

/// A text in percent encoding decodes to itself.
pub proof fn law_percent_round_trip(s: Seq<char>)
    ensures
        decodable(encode_utf8(encoded(s))),
        dec_bytes(encode_utf8(encoded(s))) == encode_utf8(s),
        decode_utf8(dec_bytes(encode_utf8(encoded(s)))) == s,
{
    broadcast use vstd::utf8::group_utf8_lib;

    let b = encode_utf8(s);
    lemma_enc_ascii(b);
    lemma_dec_raw(b);
    assert(encode_utf8(enc_bytes(b)) =~= enc_raw_all(b));
}

/// Text of ASCII characters can always be decoded.
pub proof fn law_ascii_decodes(b: Seq<u8>)
    requires
        forall|i: int| 0 <= i < b.len() ==> #[trigger] b[i] < 128,
    ensures
        decodable(b),
    decreases b.len(),
{
    if b.len() > 0 {
        assert forall|i: int| 0 <= i < b.skip(1).len() implies #[trigger] b.skip(1)[i] < 128 by {
            assert(b[i + 1] < 128);
        }
        law_ascii_decodes(b.skip(1));
        if b.len() > 2 {
            assert forall|i: int| 0 <= i < b.skip(3).len() implies #[trigger] b.skip(3)[i] < 128 by {
                assert(b[i + 3] < 128);
            }
            law_ascii_decodes(b.skip(3));
        }
    }
}

proof fn lemma_letter(u: int, v: int)
    requires
        0 <= u < 64,
        0 <= v < 64,
        base64_letter(u) == base64_letter(v),
    ensures
        u == v,
{
}

/// Six bits are six bits.
pub proof fn lemma_sextet(data: Seq<u8>, k: int)
    requires
        0 <= 6 * k < 8 * data.len(),
    ensures
        0 <= sextet(data, k) < 64,
{
    let i = 6 * k / 8;
    assert(0 <= data[i] < 256);
}

/// A byte from the two groups of six bits that hold it.
spec fn byte_from(s: int, t: int, r: int) -> int {
    if r == 0 {
        4 * s + t / 16
    } else if r == 1 {
        s % 16 * 16 + t / 4
    } else {
        s % 4 * 64 + t
    }
}

/// Two bytes cut after the first two, four and six bits of the second.
proof fn lemma_cut_six(y: int, z: int)
    requires
        0 <= y < 256,
        0 <= z < 256,
    ensures
        (y * 256 + z) / 1024 == y / 4,
{
    let q = y / 4;
    assert(1024 * q <= y * 256 + z < 1024 * (q + 1));
}

proof fn lemma_cut_four(y: int, z: int)
    requires
        0 <= y < 256,
        0 <= z < 256,
    ensures
        (y * 256 + z) / 16 % 64 == y % 4 * 16 + z / 16,
{
    let w = z / 16;
    assert((y * 256 + z) / 16 == 16 * y + w);
    let q = y / 4;
    let m = y % 4;
    assert(16 * y + w == 64 * q + (16 * m + w));
    assert(0 <= 16 * m + w < 64);
}

proof fn lemma_cut_two(y: int, z: int)
    requires
        0 <= y < 256,
        0 <= z < 256,
    ensures
        (y * 256 + z) / 64 % 64 == y % 16 * 4 + z / 64,
{
    let w = z / 64;
    assert((y * 256 + z) / 64 == 4 * y + w);
    let q = y / 16;
    let m = y % 16;
    assert(4 * y + w == 64 * q + (4 * m + w));
    assert(0 <= 4 * m + w < 64);
}

proof fn lemma_cut_none(y: int, z: int)
    requires
        0 <= y < 256,
        0 <= z < 256,
    ensures
        (y * 256 + z) / 256 % 64 == y % 64,
{
    assert((y * 256 + z) / 256 == y);
}

/// A byte is made of the parts that its groups hold.
proof fn lemma_joined(x: int, y: int, z: int)
    requires
        0 <= x < 256,
        0 <= y < 256,
        0 <= z < 256,
    ensures
        byte_from(y / 4, y % 4 * 16 + z / 16, 0) == y,
        byte_from(x % 4 * 16 + y / 16, y % 16 * 4 + z / 64, 1) == y,
        byte_from(x % 16 * 4 + y / 64, y % 64, 2) == y,
{
    assert((y % 4 * 16 + z / 16) / 16 == y % 4);
    assert((x % 4 * 16 + y / 16) % 16 == y / 16);
    assert((y % 16 * 4 + z / 64) / 4 == y % 16);
    assert((x % 16 * 4 + y / 64) % 4 == y / 64);
}

/// Which bytes hold the four groups that three bytes make.
proof fn lemma_groups(q: int)
    requires
        0 <= q,
    ensures
        6 * (4 * q) / 8 == 3 * q,
        6 * (4 * q) % 8 == 0,
        6 * (4 * q + 1) / 8 == 3 * q,
        6 * (4 * q + 1) % 8 == 6,
        6 * (4 * q + 2) / 8 == 3 * q + 1,
        6 * (4 * q + 2) % 8 == 4,
        6 * (4 * q + 3) / 8 == 3 * q + 2,
        6 * (4 * q + 3) % 8 == 2,
{
}

/// A byte at the first, second or third place of its three.
proof fn lemma_byte(data: Seq<u8>, q: int, r: int)
    requires
        0 <= q,
        0 <= r < 3,
        3 * q + r < data.len(),
    ensures
        data[3 * q + r] == byte_from(sextet(data, 4 * q + r), sextet(data, 4 * q + r + 1), r),
{
    let i = 3 * q + r;
    let y = data[i] as int;
    let z = if i + 1 < data.len() {
        data[i + 1] as int
    } else {
        0
    };
    let x = if i > 0 {
        data[i - 1] as int
    } else {
        0
    };
    lemma_groups(q);
    lemma_joined(x, y, z);
    if r == 0 {
        lemma_cut_six(y, z);
        lemma_cut_four(y, z);
        assert(sextet(data, 4 * q) == y / 4);
        assert(sextet(data, 4 * q + 1) == y % 4 * 16 + z / 16);
    } else if r == 1 {
        lemma_cut_four(x, y);
        lemma_cut_two(y, z);
        assert(sextet(data, 4 * q + 1) == x % 4 * 16 + y / 16);
        assert(sextet(data, 4 * q + 2) == y % 16 * 4 + z / 64);
    } else {
        lemma_cut_two(x, y);
        lemma_cut_none(y, z);
        assert(sextet(data, 4 * q + 2) == x % 16 * 4 + y / 64);
        assert(sextet(data, 4 * q + 3) == y % 64);
    }
}

/// Different bytes have different encodings, so decoding gives back what was
/// encoded.
pub proof fn law_base64_is_unique(a: Seq<u8>, b: Seq<u8>)
    requires
        base64url(a) == base64url(b),
    ensures
        a == b,
{
    let n = base64url(a).len();
    assert(n == base64url(b).len());
    assert(a.len() == b.len());
    assert forall|k: int| 0 <= 6 * k < 8 * a.len() implies sextet(a, k) == #[trigger] sextet(b, k) by {
        lemma_sextet(a, k);
        lemma_sextet(b, k);
        assert(k < n);
        assert(base64url(a)[k] == base64_letter(sextet(a, k)));
        assert(base64url(b)[k] == base64_letter(sextet(b, k)));
        lemma_letter(sextet(a, k), sextet(b, k));
    }
    assert forall|i: int| 0 <= i < a.len() implies a[i] == b[i] by {
        let q = i / 3;
        let r = i % 3;
        assert(i == 3 * q + r);
        lemma_byte(a, q, r);
        lemma_byte(b, q, r);
        assert(6 * (4 * q + r + 1) < 8 * a.len());
        assert(sextet(a, 4 * q + r) == sextet(b, 4 * q + r));
        assert(sextet(a, 4 * q + r + 1) == sextet(b, 4 * q + r + 1));
    }
    assert(a =~= b);
}

} // verus!
