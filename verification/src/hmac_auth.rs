//! Protocol v2 challenge/response: lowercase hex, HMAC-SHA256 of the
//! session nonce keyed by the shared token, and the challenge record.

use vstd::prelude::*;

use hmac::Mac;
use vstd::string::StringSliceAdditionalSpecFns;

use crate::protocol::PROTOCOL_VERSION;
use crate::text::{
    chars_of, char_from_ascii_code, decimal, decimal_string, push_chars, seq_eq, trim, trim_bounds,
    trim_end, trim_start,
};

verus! {

pub const NONCE_LEN: usize = 32;

/// Wire challenge written right after accept when the host has a token.
#[derive(Debug, Clone)]
pub struct Challenge {
    pub v: u32,
    pub op: String,
    pub nonce: String,
}

/// Lowercase hex digit of `n < 16`.
pub open spec fn hex_digit(n: int) -> char {
    if n < 10 {
        ((n + 48) as u32) as char
    } else {
        ((n + 87) as u32) as char
    }
}

/// Lowercase hex, two digits per byte, high nibble first.
pub open spec fn hex_of(b: Seq<u8>) -> Seq<char>
    decreases b.len(),
{
    if b.len() == 0 {
        Seq::empty()
    } else {
        hex_of(b.drop_last()) + seq![hex_digit(b.last() as int / 16), hex_digit(b.last() as int % 16)]
    }
}

pub proof fn lemma_hex_of_len(b: Seq<u8>)
    ensures
        hex_of(b).len() == 2 * b.len(),
    decreases b.len(),
{
    if b.len() > 0 {
        lemma_hex_of_len(b.drop_last());
    }
}

fn hex_char(n: u8) -> (c: char)
    requires
        n < 16,
    ensures
        c == hex_digit(n as int),
{
    if n < 10 {
        char_from_ascii_code((n as u32) + 48)
    } else {
        char_from_ascii_code((n as u32) + 87)
    }
}

pub fn hex_encode(bytes: &[u8]) -> (r: String)
    ensures
        r@ == hex_of(bytes@),
{
    let mut out = String::new();
    let mut i: usize = 0;
    while i < bytes.len()
        invariant
            i <= bytes@.len(),
            out@ == hex_of(bytes@.subrange(0, i as int)),
        decreases bytes.len() - i,
    {
        let b = bytes[i];
        let hi: u8 = b >> 4;
        let lo: u8 = b & 0xf;
        assert(hi == b / 16 && lo == b % 16) by (bit_vector)
            requires
                hi == b >> 4,
                lo == b & 0xf,
        ;
        crate::text::push_char(&mut out, hex_char(hi));
        crate::text::push_char(&mut out, hex_char(lo));
        let ghost next = bytes@.subrange(0, i + 1);
        assert(next.drop_last() =~= bytes@.subrange(0, i as int));
        i += 1;
    }
    assert(bytes@.subrange(0, bytes@.len() as int) =~= bytes@);
    out
}

/// Value of one hex digit byte, either case.
pub open spec fn nibble(b: u8) -> Option<u8> {
    if 48 <= b <= 57 {
        Some((b - 48) as u8)
    } else if 97 <= b <= 102 {
        Some((b - 87) as u8)
    } else if 65 <= b <= 70 {
        Some((b - 55) as u8)
    } else {
        None
    }
}

/// Decoding of a byte string of hex digit pairs.
pub open spec fn hex_decode_bytes(b: Seq<u8>) -> Result<Seq<u8>, Seq<char>> {
    if b.len() % 2 != 0 {
        Err("hex length must be even"@)
    } else if exists|i: int|
        0 <= i < b.len() && (#[trigger] nibble(b[i])) is None {
        Err("invalid hex"@)
    } else {
        Ok(
            Seq::new(
                b.len() / 2,
                |i: int| (nibble(b[2 * i])->0 * 16 + nibble(b[2 * i + 1])->0) as u8,
            ),
        )
    }
}

/// `hex_decode`: the UTF-8 bytes of the trimmed text, decoded.
pub open spec fn hex_decode_spec(s: Seq<char>) -> Result<Seq<u8>, Seq<char>> {
    hex_decode_bytes(vstd::utf8::encode_utf8(trim(s)))
}

fn hex_nibble(b: u8) -> (r: Option<u8>)
    ensures
        r == nibble(b),
{
    if 48 <= b && b <= 57 {
        Some(b - 48)
    } else if 97 <= b && b <= 102 {
        Some(b - 87)
    } else if 65 <= b && b <= 70 {
        Some(b - 55)
    } else {
        None
    }
}

pub fn hex_decode(s: &str) -> (r: Result<Vec<u8>, String>)
    ensures
        match r {
            Ok(v) => hex_decode_spec(s@) == Ok::<Seq<u8>, Seq<char>>(v@),
            Err(e) => hex_decode_spec(s@) == Err::<Seq<u8>, Seq<char>>(e@),
        },
{
    let v = chars_of(s);
    let (a, b) = trim_bounds(&v);
    let t = s.substring_char(a, b);
    let bytes = t.as_bytes();
    let ghost bs = vstd::utf8::encode_utf8(trim(s@));
    assert(bytes@ == bs);
    if bytes.len() % 2 != 0 {
        return Err("hex length must be even".to_owned());
    }
    let mut out: Vec<u8> = Vec::new();
    let mut i: usize = 0;
    while i < bytes.len()
        invariant
            bytes@ == bs,
            bs == vstd::utf8::encode_utf8(trim(s@)),
            bs.len() % 2 == 0,
            i <= bs.len(),
            i % 2 == 0,
            out@.len() == i / 2,
            forall|k: int| 0 <= k < i ==> (#[trigger] nibble(bs[k])) is Some,
            forall|k: int|
                0 <= k < i / 2 ==> #[trigger] out@[k] == (nibble(bs[2 * k])->0 * 16 + nibble(
                    bs[2 * k + 1],
                )->0) as u8,
        decreases bs.len() - i,
    {
        let hi_o = hex_nibble(bytes[i]);
        let lo_o = hex_nibble(bytes[i + 1]);
        if hi_o.is_none() || lo_o.is_none() {
            let ghost bad: int = if hi_o.is_none() { i as int } else { i + 1 };
            assert(nibble(bs[bad]) is None);
            let e = "invalid hex".to_owned();
            assert(hex_decode_spec(s@) == Err::<Seq<u8>, Seq<char>>(e@));
            return Err(e);
        }
        let hi = hi_o.unwrap();
        let lo = lo_o.unwrap();
        out.push((hi << 4) | lo);
        assert(((hi << 4) | lo) == (hi * 16 + lo) as u8) by (bit_vector)
            requires
                hi < 16,
                lo < 16,
        ;
        i += 2;
    }
    let ghost expect = Seq::new(
        bs.len() / 2,
        |k: int| (nibble(bs[2 * k])->0 * 16 + nibble(bs[2 * k + 1])->0) as u8,
    );
    assert(out@ =~= expect);
    Ok(out)
}

/// HMAC-SHA256 tag of `msg` under `key`, as the `hmac` and `sha2` crates
/// compute it.
pub uninterp spec fn hmac_sha256_tag(key: Seq<u8>, msg: Seq<u8>) -> Seq<u8>;

/// `Hmac::<Sha256>::new_from_slice(key)`, `update(msg)`, `finalize()`.
/// The crate accepts keys of any length, so the key setup cannot fail; the
/// tag is the 32-byte SHA-256 output size.
#[verifier::external_body]
fn hmac_sha256(key: &[u8], msg: &[u8]) -> (r: Vec<u8>)
    ensures
        r@ == hmac_sha256_tag(key@, msg@),
        r@.len() == 32,
{
    let mut mac = <hmac::Hmac<sha2::Sha256> as Mac>::new_from_slice(key).expect(
        "HMAC takes keys of any length",
    );
    mac.update(msg);
    mac.finalize().into_bytes().to_vec()
}

/// `Mac::verify_slice` after keying with `key` and absorbing `msg`: true
/// exactly when `tag` is the full HMAC-SHA256 tag.
#[verifier::external_body]
fn hmac_sha256_verify(key: &[u8], msg: &[u8], tag: &[u8]) -> (r: bool)
    ensures
        r == (tag@ == hmac_sha256_tag(key@, msg@)),
{
    let mut mac = <hmac::Hmac<sha2::Sha256> as Mac>::new_from_slice(key).expect(
        "HMAC takes keys of any length",
    );
    mac.update(msg);
    mac.verify_slice(tag).is_ok()
}

/// Lowercase hex of HMAC-SHA256(token, nonce).
pub fn hmac_hex(token: &str, nonce: &[u8]) -> (r: Result<String, String>)
    ensures
        r matches Ok(h) && h@ == hex_of(hmac_sha256_tag(token.spec_bytes(), nonce@)) && h@.len() == 64,
{
    let tag = hmac_sha256(token.as_bytes(), nonce);
    proof {
        lemma_hex_of_len(tag@);
    }
    Ok(hex_encode(tag.as_slice()))
}

/// Whether `auth_hex` decodes to HMAC-SHA256(token, nonce).
pub fn hmac_verify(token: &str, nonce: &[u8], auth_hex: &str) -> (r: bool)
    ensures
        r == (hex_decode_spec(auth_hex@) matches Ok(got) && got == hmac_sha256_tag(
            token.spec_bytes(),
            nonce@,
        )),
{
    let got = match hex_decode(auth_hex) {
        Ok(g) => g,
        Err(_) => return false,
    };
    hmac_sha256_verify(token.as_bytes(), nonce, got.as_slice())
}

pub fn challenge_for_nonce(nonce: &[u8; NONCE_LEN]) -> (r: Challenge)
    ensures
        r.v == PROTOCOL_VERSION,
        r.op@ == "challenge"@,
        r.nonce@ == hex_of(nonce@),
{
    Challenge {
        v: PROTOCOL_VERSION,
        op: "challenge".to_owned(),
        nonce: hex_encode(vstd::array::array_as_slice(nonce)),
    }
}

/// What a client accepts from a parsed challenge line: its nonce, or why not.
pub open spec fn challenge_nonce_spec(c: Challenge) -> Result<Seq<u8>, Seq<char>> {
    if c.v != PROTOCOL_VERSION {
        Err("unsupported challenge version "@ + decimal(c.v as nat) + " (want 2)"@)
    } else if c.op@ != "challenge"@ {
        Err("expected op=challenge, got "@ + c.op@)
    } else {
        match hex_decode_spec(c.nonce@) {
            Err(e) => Err(e),
            Ok(b) => if b.len() != NONCE_LEN {
                Err("challenge nonce must be 32 bytes"@)
            } else {
                Ok(b)
            },
        }
    }
}

/// The checks a client applies to a challenge after parsing it.
pub fn challenge_nonce(challenge: &Challenge) -> (r: Result<[u8; NONCE_LEN], String>)
    ensures
        match r {
            Ok(n) => challenge_nonce_spec(*challenge) == Ok::<Seq<u8>, Seq<char>>(n@),
            Err(e) => challenge_nonce_spec(*challenge) == Err::<Seq<u8>, Seq<char>>(e@),
        },
{
    if challenge.v != PROTOCOL_VERSION {
        let d = decimal_string(challenge.v as u64);
        return Err(crate::text::concat3("unsupported challenge version ", &d, " (want 2)"));
    }
    let op = chars_of(challenge.op.as_str());
    let want = chars_of("challenge");
    if !seq_eq(&op, &want) {
        let mut msg = "expected op=challenge, got ".to_owned();
        msg.append(challenge.op.as_str());
        return Err(msg);
    }
    let bytes = match hex_decode(challenge.nonce.as_str()) {
        Ok(b) => b,
        Err(e) => return Err(e),
    };
    if bytes.len() != NONCE_LEN {
        return Err("challenge nonce must be 32 bytes".to_owned());
    }
    let mut nonce = [0u8; NONCE_LEN];
    let mut i: usize = 0;
    while i < NONCE_LEN
        invariant
            bytes@.len() == NONCE_LEN,
            i <= NONCE_LEN,
            forall|k: int| 0 <= k < i ==> nonce@[k] == bytes@[k],
            nonce@.len() == NONCE_LEN,
        decreases NONCE_LEN - i,
    {
        nonce[i] = bytes[i];
        i += 1;
    }
    assert(nonce@ =~= bytes@);
    Ok(nonce)
}


proof fn lemma_hex_of_index(b: Seq<u8>, k: int)
    requires
        0 <= k < b.len(),
    ensures
        hex_of(b).len() == 2 * b.len(),
        hex_of(b)[2 * k] == hex_digit(b[k] as int / 16),
        hex_of(b)[2 * k + 1] == hex_digit(b[k] as int % 16),
    decreases b.len(),
{
    lemma_hex_of_len(b);
    lemma_hex_of_len(b.drop_last());
    if k < b.len() - 1 {
        lemma_hex_of_index(b.drop_last(), k);
    }
}

proof fn lemma_hex_digit_nibble(n: int)
    requires
        0 <= n < 16,
    ensures
        nibble(hex_digit(n) as u8) == Some(n as u8),
        '0' <= hex_digit(n) <= '9' || 'a' <= hex_digit(n) <= 'f',
{
}

/// Every character of `hex_of(b)` is a lowercase hex digit.
proof fn lemma_hex_of_digits(b: Seq<u8>, i: int)
    requires
        0 <= i < hex_of(b).len(),
    ensures
        '0' <= hex_of(b)[i] <= '9' || 'a' <= hex_of(b)[i] <= 'f',
{
    lemma_hex_of_len(b);
    let k = i / 2;
    lemma_hex_of_index(b, k);
    lemma_hex_digit_nibble(b[k] as int / 16);
    lemma_hex_digit_nibble(b[k] as int % 16);
    if i % 2 == 0 {
        assert(i == 2 * k);
    } else {
        assert(i == 2 * k + 1);
    }
}

/// Decoding what `hex_encode` wrote gives the bytes back.
pub proof fn lemma_hex_round_trip(b: Seq<u8>)
    ensures
        hex_decode_spec(hex_of(b)) == Ok::<Seq<u8>, Seq<char>>(b),
{
    let h = hex_of(b);
    lemma_hex_of_len(b);
    if h.len() > 0 {
        lemma_hex_of_digits(b, 0);
        lemma_hex_of_digits(b, h.len() - 1);
    }
    assert(trim_start(h) == h);
    assert(trim_end(h) == h);
    assert(trim(h) == h);
    assert(vstd::utf8::is_ascii_chars(h)) by {
        assert forall|i: int| 0 <= i < h.len() implies '\0' <= #[trigger] h[i] <= '\u{7f}' by {
            lemma_hex_of_digits(b, i);
        }
    }
    vstd::utf8::is_ascii_chars_encode_utf8(h);
    let e = vstd::utf8::encode_utf8(h);
    assert(e.len() == 2 * b.len());
    assert forall|k: int| 0 <= k < b.len() implies nibble(e[2 * k]) == Some((b[k] as int / 16) as u8)
        && nibble(e[2 * k + 1]) == Some((b[k] as int % 16) as u8) by {
        lemma_hex_of_index(b, k);
        lemma_hex_digit_nibble(b[k] as int / 16);
        lemma_hex_digit_nibble(b[k] as int % 16);
        assert(e[2 * k] == h[2 * k] as u8);
        assert(e[2 * k + 1] == h[2 * k + 1] as u8);
    }
    assert(!exists|i: int| 0 <= i < e.len() && (#[trigger] nibble(e[i])) is None) by {
        assert forall|i: int| 0 <= i < e.len() implies !((#[trigger] nibble(e[i])) is None) by {
            let k = i / 2;
            assert(0 <= k < b.len());
            assert(nibble(e[2 * k]) == Some((b[k] as int / 16) as u8));
            assert(nibble(e[2 * k + 1]) == Some((b[k] as int % 16) as u8));
            if i % 2 == 0 {
                assert(i == 2 * k);
            } else {
                assert(i == 2 * k + 1);
            }
        }
    }
    let d = Seq::new(e.len() / 2, |i: int| (nibble(e[2 * i])->0 * 16 + nibble(e[2 * i + 1])->0) as u8);
    assert(d =~= b) by {
        assert forall|k: int| 0 <= k < b.len() implies d[k] == b[k] by {
            assert(nibble(e[2 * k])->0 == (b[k] as int / 16) as u8);
            assert(nibble(e[2 * k + 1])->0 == (b[k] as int % 16) as u8);
        }
    }
}

/// A client that answers a challenge with `hmac_hex(token, nonce)` passes
/// `hmac_verify` with the same token and nonce.
pub proof fn lemma_hmac_answer_verifies(token: Seq<u8>, nonce: Seq<u8>)
    ensures
        hex_decode_spec(hex_of(hmac_sha256_tag(token, nonce))) matches Ok(got) && got
            == hmac_sha256_tag(token, nonce),
{
    lemma_hex_round_trip(hmac_sha256_tag(token, nonce));
}

/// The nonce a client reads back from the challenge for `nonce` is
/// `nonce`.
pub proof fn lemma_challenge_round_trip(c: Challenge, nonce: Seq<u8>)
    requires
        nonce.len() == NONCE_LEN,
        c.v == PROTOCOL_VERSION,
        c.op@ == "challenge"@,
        c.nonce@ == hex_of(nonce),
    ensures
        challenge_nonce_spec(c) == Ok::<Seq<u8>, Seq<char>>(nonce),
{
    lemma_hex_round_trip(nonce);
}
} // verus!
