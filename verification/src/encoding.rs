//! Byte encodings used in requests: percent-encoding of query values,
//! Base64 of artwork, and the MD5 digest in hexadecimal that signs Last.fm
//! calls.
use vstd::prelude::*;
use crate::text::push_char;
use base64::Engine;

verus! {

broadcast use vstd::string::group_string_axioms;

/// A byte that percent-encoding leaves as it is: an ASCII letter or digit,
/// `-`, `.`, `_` or `~`.
pub open spec fn url_safe(b: u8) -> bool {
    ||| 48 <= b <= 57
    ||| 65 <= b <= 90
    ||| 97 <= b <= 122
    ||| b == 45
    ||| b == 46
    ||| b == 95
    ||| b == 126
}

/// An upper-case hexadecimal digit.
pub open spec fn hex_upper(d: int) -> char {
    if d < 10 {
        (d + 48) as char
    } else {
        (d + 55) as char
    }
}

/// A lower-case hexadecimal digit.
pub open spec fn hex_lower(d: int) -> char {
    if d < 10 {
        (d + 48) as char
    } else {
        (d + 87) as char
    }
}

/// Percent-encoding of bytes: a safe byte as its character, any other as
/// `%` and two upper-case hexadecimal digits.
pub open spec fn url_encode_spec(bs: Seq<u8>) -> Seq<char>
    decreases bs.len(),
{
    if bs.len() == 0 {
        Seq::empty()
    } else {
        let b = bs[0];
        (if url_safe(b) {
            seq![b as char]
        } else {
            seq!['%', hex_upper(b as int / 16), hex_upper(b as int % 16)]
        }) + url_encode_spec(bs.drop_first())
    }
}

/// `urlencoding::encode`: percent-encodes every byte of the UTF-8 text
/// except ASCII letters, digits, `-`, `.`, `_` and `~`, with upper-case
/// hexadecimal digits (so the crate's source and documentation).
#[verifier::external_body]
pub(crate) fn url_encode(s: &str) -> (r: String)
    ensures
        r@ == url_encode_spec(vstd::utf8::encode_utf8(s@)),
{
    urlencoding::encode(s).into_owned()
}

/// The Base64 alphabet of RFC 4648 (`A-Z`, `a-z`, `0-9`, `+`, `/`).
pub open spec fn b64(i: int) -> char {
    if i < 26 {
        (i + 65) as char
    } else if i < 52 {
        (i + 71) as char
    } else if i < 62 {
        (i - 4) as char
    } else if i == 62 {
        '+'
    } else {
        '/'
    }
}

/// Standard Base64 with `=` padding: each three bytes become four
/// characters.
pub open spec fn base64_spec(bs: Seq<u8>) -> Seq<char>
    decreases bs.len(),
{
    if bs.len() == 0 {
        Seq::empty()
    } else if bs.len() == 1 {
        let b0 = bs[0] as int;
        seq![b64(b0 / 4), b64((b0 % 4) * 16), '=', '=']
    } else if bs.len() == 2 {
        let b0 = bs[0] as int;
        let b1 = bs[1] as int;
        seq![b64(b0 / 4), b64((b0 % 4) * 16 + b1 / 16), b64((b1 % 16) * 4), '=']
    } else {
        let b0 = bs[0] as int;
        let b1 = bs[1] as int;
        let b2 = bs[2] as int;
        seq![b64(b0 / 4), b64((b0 % 4) * 16 + b1 / 16), b64((b1 % 16) * 4 + b2 / 64), b64(b2 % 64)]
            + base64_spec(bs.skip(3))
    }
}

/// `base64::engine::general_purpose::STANDARD.encode`: standard alphabet,
/// padded. It panics when the encoded length overflows `usize`, which the
/// `requires` leaves out.
#[verifier::external_body]
pub(crate) fn base64_encode(data: &[u8]) -> (r: String)
    requires
        (data@.len() / 3) * 4 + (if data@.len() % 3 > 0 {
            4int
        } else {
            0int
        }) <= usize::MAX,
    ensures
        r@ == base64_spec(data@),
{
    base64::engine::general_purpose::STANDARD.encode(data)
}

/// The MD5 digest of the bytes.
pub uninterp spec fn md5_digest(data: Seq<u8>) -> Seq<u8>;

/// `md5::compute`: the 16 bytes of the MD5 digest.
#[verifier::external_body]
pub(crate) fn md5_compute(data: &[u8]) -> (r: Vec<u8>)
    ensures
        r@ == md5_digest(data@),
        r@.len() == 16,
{
    md5::compute(data).0.to_vec()
}

/// Each byte as two lower-case hexadecimal digits (`{:02x}`).
pub open spec fn hex_lower_spec(bs: Seq<u8>) -> Seq<char>
    decreases bs.len(),
{
    if bs.len() == 0 {
        Seq::empty()
    } else {
        hex_lower_spec(bs.drop_last()) + seq![
            hex_lower(bs.last() as int / 16),
            hex_lower(bs.last() as int % 16),
        ]
    }
}

fn hex_digit_lower(d: u8) -> (c: char)
    requires
        d < 16,
    ensures
        c == hex_lower(d as int),
{
    if d < 10 {
        (d + 48) as char
    } else {
        (d + 87) as char
    }
}

/// The digest as the `{:x}` text of an `md5::Digest`.
pub fn hex_lower_string(bs: &Vec<u8>) -> (r: String)
    ensures
        r@ == hex_lower_spec(bs@),
{
    let mut r = String::new();
    let mut i: usize = 0;
    while i < bs.len()
        invariant
            i <= bs.len(),
            r@ == hex_lower_spec(bs@.take(i as int)),
        decreases bs.len() - i,
    {
        let b = bs[i];
        push_char(&mut r, hex_digit_lower(b / 16));
        push_char(&mut r, hex_digit_lower(b % 16));
        proof {
            let t = bs@.take(i + 1);
            assert(t.drop_last() =~= bs@.take(i as int));
            assert(t.last() == b);
            assert(r@ =~= hex_lower_spec(t));
        }
        i += 1;
    }
    assert(bs@.take(bs.len() as int) =~= bs@);
    r
}

/// `format!("{:x}", md5::compute(data))`.
pub fn md5_hex(data: &[u8]) -> (r: String)
    ensures
        r@ == hex_lower_spec(md5_digest(data@)),
{
    let d = md5_compute(data);
    hex_lower_string(&d)
}

} // verus!
