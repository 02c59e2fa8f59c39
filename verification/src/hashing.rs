//! Content hashing: the MD5 content id and its hexadecimal text form.
//!
//! The engine uses the 128-bit MD5 digest of a tile's bytes, written as 32
//! lower-case hexadecimal characters, both as the deduplication key of the
//! normalized layout and as the integrity token of verification.  The digest
//! itself comes from the `md-5` crate; the hexadecimal encoding is verified
//! here.

use vstd::prelude::*;
use md5::Digest;
use md5::Md5;

verus! {

/// The 16-byte MD5 digest of a byte sequence.
pub uninterp spec fn md5_of(b: Seq<u8>) -> Seq<u8>;

/// Relies on `md5::Md5` of the `md-5` crate: the MD5 digest is 16 bytes
/// and a function of the input bytes alone.
#[verifier::external_body]
fn md5_digest(data: &[u8]) -> (r: Vec<u8>)
    ensures
        r@ == md5_of(data@),
        r@.len() == 16,
{
    Md5::digest(data).as_slice().to_vec()
}

/// The lower-case hexadecimal digit of a value below 16, as an ASCII byte.
pub open spec fn hex_digit(v: u8) -> u8
    recommends
        v < 16,
{
    if v < 10 {
        (0x30 + v) as u8
    } else {
        (0x57 + v) as u8
    }
}

/// The lower-case hexadecimal encoding of a byte sequence: two digits per
/// byte, high digit first.
pub open spec fn hex_of(b: Seq<u8>) -> Seq<u8> {
    Seq::new(
        b.len() * 2,
        |i: int|
            if i % 2 == 0 {
                hex_digit((b[i / 2] / 16) as u8)
            } else {
                hex_digit((b[i / 2] % 16) as u8)
            },
    )
}

/// ASCII bytes read as characters.
pub open spec fn ascii_chars_of(s: Seq<u8>) -> Seq<char> {
    s.map_values(|b: u8| b as char)
}

/// The content id of a byte sequence: its MD5 digest as 32 lower-case
/// hexadecimal characters.
pub open spec fn hash_hex(b: Seq<u8>) -> Seq<char> {
    ascii_chars_of(hex_of(md5_of(b)))
}

fn hex_digit_byte(v: u8) -> (r: u8)
    requires
        v < 16,
    ensures
        r == hex_digit(v),
{
    if v < 10 {
        0x30 + v
    } else {
        0x57 + v
    }
}

/// The single-character string of the lower-case hexadecimal digit of `v`.
fn hex_digit_str(v: u8) -> (r: &'static str)
    requires
        v < 16,
    ensures
        r@.len() == 1,
        r@[0] == hex_digit(v) as char,
{
    proof {
        reveal_strlit("0");
        reveal_strlit("1");
        reveal_strlit("2");
        reveal_strlit("3");
        reveal_strlit("4");
        reveal_strlit("5");
        reveal_strlit("6");
        reveal_strlit("7");
        reveal_strlit("8");
        reveal_strlit("9");
        reveal_strlit("a");
        reveal_strlit("b");
        reveal_strlit("c");
        reveal_strlit("d");
        reveal_strlit("e");
        reveal_strlit("f");
    }
    match v {
        0 => "0",
        1 => "1",
        2 => "2",
        3 => "3",
        4 => "4",
        5 => "5",
        6 => "6",
        7 => "7",
        8 => "8",
        9 => "9",
        10 => "a",
        11 => "b",
        12 => "c",
        13 => "d",
        14 => "e",
        _ => "f",
    }
}

/// Encodes bytes as lower-case hexadecimal ASCII bytes.
pub fn hex_encode_bytes(data: &[u8]) -> (r: Vec<u8>)
    ensures
        r@ == hex_of(data@),
{
    let mut out: Vec<u8> = Vec::new();
    let mut i: usize = 0;
    while i < data.len()
        invariant
            i <= data@.len(),
            out@ == hex_of(data@.take(i as int)),
        decreases data@.len() - i,
    {
        let b = data[i];
        let hi = b >> 4;
        let lo = b & 0x0f;
        proof {
            assert(b >> 4 == b / 16) by (bit_vector);
            assert(b & 0x0f == b % 16) by (bit_vector);
        }
        out.push(hex_digit_byte(hi));
        out.push(hex_digit_byte(lo));
        proof {
            assert(out@ =~= hex_of(data@.take(i + 1)));
        }
        i += 1;
    }
    proof {
        assert(data@.take(data@.len() as int) =~= data@);
    }
    out
}

/// Encodes bytes as a lower-case hexadecimal string.
pub fn hex_encode(data: &[u8]) -> (r: String)
    ensures
        r@ == ascii_chars_of(hex_of(data@)),
{
    let mut out = String::new();
    let mut i: usize = 0;
    while i < data.len()
        invariant
            i <= data@.len(),
            out@ == ascii_chars_of(hex_of(data@.take(i as int))),
        decreases data@.len() - i,
    {
        let b = data[i];
        let hi = b >> 4;
        let lo = b & 0x0f;
        proof {
            assert(b >> 4 == b / 16) by (bit_vector);
            assert(b & 0x0f == b % 16) by (bit_vector);
        }
        out.append(hex_digit_str(hi));
        out.append(hex_digit_str(lo));
        proof {
            assert(out@ =~= ascii_chars_of(hex_of(data@.take(i + 1))));
        }
        i += 1;
    }
    proof {
        assert(data@.take(data@.len() as int) =~= data@);
    }
    out
}

/// The content id of `data` as ASCII bytes, for feeding into a further
/// digest.
pub fn md5_hex_ascii(data: &[u8]) -> (r: Vec<u8>)
    ensures
        r@ == hex_of(md5_of(data@)),
{
    let digest = md5_digest(data);
    hex_encode_bytes(digest.as_slice())
}

/// The content id of `data`: its MD5 digest as 32 lower-case hexadecimal
/// characters.
pub fn md5_hex(data: &[u8]) -> (r: String)
    ensures
        r@ == hash_hex(data@),
        r@.len() == 32,
{
    let digest = md5_digest(data);
    hex_encode(digest.as_slice())
}

} // verus!
