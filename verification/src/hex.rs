//! Hex encoding and decoding for the signed stream-capability URL values.

use vstd::prelude::*;

verus! {

use crate::errors::ServerError;
use vstd::string::StringSliceAdditionalSpecFns;

/// Value of one ASCII hex digit; any other byte counts as zero.
pub open spec fn spec_hex_digit_value(c: u8) -> u8 {
    if 65 <= c && c <= 70 {
        (c - 65 + 10) as u8
    } else if 97 <= c && c <= 102 {
        (c - 97 + 10) as u8
    } else if 48 <= c && c <= 57 {
        (c - 48) as u8
    } else {
        0
    }
}

/// Upper-case ASCII digit for a value below 16.
pub open spec fn spec_hex_upper(n: u8) -> u8
    recommends
        n < 16,
{
    if n < 10 {
        (48 + n) as u8
    } else {
        (65 + (n - 10)) as u8
    }
}

/// Hex encoding of a byte sequence, as ASCII bytes: two upper-case
/// digits per input byte, high nibble first.
pub open spec fn spec_hex_encode(bytes: Seq<u8>) -> Seq<u8> {
    Seq::new(
        bytes.len() * 2,
        |i: int|
            if i % 2 == 0 {
                spec_hex_upper(bytes[i / 2] / 16)
            } else {
                spec_hex_upper(bytes[i / 2] % 16)
            },
    )
}

/// The same encoding viewed as characters, as a `String` holds it.
pub open spec fn spec_hex_encode_chars(bytes: Seq<u8>) -> Seq<char> {
    spec_hex_encode(bytes).map(|_i: int, b: u8| b as char)
}

/// Decoding of an even-length ASCII sequence: each digit pair becomes
/// one byte, with invalid digits counting as zero.
pub open spec fn spec_hex_decode(bytes: Seq<u8>) -> Seq<u8>
    recommends
        bytes.len() % 2 == 0,
{
    Seq::new(
        bytes.len() / 2,
        |i: int| (spec_hex_digit_value(bytes[2 * i]) * 16 + spec_hex_digit_value(
            bytes[2 * i + 1],
        )) as u8,
    )
}

/// Value of one hex digit byte; any other byte counts as zero.
pub fn val(c: u8) -> (v: u8)
    ensures
        v == spec_hex_digit_value(c),
        v < 16,
{
    if 65 <= c && c <= 70 {
        c - 65 + 10
    } else if 97 <= c && c <= 102 {
        c - 97 + 10
    } else if 48 <= c && c <= 57 {
        c - 48
    } else {
        0
    }
}

fn hex_upper(n: u8) -> (d: u8)
    requires
        n < 16,
    ensures
        d == spec_hex_upper(n),
        d < 128,
{
    if n < 10 {
        48 + n
    } else {
        65 + (n - 10)
    }
}

/// Relies on std's `String::from_utf8`: a vector of ASCII bytes is valid
/// UTF-8 and converts to the string of exactly those characters.
#[verifier::external_body]
fn ascii_bytes_to_string(v: Vec<u8>) -> (r: String)
    requires
        forall|i: int| 0 <= i < v@.len() ==> v@[i] < 128,
    ensures
        r@.len() == v@.len(),
        forall|i: int| 0 <= i < v@.len() ==> r@[i] == (v@[i] as char),
{
    match String::from_utf8(v) {
        Ok(s) => s,
        Err(_) => String::new(),
    }
}

/// Encode bytes into a hex string: two upper-case digits per byte.
pub fn encode(bytes: &[u8]) -> (r: String)
    ensures
        r@ == spec_hex_encode_chars(bytes@),
        r@.len() == 2 * bytes@.len(),
{
    let mut out: Vec<u8> = Vec::new();
    let mut i: usize = 0;
    while i < bytes.len()
        invariant
            i <= bytes@.len(),
            out@ == spec_hex_encode(bytes@.subrange(0, i as int)),
            out@.len() == 2 * i,
        decreases bytes@.len() - i,
    {
        let c = bytes[i];
        out.push(hex_upper(c / 16));
        out.push(hex_upper(c % 16));
        i = i + 1;
        proof {
            assert(out@ =~= spec_hex_encode(bytes@.subrange(0, i as int)));
        }
    }
    proof {
        assert(bytes@.subrange(0, bytes@.len() as int) =~= bytes@);
        assert forall|j: int| 0 <= j < out@.len() implies out@[j] < 128 by {
            assert(out@[j] == spec_hex_encode(bytes@)[j]);
            assert(bytes@[j / 2] / 16 < 16 && bytes@[j / 2] % 16 < 16);
        }
    }
    let r = ascii_bytes_to_string(out);
    proof {
        assert(r@ =~= spec_hex_encode_chars(bytes@));
    }
    r
}

/// Decode a hex string to bytes; fails exactly on odd-length input.
pub fn decode(hex_str: &str) -> (r: Result<Vec<u8>, ServerError>)
    ensures
        r is Ok <==> hex_str.spec_bytes().len() % 2 == 0,
        r matches Ok(v) ==> v@ == spec_hex_decode(hex_str.spec_bytes()),
        r matches Err(e) ==> e matches ServerError::ParamsError(_),
{
    let bytes = hex_str.as_bytes();
    if bytes.len() % 2 != 0 {
        return Err(ServerError::ParamsError(String::from_str("Invalid hex string")));
    }
    let mut out: Vec<u8> = Vec::new();
    let mut i: usize = 0;
    while i < bytes.len()
        invariant
            i % 2 == 0,
            i <= bytes@.len(),
            bytes@.len() % 2 == 0,
            bytes@ == hex_str.spec_bytes(),
            out@ == spec_hex_decode(bytes@.subrange(0, i as int)),
            out@.len() == i / 2,
        decreases bytes@.len() - i,
    {
        let hi = val(bytes[i]);
        let lo = val(bytes[i + 1]);
        out.push(hi * 16 + lo);
        i = i + 2;
        proof {
            assert(out@ =~= spec_hex_decode(bytes@.subrange(0, i as int)));
        }
    }
    proof {
        assert(bytes@.subrange(0, bytes@.len() as int) =~= bytes@);
    }
    Ok(out)
}

/// Decoding inverts encoding: reading the two digits of each byte back
/// yields the original byte sequence.
pub proof fn lemma_hex_round_trip(bytes: Seq<u8>)
    ensures
        spec_hex_decode(spec_hex_encode(bytes)) =~= bytes,
{
    let enc = spec_hex_encode(bytes);
    assert forall|i: int| 0 <= i < bytes.len() implies spec_hex_decode(enc)[i] == bytes[i] by {
        assert(enc[2 * i] == spec_hex_upper(bytes[i] / 16));
        assert(enc[2 * i + 1] == spec_hex_upper(bytes[i] % 16));
    }
}

} // verus!
