//! SHA-256 digests and their textual form.

use sha2::Digest;
use vstd::prelude::*;
use vstd::string::StringExecFns;

verus! {

/// The SHA-256 digest of a byte sequence.
pub uninterp spec fn sha256(bytes: Seq<u8>) -> Seq<u8>;

/// `sha2::Sha256::digest`: the digest depends on the bytes alone and is
/// always 32 bytes long.
#[verifier::external_body]
pub(crate) fn sha256_digest(bytes: &[u8]) -> (result: Vec<u8>)
    ensures
        result@ == sha256(bytes@),
        result@.len() == 32,
{
    sha2::Sha256::digest(bytes).to_vec()
}

/// The hexadecimal digit with this value.
pub open spec fn hex_digit(value: int) -> char {
    if value < 10 {
        ((value as u8) + 48) as u8 as char
    } else {
        ((value as u8) + 87) as u8 as char
    }
}

/// Two lower-case hexadecimal digits for each byte.
pub open spec fn hex(bytes: Seq<u8>) -> Seq<char> {
    Seq::new(
        2 * bytes.len(),
        |i: int|
            if i % 2 == 0 {
                hex_digit((bytes[i / 2] / 16) as int)
            } else {
                hex_digit((bytes[i / 2] % 16) as int)
            },
    )
}

fn hex_char(value: u8) -> (result: char)
    requires
        value < 16,
    ensures
        result == hex_digit(value as int),
{
    if value < 10 {
        (value + 48u8) as char
    } else {
        (value + 87u8) as char
    }
}

pub fn hex_text(bytes: &Vec<u8>) -> (result: String)
    ensures
        result@ == hex(bytes@),
{
    let mut result = String::new();
    let mut i: usize = 0;
    while i < bytes.len()
        invariant
            i <= bytes@.len(),
            result@ == hex(bytes@.take(i as int)),
        decreases bytes@.len() - i,
    {
        let byte = bytes[i];
        result.push(hex_char(byte / 16));
        result.push(hex_char(byte % 16));
        i = i + 1;
        proof {
            assert(result@ =~= hex(bytes@.take(i as int)));
        }
    }
    proof {
        assert(bytes@.take(i as int) =~= bytes@);
    }
    result
}

/// The textual digest: the algorithm's name, a colon, and the digest in
/// hexadecimal notation.
pub open spec fn digest_of(bytes: Seq<u8>) -> Seq<char> {
    "sha256:"@ + hex(sha256(bytes))
}

/// The revision of exact document bytes.
pub fn revision(bytes: &[u8]) -> (result: String)
    ensures
        result@ == digest_of(bytes@),
{
    let mut result = "sha256:".to_owned();
    result.append(hex_text(&sha256_digest(bytes)).as_str());
    result
}

} // verus!
