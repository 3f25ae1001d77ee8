//! Digests of bytes, and their spelling.

use md5::{Digest, Md5};

use vstd::prelude::*;

use crate::text::{digit, digit_char};

verus! {

/// The MD5 digest that the `md-5` crate computes.
pub uninterp spec fn md5_digest(data: Seq<u8>) -> Seq<u8>;

/// `Md5::digest` of the `md-5` crate: the sixteen bytes of the MD5 digest of
/// some bytes, which are a function of those bytes.
#[verifier::external_body]
pub(crate) fn md5(data: &[u8]) -> (digest: [u8; 16])
    ensures
        digest@ == md5_digest(data@),
{
    Md5::digest(data).into()
}

/// Two digits for each byte, in lower case.
pub open spec fn hex_digits(bytes: Seq<u8>, count: int) -> Seq<char>
    decreases count,
{
    if count <= 0 {
        seq![]
    } else {
        hex_digits(bytes, count - 1).push(digit(bytes[count - 1] as int / 16)).push(
            digit(bytes[count - 1] as int % 16),
        )
    }
}

/// Two digits for each byte, in lower case.
pub open spec fn hex_text(bytes: Seq<u8>) -> Seq<char> {
    hex_digits(bytes, bytes.len() as int)
}

/// Returns two digits for each byte, in lower case.
pub fn hex(bytes: &[u8]) -> (text: String)
    ensures
        text@ == hex_text(bytes@),
{
    let mut text = String::new();
    let mut index: usize = 0;
    assert(text@ =~= seq![]);
    while index < bytes.len()
        invariant
            index <= bytes@.len(),
            text@ == hex_digits(bytes@, index as int),
        decreases bytes.len() - index,
    {
        text.push(digit_char(bytes[index] / 16));
        text.push(digit_char(bytes[index] % 16));
        index += 1;
    }
    text
}

} // verus!
