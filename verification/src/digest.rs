use vstd::prelude::*;

verus! {

/// The md5 digest of a byte sequence, rendered as lowercase hexadecimal
/// characters. The digest is a mathematical function of the bytes alone;
/// its value is computed only by the external hash implementation, so this
/// name stands for it without restating the algorithm.
pub uninterp spec fn md5_hex_of(bytes: Seq<u8>) -> Seq<char>;

/// A lowercase hexadecimal digit.
pub open spec fn is_lower_hex_digit(c: char) -> bool {
    ('0' <= c && c <= '9') || ('a' <= c && c <= 'f')
}

/// Relies on md5::compute (md5 crate), which hashes the full byte slice —
/// a pure function of the input bytes — and on the crate's `LowerHex`
/// rendering of the sixteen digest bytes, two zero-padded lowercase
/// hexadecimal digits per byte.
#[verifier::external_body]
fn md5_hex(data: &Vec<u8>) -> (r: String)
    ensures
        r@ == md5_hex_of(data@),
        r@.len() == 32,
        forall|k: int| 0 <= k < r@.len() ==> is_lower_hex_digit(#[trigger] r@[k]),
{
    let digest = md5::compute(data.as_slice());
    format!("{:x}", digest)
}

/// Compute the content digest used as the index key: the md5 of `data` as
/// a fixed-width string of 32 lowercase hexadecimal digits.
pub fn compute_md5(data: &Vec<u8>) -> (r: String)
    ensures
        r@ == md5_hex_of(data@),
        r@.len() == 32,
        forall|k: int| 0 <= k < r@.len() ==> is_lower_hex_digit(#[trigger] r@[k]),
{
    md5_hex(data)
}

/// Law (deterministic digest): the digest is a function of the byte
/// content alone, so equal byte sequences always render to equal hex
/// strings, in any run.
pub proof fn lemma_digest_deterministic(a: Seq<u8>, b: Seq<u8>)
    requires
        a == b,
    ensures
        md5_hex_of(a) == md5_hex_of(b),
{
}

} // verus!
