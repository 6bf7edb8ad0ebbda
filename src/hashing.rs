//! The identity of a configuration: a digest of its canonical serialized
//! bytes, written as lowercase hexadecimal.
use vstd::prelude::*;

verus! {

/// The BLAKE3 digest of `data`, as lowercase hexadecimal text.
pub uninterp spec fn blake3_hex(data: Seq<u8>) -> Seq<char>;

pub open spec fn is_lower_hex_digit(c: char) -> bool {
    ('0' <= c && c <= '9') || ('a' <= c && c <= 'f')
}

/// The shape of every content hash: 64 lowercase hexadecimal digits.
pub open spec fn is_content_hash(s: Seq<char>) -> bool {
    &&& s.len() == 64
    &&& forall|i: int| 0 <= i < s.len() ==> is_lower_hex_digit(#[trigger] s[i])
}

/// Relies on `blake3::hash` and `blake3::Hash::to_hex`: the digest depends on
/// the bytes alone and is written as 32 bytes, two lowercase hex digits each.
#[verifier::external_body]
fn blake3_hex_digest(data: &[u8]) -> (r: String)
    ensures
        r@ == blake3_hex(data@),
        is_content_hash(r@),
{
    blake3::hash(data).to_hex().to_string()
}

/// The content hash of a configuration's serialized bytes. Equal bytes give
/// equal hashes, in every process.
pub fn content_hash(serialized: &Vec<u8>) -> (r: String)
    ensures
        r@ == blake3_hex(serialized@),
        is_content_hash(r@),
{
    blake3_hex_digest(serialized.as_slice())
}

} // verus!
