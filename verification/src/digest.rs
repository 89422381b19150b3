//! SHA-256 digests of content.
use crate::number::is_digit;
use crate::text::glue;
use sha2::{Digest, Sha256};
use vstd::prelude::*;

verus! {

/// The SHA-256 hash of the bytes in hexadecimal.
pub uninterp spec fn sha256_hex(data: Seq<u8>) -> Seq<char>;

/// A hexadecimal digit in lower case.
pub open spec fn is_hex_digit(c: char) -> bool {
    is_digit(c) || 'a' <= c <= 'f'
}

/// `Sha256::digest` and the lower-case hexadecimal form of its result: a function of
/// the bytes, 64 lower-case hexadecimal digits long.
#[verifier::external_body]
pub(crate) fn hash_hex(data: &[u8]) -> (hex: String)
    ensures
        hex@ == sha256_hex(data@),
        hex@.len() == 64,
        forall|i: int| 0 <= i < hex@.len() ==> is_hex_digit(#[trigger] hex@[i]),
{
    format!("{:x}", Sha256::digest(data))
}

/// The digest by which content is stored and verified.
pub open spec fn digest_of(data: Seq<u8>) -> Seq<char> {
    "sha256:"@ + sha256_hex(data)
}

/// The hexadecimal hash of a file's content.
pub fn hash_content(data: &[u8]) -> (hex: String)
    ensures
        hex@ == sha256_hex(data@),
        hex@.len() == 64,
        forall|i: int| 0 <= i < hex@.len() ==> is_hex_digit(#[trigger] hex@[i]),
{
    hash_hex(data)
}

/// The digest by which content is stored and verified.
pub fn content_digest(data: &[u8]) -> (digest: String)
    ensures
        digest@ == digest_of(data@),
        is_content_digest(digest@),
{
    let hex = hash_hex(data);
    let digest = glue("sha256:", &hex);
    proof {
        reveal_strlit("sha256:");
        assert(digest@.take(7) =~= "sha256:"@);
        assert forall|i: int| 7 <= i < 71 implies is_hex_digit(#[trigger] digest@[i]) by {
            assert(digest@[i] == hex@[i - 7]);
        }
    }
    digest
}

/// The digest of content: the algorithm and 64 hexadecimal digits.
pub open spec fn is_content_digest(digest: Seq<char>) -> bool {
    &&& digest.len() == 71
    &&& digest.take(7) == "sha256:"@
    &&& forall|i: int| 7 <= i < 71 ==> is_hex_digit(#[trigger] digest[i])
}

/// Content is known by its hash, after the name of the algorithm: content of one digest has
/// one hash.
pub proof fn digests_are_named_hashes(one: Seq<u8>, other: Seq<u8>)
    ensures
        digest_of(one) == "sha256:"@ + sha256_hex(one),
        digest_of(one) == digest_of(other) <==> sha256_hex(one) == sha256_hex(other),
{
    let front = "sha256:"@;
    assert(digest_of(one).skip(front.len() as int) =~= sha256_hex(one));
    assert(digest_of(other).skip(front.len() as int) =~= sha256_hex(other));
}

} // verus!
