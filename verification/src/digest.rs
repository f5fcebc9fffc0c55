//! SHA-256 digests, computed by the `sha256` crate.

use vstd::prelude::*;

verus! {

/// The SHA-256 digest of `data` in hexadecimal, as `sha256::digest` returns
/// it.
pub uninterp spec fn sha256_hex(data: Seq<u8>) -> Seq<char>;

/// Calls `sha256::digest` on a byte slice. That function hashes the bytes
/// with SHA-256 and writes the digest in hexadecimal, so the text depends on
/// the bytes alone: it is the name `sha256_hex` of them. Nothing more is
/// claimed of it.
#[verifier::external_body]
pub(crate) fn hex_digest(data: &[u8]) -> (hex: String)
    ensures
        hex@ == sha256_hex(data@),
{
    sha256::digest(data)
}

} // verus!
