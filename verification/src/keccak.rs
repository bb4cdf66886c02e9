//! Keccak-256 and the function selectors that are cut from it.

use tiny_keccak::{Hasher, Keccak};
use vstd::prelude::*;
use vstd::utf8::encode_utf8;

verus! {

/// The Keccak-256 digest of `data`.
pub uninterp spec fn keccak_digest(data: Seq<u8>) -> Seq<u8>;

/// `tiny_keccak::Keccak::v256`, fed with `data` by one `update` and read out by `finalize` into 32
/// bytes. The digest depends on `data` alone.
#[verifier::external_body]
fn tiny_keccak256(data: &[u8]) -> (out: [u8; 32])
    ensures
        out@ == keccak_digest(data@),
{
    let mut hasher = Keccak::v256();
    hasher.update(data);
    let mut out = [0u8; 32];
    hasher.finalize(&mut out);
    out
}

/// The Keccak-256 digest of `data`.
pub fn keccak256(data: &[u8]) -> (out: [u8; 32])
    ensures
        out@ == keccak_digest(data@),
{
    tiny_keccak256(data)
}

/// The four bytes by which a contract call names the function with this signature.
pub open spec fn selector_of(signature: Seq<char>) -> Seq<u8> {
    keccak_digest(encode_utf8(signature)).take(4)
}

/// The first four bytes of the digest of `signature`.
pub fn selector(signature: &str) -> (out: [u8; 4])
    ensures
        out@ == selector_of(signature@),
{
    let h = keccak256(signature.as_bytes());
    let out: [u8; 4] = [h[0], h[1], h[2], h[3]];
    assert(out@ =~= selector_of(signature@));
    out
}

/// The selector of a signature is how the digest of its bytes begins: four bytes, wherever the digest
/// has as many.
pub proof fn law_selector(signature: Seq<char>, i: int)
    requires
        keccak_digest(encode_utf8(signature)).len() == 32,
    ensures
        selector_of(signature).len() == 4,
        0 <= i < 4 ==> selector_of(signature)[i] == keccak_digest(encode_utf8(signature))[i],
{
}

} // verus!
