//! Content hashing: the digest that addresses every stored payload.

use vstd::prelude::*;

verus! {

/// The digest of a payload, written as a hexadecimal string. The digest is a
/// pure function of the payload bytes: the same bytes always give the same
/// string, on every run and every platform.
pub uninterp spec fn digest_hex_of(payload: Seq<u8>) -> Seq<char>;

/// Relies on scrypto::crypto::hash (Blake2b-256 of the bytes) and on the
/// `Display` of its `Hash` type, which hex-encodes the 32 digest bytes: the
/// result is 64 characters and depends on the payload bytes alone.
#[verifier::external_body]
pub(crate) fn content_hash_hex(payload: &Vec<u8>) -> (r: String)
    ensures
        r@ == digest_hex_of(payload@),
        r@.len() == 64,
{
    scrypto::crypto::hash(payload.as_slice()).to_string()
}

} // verus!
