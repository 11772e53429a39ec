//! Contract addresses are derived by hashing a label.

use vstd::prelude::*;
use sha2::Digest;
use crate::data::ContractAddress;

verus! {

/// The SHA-256 digest of a label; a function of the characters alone.
pub uninterp spec fn sha256_of(label: Seq<char>) -> Seq<u8>;

/// Relies on sha2::Sha256: the 32-byte SHA-256 digest of the label's bytes,
/// a function of its input alone.
#[verifier::external_body]
fn sha256_digest(label: &str) -> (r: ContractAddress)
    ensures
        r@ == sha256_of(label@),
{
    let mut h = sha2::Sha256::new();
    h.update(label.as_bytes());
    h.finalize().into()
}

/// The contract address a label names: its SHA-256 digest.
pub fn address_from_label(label: &str) -> (r: ContractAddress)
    ensures
        r@ == sha256_of(label@),
        r@.len() == 32,
{
    sha256_digest(label)
}

} // verus!
