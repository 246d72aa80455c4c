//! The deterministic report identifier.
//!
//! A report's identifier is the SHA-2-256 digest of the SCALE encoding of
//! (submitter, accused, activity ids, timestamp). The digest is computed
//! by the `ink` environment; its value is named here and never restated.

use vstd::prelude::*;
use crate::account::AccountId;

verus! {

pub uninterp spec fn report_digest(
    reporter: Seq<u8>,
    accused: Seq<u8>,
    activity_ids: Seq<u8>,
    timestamp: u64,
) -> Seq<u8>;

/// Relies on `ink::env::hash_encoded::<Sha2x256, _>`: the SHA-2-256 digest
/// of the SCALE encoding of the argument tuple, a 32-byte value that
/// depends on the arguments alone.
#[verifier::external_body]
pub(crate) fn compute_report_id(
    reporter: &AccountId,
    accused: &AccountId,
    activity_ids: &Vec<u8>,
    timestamp: u64,
) -> (r: [u8; 32])
    ensures
        r@ == report_digest(reporter@, accused@, activity_ids@, timestamp),
{
    let encodable = (
        ink::primitives::AccountId::from(reporter.bytes),
        ink::primitives::AccountId::from(accused.bytes),
        activity_ids.clone(),
        timestamp,
    );
    let mut output = <ink::env::hash::Sha2x256 as ink::env::hash::HashOutput>::Type::default();
    ink::env::hash_encoded::<ink::env::hash::Sha2x256, _>(&encodable, &mut output);
    output
}

} // verus!
