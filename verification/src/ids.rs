use vstd::prelude::*;

verus! {

/// Whether `id` is laid out as a random (version 4, RFC 4122 variant) UUID:
/// the version nibble is 4 and the two variant bits are `10`.
pub open spec fn is_random_uuid(id: u128) -> bool {
    (id >> 76u128) & 0xfu128 == 4 && (id >> 62u128) & 0x3u128 == 2
}

/// A fresh identifier for an object: `uuid::Uuid::new_v4`, taken as the
/// 128-bit number `Uuid::as_u128` gives. The value comes from the operating
/// system's random number generator; the contract claims only the version
/// and variant bits that `new_v4` sets on every value.
#[verifier::external_body]
pub(crate) fn new_object_id() -> (id: u128)
    ensures
        is_random_uuid(id),
{
    uuid::Uuid::new_v4().as_u128()
}

} // verus!
