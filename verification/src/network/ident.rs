//! Identifiers of players and rooms.

use vstd::prelude::*;

verus! {

/// The bits of an identifier that hold its version and its variant.
pub const ID_FORMAT_MASK: u128 = 0x0000_0000_0000_f000_c000_0000_0000_0000u128;

/// Version 4 (random) in the version bits, the RFC variant in the variant bits.
pub const ID_FORMAT_RANDOM: u128 = 0x0000_0000_0000_4000_8000_0000_0000_0000u128;

/// Whether `id` is laid out as a random (version 4) UUID: the version nibble
/// is 4 and the two variant bits are `10`. The other 122 bits are free.
pub open spec fn is_random_id(id: u128) -> bool {
    id & ID_FORMAT_MASK == ID_FORMAT_RANDOM
}

/// Whether `id` is laid out as a random (version 4) UUID.
pub fn has_random_format(id: u128) -> (b: bool)
    ensures
        b == is_random_id(id),
{
    id & ID_FORMAT_MASK == ID_FORMAT_RANDOM
}

/// Draws a new identifier from `uuid::Uuid::new_v4`, as the 128-bit number
/// that `Uuid::as_u128` gives for it.
///
/// Trusted: the body is not verified. The contract claims only what holds of
/// every draw: `new_v4` masks the random bits so that the version is 4 and
/// the variant is the RFC one. Nothing is claimed about the remaining bits,
/// and in particular not that two draws differ. The call aborts when the
/// operating system cannot supply random bytes.
#[verifier::external_body]
pub(crate) fn fresh_id() -> (id: u128)
    ensures
        is_random_id(id),
{
    uuid::Uuid::new_v4().as_u128()
}

} // verus!
