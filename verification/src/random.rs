//! The one place this crate draws randomness: fresh 128-bit identifiers.

use vstd::prelude::*;

verus! {

/// Relies on `uuid::Uuid::new_v4`: a fresh random identifier (a version-4
/// UUID, so 122 random bits with six fixed version and variant bits), aborting
/// only if the operating system's random generator fails. Nothing can be
/// promised of a random result, so this has no contract; callers state what
/// holds of every outcome.
#[verifier::external_body]
pub(crate) fn random_u128() -> u128 {
    uuid::Uuid::new_v4().as_u128()
}

} // verus!
