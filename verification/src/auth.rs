//! The identity authenticator: a process-scoped secret key and a keyed
//! authentication tag over player identifiers. Tokens are unforgeable without
//! the key yet need no server-side storage.

use vstd::prelude::*;

verus! {

/// The length in bytes of the process secret key.
pub const KEY_LEN: usize = 32;

/// The length in bytes of an authentication tag.
pub const TAG_LEN: usize = 32;

/// The BLAKE2b-256 keyed-mode authentication tag over the 16 big-endian bytes
/// of `data` under `key`. It is a pure function of the key and the data; its
/// bits are left abstract, since no contract of this crate depends on them.
pub uninterp spec fn mac_of(key: Seq<u8>, data: u128) -> Seq<u8>;

/// Relies on `orion::auth::authenticate` (BLAKE2b-256 in keyed mode): the tag
/// is 32 bytes and depends on the key and the authenticated bytes alone.
#[verifier::external_body]
pub(crate) fn auth_tag(key: &Vec<u8>, data: u128) -> (r: Vec<u8>)
    requires
        key@.len() == KEY_LEN,
    ensures
        r@ == mac_of(key@, data),
        r@.len() == TAG_LEN,
{
    let sk = orion::auth::SecretKey::try_from(key.as_slice()).expect("key length was checked");
    let tag = orion::auth::authenticate(&sk, &data.to_be_bytes()).expect("key length was checked");
    let bytes: &[u8] = tag.unprotected_as_ref();
    bytes.to_vec()
}

/// Relies on `orion::auth::authenticate_verify`: verification succeeds exactly
/// when the presented tag equals the keyed-mode tag of the data under the key.
#[verifier::external_body]
pub(crate) fn auth_verify(key: &Vec<u8>, data: u128, tag: &Vec<u8>) -> (r: bool)
    requires
        key@.len() == KEY_LEN,
    ensures
        r == (tag@ == mac_of(key@, data)),
{
    let sk = match orion::auth::SecretKey::try_from(key.as_slice()) {
        Ok(k) => k,
        Err(_) => return false,
    };
    let t = match orion::auth::Tag::try_from(tag.as_slice()) {
        Ok(t) => t,
        Err(_) => return false,
    };
    orion::auth::authenticate_verify(&t, &sk, &data.to_be_bytes()).is_ok()
}

/// Relies on `orion::auth::SecretKey::generate`: a fresh 32-byte key from the
/// operating system's random generator, or `None` when that generator fails.
#[verifier::external_body]
pub fn generate_secret_key() -> (r: Option<Vec<u8>>)
    ensures
        r is Some ==> r.unwrap()@.len() == KEY_LEN,
{
    match orion::auth::SecretKey::generate() {
        Ok(k) => {
            let bytes: &[u8] = k.unprotected_as_ref();
            Some(bytes.to_vec())
        },
        Err(_) => None,
    }
}

} // verus!
