//! The keyed message-authentication primitive behind the token codec. The
//! computation itself comes from the hmac and sha2 crates; this module only
//! names its result, so that the codec's contracts can speak about it.

use vstd::prelude::*;

verus! {

/// The HMAC-SHA-256 tag of a message under a key. The tag is a pure function
/// of the two arguments; nothing further is assumed about its value.
pub uninterp spec fn mac_of(key: Seq<u8>, msg: Seq<char>) -> Seq<u8>;

/// Relies on hmac's `Hmac<Sha256>` (`new_from_slice`, `update`, `finalize`):
/// the tag is deterministic in the key and the message bytes alone, and key
/// initialization accepts keys of any length.
#[verifier::external_body]
pub(crate) fn hmac_sha256(key: &[u8], msg: &str) -> (r: Vec<u8>)
    ensures
        r@ == mac_of(key@, msg@),
{
    let mut m = <hmac::Hmac<sha2::Sha256> as hmac::KeyInit>::new_from_slice(key)
        .expect("HMAC accepts keys of any length");
    <hmac::Hmac<sha2::Sha256> as hmac::Mac>::update(&mut m, msg.as_bytes());
    let out = <hmac::Hmac<sha2::Sha256> as hmac::Mac>::finalize(m);
    out.into_bytes().as_slice().to_vec()
}

} // verus!
