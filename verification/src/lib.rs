//! A request-pipeline authentication library: a token codec that signs and
//! verifies claims with an HMAC, an authentication middleware decision
//! function, and the login / protected route handlers, all with verified
//! contracts. An HTTP front end drives these functions from its own crate.

pub mod auth;
pub mod hexenc;
pub mod json;
pub mod laws;
pub mod mac;
pub mod profiles;
pub mod session;
pub mod status;
pub mod token;

use vstd::prelude::*;

verus! {

} // verus!
