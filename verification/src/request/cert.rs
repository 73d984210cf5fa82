//! The certificate policy marker of this library's client: the transport
//! layer accepts every server certificate, in the trust-on-first-use style
//! common to Gemini clients. The TLS plumbing that consults it lives
//! outside this library.

use vstd::prelude::*;

verus! {

/// The accept-every-certificate policy.
pub struct GermVerifier;

impl GermVerifier {
    /// Create the policy value.
    pub fn new() -> GermVerifier {
        GermVerifier
    }
}

} // verus!
