//! The order-signal lights: smart relays addressed by IP.
//!
//! Switching a light is an HTTP call made outside the engine; the engine's
//! part is the light's identity.

use vstd::prelude::*;

verus! {

/// One signal light, addressed by IP.
pub struct Light {
    ip: String,
}

impl Light {
    /// The light's address.
    pub closed spec fn spec_ip(&self) -> Seq<char> {
        self.ip@
    }
}

/// The light at `ip`.
pub fn new_light(ip: String) -> (r: Light)
    ensures
        r.spec_ip() == ip@,
{
    Light { ip }
}

} // verus!
