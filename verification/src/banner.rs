//! Banner records for the service-banner grabbers.  The grabbing itself —
//! TCP, TLS and certificate work — lives in the unverified front end, which
//! fills these records from what the remote service sent.

use vstd::prelude::*;

verus! {

/// One grabbed service banner.
#[derive(Debug, Clone)]
pub struct Banner {
    /// The protocol spoken: `http`, `https` or `ssh`.
    pub protocol: String,
    /// The port the banner came from.
    pub port: u16,
    /// A one-line summary of what the service announced.
    pub summary: String,
}

impl Banner {
    /// Build a banner record.
    pub fn new(protocol: String, port: u16, summary: String) -> (r: Banner)
        ensures
            r.protocol == protocol,
            r.port == port,
            r.summary == summary,
    {
        Banner { protocol, port, summary }
    }
}

} // verus!
