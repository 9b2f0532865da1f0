//! The slice of the application's configuration that the service consumes:
//! the externally served port and the loopback port of the operator surface.

use vstd::prelude::*;

verus! {

/// Listening ports of the two servers.
#[derive(Clone, Copy, PartialEq, Eq, Structural, Debug)]
pub struct RemoteServer {
    /// Externally served port that devices pair and connect with.
    pub port: u16,
    /// Loopback port of the operator surface.
    pub port_internal: u16,
}

impl Default for RemoteServer {
    fn default() -> (r: Self)
        ensures
            r.port == 5174,
            r.port_internal == 51740,
    {
        RemoteServer { port: 5174, port_internal: 51740 }
    }
}

} // verus!
