//! The client facade: a server endpoint, from which each call runs one
//! session. The driving loop around the socket lives outside the
//! library; the facade only holds the configuration a session starts
//! from.
use vstd::prelude::*;

verus! {

/// A client bound to one server name and service port.
#[derive(Debug, Clone)]
pub struct ClienteTFTP {
    pub server: String,
    pub port: u16,
}

impl ClienteTFTP {
    /// A client for the given server address and port.
    pub fn new(server: &str, port: u16) -> (c: ClienteTFTP)
        ensures
            c.server@ == server@,
            c.port == port,
    {
        ClienteTFTP { server: server.to_owned(), port }
    }
}

} // verus!
