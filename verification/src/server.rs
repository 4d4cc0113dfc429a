//! Where a coordinator finds its document store.

use vstd::prelude::*;

verus! {

/// The host and port of the document store that a coordinator serves from.
pub struct ServerImpl {
    mongodb_host: String,
    mongodb_port: u16,
}

impl ServerImpl {
    /// The store's host.
    pub closed spec fn host(&self) -> Seq<char> {
        self.mongodb_host@
    }

    /// The store's port.
    pub closed spec fn port(&self) -> u16 {
        self.mongodb_port
    }

    /// Keeps the store's host and port.
    pub fn new(mongodb_host: &str, mongodb_port: u16) -> (server: ServerImpl)
        ensures
            server.host() == mongodb_host@,
            server.port() == mongodb_port,
    {
        ServerImpl { mongodb_host: mongodb_host.to_owned(), mongodb_port }
    }

    /// The store's host.
    pub fn mongodb_host(&self) -> (host: &String)
        ensures
            host@ == self.host(),
    {
        &self.mongodb_host
    }

    /// The store's port.
    pub fn mongodb_port(&self) -> (port: u16)
        ensures
            port == self.port(),
    {
        self.mongodb_port
    }
}

} // verus!
