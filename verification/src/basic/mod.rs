//! A hub that gives no notice of its channels, and the shell of a server around it.

pub mod pubsub;

use vstd::prelude::*;

pub use self::pubsub::PubSub;

verus! {

/// What a server is started with.
pub struct Config {
    port: u16,
}

impl Config {
    /// The port to listen on.
    pub closed spec fn port(self) -> u16 {
        self.port
    }

    /// A server on `port`.
    pub fn new(port: u16) -> (config: Self)
        ensures
            config.port() == port,
    {
        Config { port }
    }
}

/// A server that does nothing yet, so it keeps nothing of its configuration.
pub struct Server {}

impl Server {
    /// A server.
    pub fn new(config: Config) -> (server: Self)
        ensures
            server == (Server {  }),
    {
        Self {  }
    }
}

} // verus!
