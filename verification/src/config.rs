//! Connection configuration as plain values, and the errors of client
//! construction.

use vstd::prelude::*;

verus! {

/// The parameters a client is built from: a server address string
/// (`host` or `host:port`), a credential, and an application name.
pub struct ClientConfig {
    pub host: String,
    pub username: String,
    pub password: String,
    pub app_name: String,
}

/// The fixed demo configuration: a local server, an administrator
/// credential, and an application name.
pub fn demo_config() -> (c: ClientConfig)
    ensures
        c.host@ == "localhost:27017"@,
        c.username@ == "mongoadmin"@,
        c.password@ == "secret"@,
        c.app_name@ == "My App"@,
{
    ClientConfig {
        host: String::from_str("localhost:27017"),
        username: String::from_str("mongoadmin"),
        password: String::from_str("secret"),
        app_name: String::from_str("My App"),
    }
}

/// Why building a client failed.
#[derive(Clone, Copy, PartialEq, Eq, Structural, Debug)]
pub enum ClientError {
    /// The server address string could not be parsed.
    InvalidAddress,
    /// The driver rejected the assembled client options.
    Construction,
}

impl ClientError {
    /// A short description of the failure.
    pub fn message(&self) -> (r: String)
        ensures
            *self == ClientError::InvalidAddress ==> r@ == "invalid server address"@,
            *self == ClientError::Construction ==> r@ == "failed to construct client"@,
    {
        match self {
            ClientError::InvalidAddress => String::from_str("invalid server address"),
            ClientError::Construction => String::from_str("failed to construct client"),
        }
    }
}

} // verus!
