//! Error taxonomy of the protocol.
//!
//! Every fallible operation of the library reports one of these variants;
//! the payload is a human-readable message that never carries internal
//! details across the wire.

use vstd::prelude::*;

verus! {

/// The closed set of error kinds of the protocol.
#[derive(Debug, Clone)]
pub enum Error {
    /// Cryptographic operation failed
    Crypto(String),
    /// Hardware authentication failed
    HardwareAuth(String),
    /// Protocol violation or invalid message
    Protocol(String),
    /// Network transport error
    Transport(String),
    /// Authentication or authorization error
    Auth(String),
    /// File operation error
    File(String),
    /// Configuration error
    Config(String),
    /// Audit/logging error
    Audit(String),
    /// System resource error
    System(String),
    /// Timeout error
    Timeout(String),
    /// Invalid input or parameter
    InvalidInput(String),
    /// Internal error
    Internal(String),
}

impl Error {
    /// The message carried by the error, whatever its kind.
    pub fn message(&self) -> (r: &String)
        ensures
            r@ == self.spec_message(),
    {
        match self {
            Error::Crypto(m) => m,
            Error::HardwareAuth(m) => m,
            Error::Protocol(m) => m,
            Error::Transport(m) => m,
            Error::Auth(m) => m,
            Error::File(m) => m,
            Error::Config(m) => m,
            Error::Audit(m) => m,
            Error::System(m) => m,
            Error::Timeout(m) => m,
            Error::InvalidInput(m) => m,
            Error::Internal(m) => m,
        }
    }

    /// The message of the error, as a sequence of characters.
    pub open spec fn spec_message(&self) -> Seq<char> {
        match self {
            Error::Crypto(m) => m@,
            Error::HardwareAuth(m) => m@,
            Error::Protocol(m) => m@,
            Error::Transport(m) => m@,
            Error::Auth(m) => m@,
            Error::File(m) => m@,
            Error::Config(m) => m@,
            Error::Audit(m) => m@,
            Error::System(m) => m@,
            Error::Timeout(m) => m@,
            Error::InvalidInput(m) => m@,
            Error::Internal(m) => m@,
        }
    }
}

/// Result type used throughout the library.
pub type LsftpResult<T> = Result<T, Error>;

} // verus!
