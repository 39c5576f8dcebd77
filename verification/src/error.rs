//! The errors that the library reports.

use crate::types::ResourceId;
use vstd::prelude::*;

verus! {

/// What is wrong with the material of a TLS endpoint.
#[derive(Debug, Clone, Copy, PartialEq, Eq, Structural)]
pub enum ConfigFault {
    /// No server private key was given, or an empty one.
    MissingPrivateKey,
    /// No server certificate was given, or an empty one.
    MissingCertificate,
    /// The private key material could not be read, or holds no key.
    MalformedPrivateKey,
    /// The certificate material could not be read.
    MalformedCertificate,
    /// The `client_auth` option is neither `true` nor `false`.
    MalformedClientAuth,
    /// Client authentication was asked for.
    ClientAuthUnsupported,
}

/// What is wrong with a peer id given as text.
#[derive(Debug, Clone, Copy, PartialEq, Eq, Structural)]
pub enum IdFault {
    /// The text is not an even number of hexadecimal digits.
    NotHexadecimal,
    /// The text holds no byte.
    Empty,
    /// The text holds more bytes than a peer id can.
    TooLong { size: usize },
    /// The id is made of zeros only, which a clock cannot take for its own:
    /// said where a clock is built on the id.
    Zero,
}

/// An error of the library.
#[derive(Debug, Clone, Copy, PartialEq, Eq, Structural)]
pub enum ZError {
    /// A resource key names an id that no declaration has bound.
    UnknownResourceId { rid: ResourceId },
    /// A locator that cannot be read, or whose scheme is not supported.
    InvalidLocator,
    /// A link failed at the transport level.
    LinkFailure,
    /// The material of an endpoint is missing or malformed.
    ConfigError { fault: ConfigFault },
    /// The session has been closed.
    Closed,
    /// A peer id that cannot be used.
    InvalidId { reason: IdFault },
}

/// The result of an operation of the library.
pub type ZResult<T> = Result<T, ZError>;

} // verus!
