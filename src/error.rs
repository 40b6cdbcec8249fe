//! The error type shared by both engines.
use vstd::prelude::*;

verus! {

#[verifier::external_type_specification]
#[verifier::external_body]
pub struct ExIoError(std::io::Error);

#[verifier::external_type_specification]
#[verifier::external_body]
pub struct ExJsonError(serde_json::Error);

#[verifier::external_type_specification]
#[verifier::external_body]
pub struct ExFromUtf8Error(std::string::FromUtf8Error);

#[verifier::external_type_specification]
#[verifier::external_body]
pub struct ExSledError(sled::Error);

/// Errors of the key-value engines.
#[derive(Debug)]
pub enum KvsError {
    /// An underlying file or socket operation failed.
    IOError(std::io::Error),
    /// A record or a wire message could not be encoded or decoded.
    SerdeError(serde_json::Error),
    /// `remove` was called on a key that is not stored.
    KeyNotFoundError,
    /// The log contradicts the index (a live location does not hold a `Set`
    /// record of its key).
    UnknownError,
    /// A stored value is not valid UTF-8.
    Utf8Error(std::string::FromUtf8Error),
    /// The embedded tree engine failed.
    SledError(sled::Error),
    /// Any other failure, with its message.
    StringError(String),
}

impl From<std::io::Error> for KvsError {
    fn from(err: std::io::Error) -> Self {
        KvsError::IOError(err)
    }
}

impl vstd::std_specs::convert::FromSpecImpl<std::io::Error> for KvsError {
    open spec fn obeys_from_spec() -> bool {
        true
    }

    open spec fn from_spec(v: std::io::Error) -> KvsError {
        KvsError::IOError(v)
    }
}

impl From<serde_json::Error> for KvsError {
    fn from(err: serde_json::Error) -> Self {
        KvsError::SerdeError(err)
    }
}

impl vstd::std_specs::convert::FromSpecImpl<serde_json::Error> for KvsError {
    open spec fn obeys_from_spec() -> bool {
        true
    }

    open spec fn from_spec(v: serde_json::Error) -> KvsError {
        KvsError::SerdeError(v)
    }
}

impl From<std::string::FromUtf8Error> for KvsError {
    fn from(err: std::string::FromUtf8Error) -> Self {
        KvsError::Utf8Error(err)
    }
}

impl vstd::std_specs::convert::FromSpecImpl<std::string::FromUtf8Error> for KvsError {
    open spec fn obeys_from_spec() -> bool {
        true
    }

    open spec fn from_spec(v: std::string::FromUtf8Error) -> KvsError {
        KvsError::Utf8Error(v)
    }
}

impl From<sled::Error> for KvsError {
    fn from(err: sled::Error) -> Self {
        KvsError::SledError(err)
    }
}

impl vstd::std_specs::convert::FromSpecImpl<sled::Error> for KvsError {
    open spec fn obeys_from_spec() -> bool {
        true
    }

    open spec fn from_spec(v: sled::Error) -> KvsError {
        KvsError::SledError(v)
    }
}

} // verus!
