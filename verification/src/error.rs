//! What can go wrong, at start-up and while a request is served.

use vstd::prelude::*;

verus! {

/// HTTP status of a request that the caller got wrong.
pub const STATUS_BAD_REQUEST: u16 = 400;

/// HTTP status of a request that failed on the server's side.
pub const STATUS_INTERNAL_SERVER_ERROR: u16 = 500;

/// Exit code of a process that could not start.
pub const EXIT_FAILURE: i32 = 1;

/// A failure while one request is served. It ends that request and nothing
/// else: the service goes on with the next one.
#[derive(Debug, Clone, Copy, PartialEq, Eq, Structural)]
pub enum ServiceError {
    /// The body was not a JSON object with an `email` string.
    MalformedRequest,
    /// The key file is gone or could not be read.
    KeyFileUnreadable,
    /// The key file does not hold a valid Ed25519 private key in PKCS#8.
    KeyFileMalformed,
}

impl ServiceError {
    /// Whether the caller is at fault rather than the server.
    pub open spec fn is_client_error(self) -> bool {
        self == ServiceError::MalformedRequest
    }

    /// The HTTP status that stands for this error.
    pub open spec fn status_of(self) -> u16 {
        if self.is_client_error() {
            STATUS_BAD_REQUEST
        } else {
            STATUS_INTERNAL_SERVER_ERROR
        }
    }

    /// The HTTP status to answer with: 400 for a malformed request, 500 for
    /// either key failure.
    pub fn status(&self) -> (code: u16)
        ensures
            code == self.status_of(),
    {
        match self {
            ServiceError::MalformedRequest => STATUS_BAD_REQUEST,
            ServiceError::KeyFileUnreadable => STATUS_INTERNAL_SERVER_ERROR,
            ServiceError::KeyFileMalformed => STATUS_INTERNAL_SERVER_ERROR,
        }
    }

    /// The text to put in the error body. It is one of two fixed strings, so
    /// it cannot carry a file path or any byte of a key.
    pub fn public_message(&self) -> (message: &'static str)
        ensures
            self.is_client_error() ==> message@ == "malformed request"@,
            !self.is_client_error() ==> message@ == "internal server error"@,
    {
        match self {
            ServiceError::MalformedRequest => "malformed request",
            ServiceError::KeyFileUnreadable => "internal server error",
            ServiceError::KeyFileMalformed => "internal server error",
        }
    }
}

/// A failure at start-up. It is fatal: the process exits before it binds a
/// socket.
#[derive(Debug, Clone, Copy, PartialEq, Eq, Structural)]
pub enum ConfigurationError {
    /// No key file path was given on the command line.
    MissingKeyPath,
    /// Nothing exists at the key file path.
    KeyFileNotFound,
}

impl ConfigurationError {
    /// The exit code of the process: never zero.
    pub fn exit_code(&self) -> (code: i32)
        ensures
            code == EXIT_FAILURE,
            code != 0,
    {
        EXIT_FAILURE
    }
}

} // verus!
