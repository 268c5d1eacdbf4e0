//! What can go wrong while one connection is served.
//!
//! An error is no answer: the connection on which it came up is closed
//! without a response, and no other connection is touched by it. What a
//! client is told in a response of its own is `NotFound` alone.

use crate::request::RequestError;
use vstd::prelude::*;

verus! {

/// Why a connection got no answer.
#[derive(Clone, Copy, Debug, PartialEq, Eq, Structural)]
pub enum ServerError {
    /// The connection could not be read or written, or a file not written.
    IOError,
    /// The bytes that came are not text.
    ParseError,
    /// The text that came is not a request.
    RequestError(RequestError),
    /// The request names no user agent.
    UserAgentError,
    /// The server was started without a directory for its files.
    InvalidFileDirectory,
    /// The body could not be compressed.
    CompressionError,
}

} // verus!
