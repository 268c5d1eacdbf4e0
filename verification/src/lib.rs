//! A small HTTP/1.1 server core: request parsing, routing and response
//! building over plain text and bytes, with every step proved against a
//! mathematical model of the wire format.
//!
//! Nothing here reads or writes a socket or a file. `server` turns the
//! bytes of one connection into what has to be done for them, and the
//! program around the library does the reading and the writing.

pub mod chars;
pub mod compress;
pub mod error;
pub mod headers;
pub mod request;
pub mod response;
pub mod round_trip;
pub mod router;
pub mod server;
pub mod status;
pub mod text;
