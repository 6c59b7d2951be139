//! The errors of the client.

use vstd::prelude::*;

verus! {

/// Why a read or a write of a stream failed, as far as the client tells failures apart.
#[derive(Clone, Copy, Debug, PartialEq, Eq, Structural)]
pub enum IoErrorKind {
    /// The peer closed the stream in the middle of a read.
    UnexpectedEof,
    /// Any other failure.
    Other,
}

/// What can go wrong on a connection.
#[derive(Debug)]
pub enum HdfsError {
    /// The stream failed.
    IOError(IoErrorKind),
    /// The bytes received are not a valid message.
    InvalidRPCResponse,
    /// The server refused one call: the class of its exception and its message.
    RPCError(String, String),
    /// The server gave up the connection: the class of its exception and its message.
    FatalRPCError(String, String),
    /// A chunk of data does not match its checksum.
    ChecksumError,
    /// The certificates and the key make no TLS client configuration.
    TLSClientConfigError,
    /// The address is not a name that TLS can ask for.
    TLSDNSInvalidError,
}

} // verus!
