//! Error kinds of the node, and their mapping onto BEP-5 wire error codes.

use vstd::prelude::*;

verus! {

/// Everything that can go wrong inside the node or at its edges.
#[derive(Clone, Copy, PartialEq, Eq, Structural, Debug)]
pub enum ErrorKind {
    /// Binding the UDP socket failed; fatal to start-up.
    BindError,
    /// A UDP send returned an OS error.
    SendError,
    /// No response arrived within the per-request deadline.
    RequestTimeout,
    /// A response did not match the shape the query expects.
    InvalidResponse,
    /// An `announce_peer` token failed verification.
    InvalidToken,
    /// An `announce_peer` carried neither `implied_port` nor a port.
    InsufficientAddress,
    /// A query of a kind this node does not implement.
    UnimplementedRequestType,
    /// A panic was observed while a shared store was held.
    LockPoisoned,
    /// A datagram arrived from a non-IPv4 origin.
    UnsupportedAddressFamily,
    /// A transaction id was registered while already in flight.
    DuplicateTransaction,
    /// A routing-table bucket was full and not splittable.
    BucketFull,
    /// A datagram could not be decoded at all.
    MalformedMessage,
    /// A decoded query names an unknown query type.
    UnknownQueryType,
    /// A decoded message lacks a field its type requires.
    MissingRequiredField,
}

/// The BEP-5 error code a server-side failure is reported under:
/// 203 for malformed input, 204 for an unknown method, 201 otherwise.
pub open spec fn spec_request_error_code(kind: ErrorKind) -> u32 {
    match kind {
        ErrorKind::MalformedMessage => 203,
        ErrorKind::MissingRequiredField => 203,
        ErrorKind::UnknownQueryType => 204,
        ErrorKind::UnimplementedRequestType => 204,
        _ => 201,
    }
}

/// The wire error code for `kind`.
pub fn request_error_code(kind: ErrorKind) -> (r: u32)
    ensures
        r == spec_request_error_code(kind),
{
    match kind {
        ErrorKind::MalformedMessage => 203,
        ErrorKind::MissingRequiredField => 203,
        ErrorKind::UnknownQueryType => 204,
        ErrorKind::UnimplementedRequestType => 204,
        _ => 201,
    }
}

/// The wire error text for `kind`.
pub fn request_error_text(kind: ErrorKind) -> (r: String)
    ensures
        kind == ErrorKind::InvalidToken ==> r@ == "Invalid Token"@,
        kind == ErrorKind::InsufficientAddress ==> r@ == "Insufficient Address"@,
        kind == ErrorKind::UnimplementedRequestType ==> r@ == "Method Unknown"@,
        kind == ErrorKind::UnknownQueryType ==> r@ == "Method Unknown"@,
        kind == ErrorKind::MalformedMessage ==> r@ == "Protocol Error"@,
        kind == ErrorKind::MissingRequiredField ==> r@ == "Protocol Error"@,
{
    broadcast use vstd::string::to_string_from_display_ensures_for_str;

    match kind {
        ErrorKind::InvalidToken => "Invalid Token".to_string(),
        ErrorKind::InsufficientAddress => "Insufficient Address".to_string(),
        ErrorKind::UnimplementedRequestType => "Method Unknown".to_string(),
        ErrorKind::UnknownQueryType => "Method Unknown".to_string(),
        ErrorKind::MalformedMessage => "Protocol Error".to_string(),
        ErrorKind::MissingRequiredField => "Protocol Error".to_string(),
        _ => "Generic Error".to_string(),
    }
}

} // verus!
