//! The decisions of the bounded HTTPS client: which error a failed step
//! becomes, and whether a response body fits the fixed capacity.
//!
//! A request runs in two phases. Setup resolves the host, connects and
//! builds the request, under a timeout. Transfer sends it and reads the body.
//! The caller drives both and hands each outcome to the functions here.

use vstd::prelude::*;

verus! {

/// The largest response body, in bytes, that a request returns.
pub const RESPONSE_SIZE: usize = 4096;

#[verifier::external_type_specification]
#[verifier::external_body]
#[verifier::reject_recursive_types(T)]
pub struct ExHeaplessVec<T, const N: usize>(heapless::Vec<T, N>);

/// A response body of at most `RESPONSE_SIZE` bytes.
pub type Response = heapless::Vec<u8, RESPONSE_SIZE>;

/// The bytes that a response holds.
pub uninterp spec fn response_bytes(v: heapless::Vec<u8, RESPONSE_SIZE>) -> Seq<u8>;

/// Relies on `heapless::Vec::from_slice`: `Err` exactly when the slice is
/// longer than the capacity, else a vector holding the slice's elements.
#[verifier::external_body]
fn response_from_slice(body: &[u8]) -> (r: Result<Response, ()>)
    ensures
        r.is_ok() <==> body@.len() <= RESPONSE_SIZE,
        r matches Ok(v) ==> response_bytes(v) == body@,
{
    heapless::Vec::from_slice(body)
}

/// Relies on `heapless::Vec::as_slice`: the elements, in order, never more
/// than the capacity.
#[verifier::external_body]
fn response_as_slice(v: &Response) -> (r: &[u8])
    ensures
        r@ == response_bytes(*v),
        r@.len() <= RESPONSE_SIZE,
{
    v.as_slice()
}

/// An error within an HTTP request.
#[derive(Clone, Copy, Debug, PartialEq, Eq, Structural)]
pub enum Error {
    /// The response body was larger than `RESPONSE_SIZE`.
    ResponseTooLarge,
    /// Reading or writing an established connection failed.
    Tcp,
    /// The connection could not be established.
    TcpConnect,
    /// The host name could not be resolved.
    Dns,
    /// The HTTP library failed otherwise (URL, framing, TLS, buffers).
    Reqless,
    /// Setup did not finish within the timeout.
    Time,
}

/// What the HTTP library reported when a step failed, one kind for each of
/// its error variants.
#[derive(Clone, Copy, Debug, PartialEq, Eq, Structural)]
pub enum LibraryFailure {
    Dns,
    Network,
    Codec,
    InvalidUrl,
    Tls,
    BufferTooSmall,
    AlreadySent,
    IncorrectBodyWritten,
    ConnectionAborted,
}

/// Why setup did not finish.
#[derive(Clone, Copy, Debug, PartialEq, Eq, Structural)]
pub enum SetupFailure {
    /// The timeout elapsed first.
    TimedOut,
    /// The HTTP library failed.
    Failed(LibraryFailure),
}

pub open spec fn setup_error_spec(f: LibraryFailure) -> Error {
    match f {
        LibraryFailure::Dns => Error::Dns,
        LibraryFailure::Network | LibraryFailure::ConnectionAborted => Error::TcpConnect,
        _ => Error::Reqless,
    }
}

pub open spec fn transfer_error_spec(f: LibraryFailure) -> Error {
    match f {
        LibraryFailure::Dns => Error::Dns,
        LibraryFailure::Network | LibraryFailure::ConnectionAborted => Error::Tcp,
        _ => Error::Reqless,
    }
}

pub open spec fn setup_failure_error_spec(o: SetupFailure) -> Error {
    match o {
        SetupFailure::TimedOut => Error::Time,
        SetupFailure::Failed(f) => setup_error_spec(f),
    }
}

/// The error for a failure while resolving, connecting or building the
/// request: network failures there mean the connection was never made.
pub fn setup_error(f: LibraryFailure) -> (e: Error)
    ensures
        e == setup_error_spec(f),
{
    match f {
        LibraryFailure::Dns => Error::Dns,
        LibraryFailure::Network | LibraryFailure::ConnectionAborted => Error::TcpConnect,
        _ => Error::Reqless,
    }
}

/// The error for a failure while sending the request or reading the
/// response: network failures there happen on an established connection.
pub fn transfer_error(f: LibraryFailure) -> (e: Error)
    ensures
        e == transfer_error_spec(f),
{
    match f {
        LibraryFailure::Dns => Error::Dns,
        LibraryFailure::Network | LibraryFailure::ConnectionAborted => Error::Tcp,
        _ => Error::Reqless,
    }
}

/// The error of a request whose setup did not finish: `Time` when the
/// timeout elapsed, else the library's failure classified for setup.
pub fn setup_failure_error(o: SetupFailure) -> (e: Error)
    ensures
        e == setup_failure_error_spec(o),
{
    match o {
        SetupFailure::TimedOut => Error::Time,
        SetupFailure::Failed(f) => setup_error(f),
    }
}

/// The response for a body read in full: the same bytes if they fit in
/// `RESPONSE_SIZE`, else `ResponseTooLarge`. Nothing is truncated.
pub fn response_from_body(body: &[u8]) -> (r: Result<Response, Error>)
    ensures
        r.is_ok() <==> body@.len() <= RESPONSE_SIZE,
        r matches Ok(v) ==> response_bytes(v) == body@,
        r matches Err(e) ==> e == Error::ResponseTooLarge,
{
    match response_from_slice(body) {
        Ok(v) => Ok(v),
        Err(()) => Err(Error::ResponseTooLarge),
    }
}

/// The bytes of a response.
pub fn response_body(v: &Response) -> (r: &[u8])
    ensures
        r@ == response_bytes(*v),
        r@.len() <= RESPONSE_SIZE,
{
    response_as_slice(v)
}

} // verus!
