//! The errors of the KCP protocol engine.
use crate::protocol::nothing_to_read;
use vstd::prelude::*;

verus! {

/// Opaque declaration of `kcp::Error`, the error of every fallible engine call.
#[verifier::external_type_specification]
#[verifier::external_body]
pub struct ExKcpError(kcp::Error);

/// Opaque declaration of `std::io::Error`, which an engine error may carry.
#[verifier::external_type_specification]
#[verifier::external_body]
pub struct ExIoError(std::io::Error);

/// What went wrong in the protocol engine, one variant for each variant of `kcp::Error`.
#[derive(Debug)]
pub enum KcpError {
    /// The conversation id of the engine, then the one found in the datagram.
    ConvInconsistent(u32, u32),
    /// The transmission unit that was refused.
    InvalidMtu(usize),
    /// The length of a datagram that is too short for a segment header.
    InvalidSegmentSize(usize),
    /// The payload length that a header announced, then the bytes that were left.
    InvalidSegmentDataSize(usize, usize),
    /// The writer behind the engine failed.
    IoError(std::io::Error),
    /// The engine was flushed before its first update.
    NeedUpdate,
    /// No segment waits to be received.
    RecvQueueEmpty,
    /// Only a part of the next message has arrived.
    ExpectingFragment,
    /// The command byte of a segment is unknown.
    UnsupportedCmd(u8),
    /// A message does not fit into the fragments of one send.
    UserBufTooBig,
    /// The next message does not fit into the reader's buffer.
    UserBufTooSmall,
}

/// The variant of `KcpError` that an engine error stands for.
pub uninterp spec fn error_of(e: kcp::Error) -> KcpError;

/// An engine result with its error read as a `KcpError`.
pub open spec fn result_of<T>(r: Result<T, kcp::Error>) -> Result<T, KcpError> {
    match r {
        Ok(v) => Ok(v),
        Err(e) => Err(error_of(e)),
    }
}

/// Tells the variants of `kcp::Error` apart and moves their fields over.
///
/// Believed: the result is the variant that `error_of` names for `e`.
#[verifier::external_body]
pub(crate) fn classify(e: kcp::Error) -> (r: KcpError)
    ensures
        r == error_of(e),
{
    match e {
        kcp::Error::ConvInconsistent(a, b) => KcpError::ConvInconsistent(a, b),
        kcp::Error::InvalidMtu(a) => KcpError::InvalidMtu(a),
        kcp::Error::InvalidSegmentSize(a) => KcpError::InvalidSegmentSize(a),
        kcp::Error::InvalidSegmentDataSize(a, b) => KcpError::InvalidSegmentDataSize(a, b),
        kcp::Error::IoError(a) => KcpError::IoError(a),
        kcp::Error::NeedUpdate => KcpError::NeedUpdate,
        kcp::Error::RecvQueueEmpty => KcpError::RecvQueueEmpty,
        kcp::Error::ExpectingFragment => KcpError::ExpectingFragment,
        kcp::Error::UnsupportedCmd(a) => KcpError::UnsupportedCmd(a),
        kcp::Error::UserBufTooBig => KcpError::UserBufTooBig,
        kcp::Error::UserBufTooSmall => KcpError::UserBufTooSmall,
    }
}

/// What kind of failure an `std::io::Error` reports, as far as it matters here.
pub enum IoKind {
    /// `std::io::ErrorKind::WouldBlock`.
    WouldBlock,
    /// `std::io::ErrorKind::Other`.
    Other,
    /// Any other kind.
    Else,
}

/// The kind of failure that `std::io::Error::kind` returns.
pub uninterp spec fn io_kind(e: std::io::Error) -> IoKind;

/// The engine error that an `std::io::Error` carries, where it was made out of one.
pub uninterp spec fn carried(e: std::io::Error) -> KcpError;

/// Tells the variants of `KcpError` apart and moves their fields into a `kcp::Error`.
///
/// Believed: the result is the engine error that `e` stands for.
#[verifier::external_body]
fn engine_error(e: KcpError) -> (r: kcp::Error)
    ensures
        error_of(r) == e,
{
    match e {
        KcpError::ConvInconsistent(a, b) => kcp::Error::ConvInconsistent(a, b),
        KcpError::InvalidMtu(a) => kcp::Error::InvalidMtu(a),
        KcpError::InvalidSegmentSize(a) => kcp::Error::InvalidSegmentSize(a),
        KcpError::InvalidSegmentDataSize(a, b) => kcp::Error::InvalidSegmentDataSize(a, b),
        KcpError::IoError(a) => kcp::Error::IoError(a),
        KcpError::NeedUpdate => kcp::Error::NeedUpdate,
        KcpError::RecvQueueEmpty => kcp::Error::RecvQueueEmpty,
        KcpError::ExpectingFragment => kcp::Error::ExpectingFragment,
        KcpError::UnsupportedCmd(a) => kcp::Error::UnsupportedCmd(a),
        KcpError::UserBufTooBig => kcp::Error::UserBufTooBig,
        KcpError::UserBufTooSmall => kcp::Error::UserBufTooSmall,
    }
}

/// Calls the conversion from `kcp::Error` that the `kcp` crate gives `std::io::Error`.
///
/// Believed: an error of the writer comes out as it is. Any other is carried by an error that would
/// block, where only no message is there yet, or by one of no special kind.
#[verifier::external_body]
fn into_io_error(e: kcp::Error) -> (r: std::io::Error)
    ensures
        match error_of(e) {
            KcpError::IoError(inner) => r == inner,
            other => carried(r) == other && io_kind(r) == (if nothing_to_read(other) {
                IoKind::WouldBlock
            } else {
                IoKind::Other
            }),
        },
{
    std::io::Error::from(e)
}

/// Whether `r` is how an engine error is reported.
pub open spec fn reported(e: KcpError, r: std::io::Error) -> bool {
    match e {
        KcpError::IoError(inner) => r == inner,
        other => carried(r) == other && io_kind(r) == (if nothing_to_read(other) {
            IoKind::WouldBlock
        } else {
            IoKind::Other
        }),
    }
}

/// The `std::io::Error` that a stream reports for an engine error, which it carries: one that would
/// block where only no message is there yet.
pub fn io_error(e: KcpError) -> (r: std::io::Error)
    ensures
        reported(e, r),
        match e {
            KcpError::IoError(inner) => r == inner,
            other => carried(r) == other && io_kind(r) == (if nothing_to_read(other) {
                IoKind::WouldBlock
            } else {
                IoKind::Other
            }),
        },
{
    into_io_error(engine_error(e))
}

/// An engine result with its error told apart.
pub(crate) fn told_apart<T>(r: Result<T, kcp::Error>) -> (out: Result<T, KcpError>)
    ensures
        out == result_of(r),
{
    match r {
        Ok(v) => Ok(v),
        Err(e) => Err(classify(e)),
    }
}

} // verus!
