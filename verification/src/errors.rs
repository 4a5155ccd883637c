//! Failure taxonomy of the bridging layer.
//!
//! Three kinds of failure cross this layer: a non-zero status reported by the
//! native engine for a named operation, a transport send/receive failure, and
//! caller misuse (asking for an exchange one is no party to, or referencing a
//! handle that is not registered).  A mismatch between a declared count and
//! the backing arrays of a boundary buffer is a broken boundary contract, not
//! a recoverable failure: the functions of this crate exclude such inputs by
//! precondition instead of reporting them.

use vstd::prelude::*;

verus! {

/// The operations the native engine is asked to perform.  A failure report
/// names the operation that failed.
#[derive(Clone, Copy, Debug, PartialEq, Eq, Structural)]
pub enum NativeOp {
    Ecdsa2pKeygen,
    Ecdsa2pRefresh,
    Ecdsa2pSign,
    EcdsaMpcKeygen,
    EcdsaMpcSign,
    PublicKeyExport,
    ShareExport,
    KeyPairGen,
    AgreeRandom,
    QuorumEncrypt,
    QuorumDecrypt,
}

/// A failure surfaced by the bridging layer.
#[derive(Clone, Copy, Debug, PartialEq, Eq, Structural)]
pub enum BridgeError {
    /// The native engine returned a non-zero status for the named operation.
    NativeFailure { op: NativeOp, code: i32 },
    /// A transport send, receive or receive-all failed.
    TransportFailure,
    /// The caller is not a participant in the exchange it named, or referenced
    /// an unregistered handle or an out-of-range role.
    UsageError,
}

/// Status a callback reports to the native engine for a successful call.
pub const STATUS_OK: i32 = 0;

/// Status a callback reports when the forwarded transport call failed.
pub const STATUS_TRANSPORT_FAILURE: i32 = 1;

/// Status a callback reports when the handle it was given is not registered.
pub const STATUS_UNKNOWN_HANDLE: i32 = 2;

/// Maps a native status code for `op` into this layer's result convention:
/// zero means success, anything else is a native failure carrying the
/// operation and the code.
pub fn native_result(op: NativeOp, code: i32) -> (r: Result<(), BridgeError>)
    ensures
        code == 0 ==> r == Ok::<(), BridgeError>(()),
        code != 0 ==> r == Err::<(), BridgeError>(BridgeError::NativeFailure { op, code }),
{
    if code == 0 {
        Ok(())
    } else {
        Err(BridgeError::NativeFailure { op, code })
    }
}

/// The status code a callback reports to the native engine for a failure it
/// is translating: never zero, so the engine sees the call as failed.
pub fn error_status(e: &BridgeError) -> (r: i32)
    ensures
        r != 0,
        *e is TransportFailure ==> r == STATUS_TRANSPORT_FAILURE,
        *e is UsageError ==> r == STATUS_UNKNOWN_HANDLE,
        *e matches BridgeError::NativeFailure { op, code } ==> r == (if code != 0 {
            code
        } else {
            STATUS_TRANSPORT_FAILURE
        }),
{
    match e {
        BridgeError::NativeFailure { op: _, code } => {
            if *code != 0 {
                *code
            } else {
                STATUS_TRANSPORT_FAILURE
            }
        },
        BridgeError::TransportFailure => STATUS_TRANSPORT_FAILURE,
        BridgeError::UsageError => STATUS_UNKNOWN_HANDLE,
    }
}

} // verus!
