use mpc_bridge::errors::error_status;
use mpc_bridge::errors::native_result;
use mpc_bridge::errors::BridgeError;
use mpc_bridge::errors::NativeOp;
use mpc_bridge::errors::STATUS_TRANSPORT_FAILURE;
use mpc_bridge::errors::STATUS_UNKNOWN_HANDLE;

#[test]
fn zero_status_means_success() {
    assert_eq!(native_result(NativeOp::Ecdsa2pSign, 0), Ok(()));
}

#[test]
fn nonzero_status_names_operation_and_code() {
    let r = native_result(NativeOp::QuorumDecrypt, 5);
    assert_eq!(
        r,
        Err(BridgeError::NativeFailure { op: NativeOp::QuorumDecrypt, code: 5 })
    );
}

#[test]
fn error_status_is_never_zero() {
    assert_ne!(error_status(&BridgeError::TransportFailure), 0);
    assert_ne!(error_status(&BridgeError::UsageError), 0);
    assert_ne!(
        error_status(&BridgeError::NativeFailure { op: NativeOp::AgreeRandom, code: 9 }),
        0
    );
}

#[test]
fn error_status_translation() {
    assert_eq!(
        error_status(&BridgeError::TransportFailure),
        STATUS_TRANSPORT_FAILURE
    );
    assert_eq!(error_status(&BridgeError::UsageError), STATUS_UNKNOWN_HANDLE);
    assert_eq!(
        error_status(&BridgeError::NativeFailure { op: NativeOp::AgreeRandom, code: 9 }),
        9
    );
}
