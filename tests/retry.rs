use hello_web3::error::Web3Error;
use hello_web3::retry::{backoff_ms, may_retry, CallKind};

#[test]
fn only_reads_with_transport_faults_are_retried() {
    assert!(may_retry(CallKind::Read, &Web3Error::NodeUnavailable, 0, 3));
    assert!(may_retry(CallKind::Read, &Web3Error::NodeUnavailable, 2, 3));
    assert!(!may_retry(CallKind::Read, &Web3Error::NodeUnavailable, 3, 3));
    let nonce_too_low = Web3Error::RpcError { code: -32000, message: "nonce too low".to_string() };
    assert!(!may_retry(CallKind::Read, &nonce_too_low, 0, 3));
    assert!(!may_retry(CallKind::Broadcast, &Web3Error::NodeUnavailable, 0, 3));
    assert!(!may_retry(CallKind::Broadcast, &nonce_too_low, 0, 3));
}

#[test]
fn backoff_doubles_and_saturates() {
    assert_eq!(backoff_ms(100, 0), 100);
    assert_eq!(backoff_ms(100, 1), 200);
    assert_eq!(backoff_ms(100, 4), 1600);
    assert_eq!(backoff_ms(0, 40), 0);
    assert_eq!(backoff_ms(1, 63), 1u64 << 63);
    assert_eq!(backoff_ms(1, 64), u64::MAX);
    assert_eq!(backoff_ms(3, 200), u64::MAX);
}
