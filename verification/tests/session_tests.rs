use mpc_bridge::errors::BridgeError;
use mpc_bridge::registry::Registry;
use mpc_bridge::session::JobSession2P;
use mpc_bridge::session::JobSessionMP;
use mpc_bridge::transport::IDataTransport;
use mpc_bridge::transport::LoopbackEndpoint;
use mpc_bridge::transport::LoopbackNet;

#[test]
fn role_queries_are_fixed_at_construction() {
    let mut reg: Registry<LoopbackEndpoint> = Registry::new();
    let s0 = JobSession2P::new(&mut reg, LoopbackEndpoint::new(0), 0).unwrap();
    let s1 = JobSession2P::new(&mut reg, LoopbackEndpoint::new(1), 1).unwrap();
    assert!(s0.is_peer1());
    assert!(!s0.is_peer2());
    assert!(s1.is_peer2());
    assert!(!s1.is_peer1());
    assert!(s0.is_role_index(0));
    assert!(!s0.is_role_index(1));
    assert_eq!(s0.get_role_index(), 0);
    assert_eq!(s1.get_role_index(), 1);
}

#[test]
fn invalid_role_fails_and_rolls_back_registration() {
    let mut reg: Registry<LoopbackEndpoint> = Registry::new();
    let r = JobSession2P::new(&mut reg, LoopbackEndpoint::new(2), 2);
    assert!(matches!(r, Err(BridgeError::UsageError)));
    assert_eq!(reg.len(), 0);
}

#[test]
fn message_rejects_non_participant_and_performs_no_io() {
    let mut reg: Registry<LoopbackEndpoint> = Registry::new();
    let s0 = JobSession2P::new(&mut reg, LoopbackEndpoint::new(0), 0).unwrap();
    let mut net = LoopbackNet::new(2);
    // An exchange between roles 1 and 2 does not involve this role-0 session.
    let r = s0.message(&reg, &mut net, 1, 2, &[42u8]);
    assert!(matches!(r, Err(BridgeError::UsageError)));
    assert_eq!(net.queue_len(0, 1), 0);
    assert_eq!(net.queue_len(1, 0), 0);
}

#[test]
fn fifo_per_channel_two_messages() {
    let mut reg: Registry<LoopbackEndpoint> = Registry::new();
    let s1 = JobSession2P::new(&mut reg, LoopbackEndpoint::new(1), 1).unwrap();
    let s2_endpoint = LoopbackEndpoint::new(0);
    // Role 1 sends m1 then m2 to role 0; role 0 receives them in order.
    let mut net = LoopbackNet::new(2);
    let m1 = vec![1u8, 1];
    let m2 = vec![2u8, 2];
    assert!(s1.message(&reg, &mut net, 1, 0, &m1).is_ok());
    assert!(s1.message(&reg, &mut net, 1, 0, &m2).is_ok());
    let r1 = s2_endpoint.message_receive(&mut net, 1).unwrap();
    let r2 = s2_endpoint.message_receive(&mut net, 1).unwrap();
    assert_eq!(r1, m1);
    assert_eq!(r2, m2);
}

#[test]
fn end_to_end_loopback_exchange_and_teardown() {
    let mut reg: Registry<LoopbackEndpoint> = Registry::new();
    let s0 = JobSession2P::new(&mut reg, LoopbackEndpoint::new(0), 0).unwrap();
    let s1 = JobSession2P::new(&mut reg, LoopbackEndpoint::new(1), 1).unwrap();
    let mut net = LoopbackNet::new(2);

    let sent = s0.message(&reg, &mut net, 0, 1, &[1u8, 2, 3]).unwrap();
    assert_eq!(sent, vec![1u8, 2, 3]);
    let received = s1.message(&reg, &mut net, 0, 1, &[]).unwrap();
    assert_eq!(received, vec![1u8, 2, 3]);

    let h0 = s0.get_transport_handle();
    let h1 = s1.get_transport_handle();
    s0.close(&mut reg);
    assert!(!reg.contains(h0));
    assert!(reg.contains(h1));
    s1.close(&mut reg);
    assert!(!reg.contains(h1));
    assert_eq!(reg.len(), 0);
}

#[test]
fn receive_with_empty_channel_fails() {
    let mut reg: Registry<LoopbackEndpoint> = Registry::new();
    let s = JobSession2P::new(&mut reg, LoopbackEndpoint::new(1), 1).unwrap();
    let mut net = LoopbackNet::new(2);
    let r = s.message(&reg, &mut net, 0, 1, &[]);
    assert!(matches!(r, Err(BridgeError::TransportFailure)));
}

#[test]
fn mp_session_queries_and_rollback() {
    let mut reg: Registry<LoopbackEndpoint> = Registry::new();
    let s = JobSessionMP::new(&mut reg, LoopbackEndpoint::new(2), 4, 2, 7).unwrap();
    assert!(s.is_party(2));
    assert!(!s.is_party(1));
    assert_eq!(s.get_party_index(), 2);
    let h = s.get_transport_handle();
    assert!(reg.contains(h));
    s.close(&mut reg);
    assert!(!reg.contains(h));

    let bad = JobSessionMP::new(&mut reg, LoopbackEndpoint::new(4), 4, 4, 7);
    assert!(matches!(bad, Err(BridgeError::UsageError)));
    assert_eq!(reg.len(), 0);
}
