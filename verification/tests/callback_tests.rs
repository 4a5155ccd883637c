use mpc_bridge::buffer::CMem;
use mpc_bridge::callback::callback_receive;
use mpc_bridge::callback::callback_receive_all;
use mpc_bridge::callback::callback_send;
use mpc_bridge::errors::STATUS_OK;
use mpc_bridge::errors::STATUS_UNKNOWN_HANDLE;
use mpc_bridge::registry::Registry;
use mpc_bridge::transport::IDataTransport;
use mpc_bridge::transport::LoopbackEndpoint;
use mpc_bridge::transport::LoopbackNet;

#[test]
fn send_and_receive_through_callbacks() {
    let mut reg: Registry<LoopbackEndpoint> = Registry::new();
    let h0 = reg.set_dt_impl(LoopbackEndpoint::new(0));
    let h1 = reg.set_dt_impl(LoopbackEndpoint::new(1));
    let mut net = LoopbackNet::new(2);

    let payload = CMem::new(&[10u8, 20, 30]);
    let status = callback_send(&reg, &mut net, h0, 1, &payload);
    assert_eq!(status, STATUS_OK);

    let (status, received) = callback_receive(&reg, &mut net, h1, 0);
    assert_eq!(status, STATUS_OK);
    assert_eq!(received.to_bytes(), vec![10u8, 20, 30]);
}

#[test]
fn empty_payload_crosses_as_null_buffer() {
    let mut reg: Registry<LoopbackEndpoint> = Registry::new();
    let h0 = reg.set_dt_impl(LoopbackEndpoint::new(0));
    let h1 = reg.set_dt_impl(LoopbackEndpoint::new(1));
    let mut net = LoopbackNet::new(2);

    assert_eq!(callback_send(&reg, &mut net, h0, 1, &CMem::new(&[])), STATUS_OK);
    let (status, received) = callback_receive(&reg, &mut net, h1, 0);
    assert_eq!(status, STATUS_OK);
    assert!(received.is_null());
    assert_eq!(received.to_bytes(), Vec::<u8>::new());
}

#[test]
fn unknown_handle_is_refused() {
    let reg: Registry<LoopbackEndpoint> = Registry::new();
    let mut net = LoopbackNet::new(2);
    let status = callback_send(&reg, &mut net, 99, 1, &CMem::new(&[1u8]));
    assert_eq!(status, STATUS_UNKNOWN_HANDLE);
    let (status, out) = callback_receive(&reg, &mut net, 99, 0);
    assert_eq!(status, STATUS_UNKNOWN_HANDLE);
    assert!(out.is_null());
}

#[test]
fn receive_all_aligns_results_to_request() {
    let mut reg: Registry<LoopbackEndpoint> = Registry::new();
    let h0 = reg.set_dt_impl(LoopbackEndpoint::new(0));
    let mut net = LoopbackNet::new(3);

    // Parties 1 and 2 each send one message to party 0.
    let e1 = LoopbackEndpoint::new(1);
    let e2 = LoopbackEndpoint::new(2);
    e1.message_send(&mut net, 0, &[11u8]).unwrap();
    e2.message_send(&mut net, 0, &[22u8]).unwrap();

    // Request in the order [2, 1]: the results must align to the request.
    let (status, out) = callback_receive_all(&reg, &mut net, h0, &[2, 1]);
    assert_eq!(status, STATUS_OK);
    let bufs = out.to_vec();
    assert_eq!(bufs, vec![vec![22u8], vec![11u8]]);
}

#[test]
fn receive_all_fails_atomically() {
    let mut reg: Registry<LoopbackEndpoint> = Registry::new();
    let h0 = reg.set_dt_impl(LoopbackEndpoint::new(0));
    let mut net = LoopbackNet::new(3);

    // Only party 1 has sent; requesting [1, 2] must fail as a whole.
    let e1 = LoopbackEndpoint::new(1);
    e1.message_send(&mut net, 0, &[11u8]).unwrap();

    let (status, out) = callback_receive_all(&reg, &mut net, h0, &[1, 2]);
    assert_ne!(status, STATUS_OK);
    assert_eq!(out.count(), 0);
    // No partial consumption: party 1's message is still in flight.
    assert_eq!(net.queue_len(1, 0), 1);

    // After party 2 also sends, the same request succeeds.
    let e2 = LoopbackEndpoint::new(2);
    e2.message_send(&mut net, 0, &[22u8]).unwrap();
    let (status, out) = callback_receive_all(&reg, &mut net, h0, &[1, 2]);
    assert_eq!(status, STATUS_OK);
    assert_eq!(out.to_vec(), vec![vec![11u8], vec![22u8]]);
}

#[test]
fn receive_all_rejects_duplicate_senders() {
    let mut reg: Registry<LoopbackEndpoint> = Registry::new();
    let h0 = reg.set_dt_impl(LoopbackEndpoint::new(0));
    let mut net = LoopbackNet::new(3);
    let e1 = LoopbackEndpoint::new(1);
    e1.message_send(&mut net, 0, &[11u8]).unwrap();
    e1.message_send(&mut net, 0, &[12u8]).unwrap();

    let (status, out) = callback_receive_all(&reg, &mut net, h0, &[1, 1]);
    assert_ne!(status, STATUS_OK);
    assert_eq!(out.count(), 0);
    assert_eq!(net.queue_len(1, 0), 2);
}
