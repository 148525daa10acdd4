// Tests of EFCP: sequencing, windowing, acknowledgments and flow tables.

use ari::efcp::{Efcp, Flow, FlowConfig};
use ari::pdu::Pdu;

#[test]
fn test_flow_send_data() {
    let mut flow = Flow::new(1, 10, 20, 100, 200, FlowConfig::default());

    let payload = vec![0xAA, 0xBB, 0xCC];
    let pdu = flow.send_data(payload.clone()).unwrap();

    assert_eq!(pdu.sequence_num, 0);
    assert_eq!(pdu.payload, payload);
    assert_eq!(flow.next_seq_num, 1);
}

#[test]
fn test_flow_receive_in_order() {
    let mut flow = Flow::new(1, 10, 20, 100, 200, FlowConfig::default());

    let pdu = Pdu::new_data(200, 100, 20, 10, 0, vec![1, 2, 3]);
    let result = flow.receive_pdu(pdu).unwrap();

    assert!(result.is_some());
    assert_eq!(result.unwrap(), vec![1, 2, 3]);
    assert_eq!(flow.expected_seq_num, 1);
}

#[test]
fn test_flow_receive_out_of_order() {
    let mut flow = Flow::new(1, 10, 20, 100, 200, FlowConfig::default());

    let pdu = Pdu::new_data(200, 100, 20, 10, 2, vec![1, 2, 3]);
    let result = flow.receive_pdu(pdu).unwrap();

    assert!(result.is_none());
    assert_eq!(flow.receive_buffer.len(), 1);
}

#[test]
fn test_efcp_flow_allocation() {
    let mut efcp = Efcp::new();

    let flow_id1 = efcp.allocate_flow(100, 200, FlowConfig::default());
    let flow_id2 = efcp.allocate_flow(100, 300, FlowConfig::default());

    assert_eq!(flow_id1, 1);
    assert_eq!(flow_id2, 2);
    assert_eq!(efcp.flow_count(), 2);
}

#[test]
fn test_efcp_flow_deallocation() {
    let mut efcp = Efcp::new();

    let flow_id = efcp.allocate_flow(100, 200, FlowConfig::default());
    assert_eq!(efcp.flow_count(), 1);

    efcp.deallocate_flow(flow_id).unwrap();
    assert_eq!(efcp.flow_count(), 0);
}

#[test]
fn test_ack_handling() {
    let mut flow = Flow::new(1, 10, 20, 100, 200, FlowConfig::default());

    flow.send_data(vec![1]).unwrap();
    flow.send_data(vec![2]).unwrap();
    assert_eq!(flow.send_window_size(), 2);

    let ack = Pdu::new_ack(200, 100, 20, 10, 0);
    flow.receive_pdu(ack).unwrap();

    assert_eq!(flow.send_window_size(), 1);
}

#[test]
fn test_window_full() {
    let config = FlowConfig { window_size: 2, ..Default::default() };
    let mut flow = Flow::new(1, 10, 20, 100, 200, config);

    flow.send_data(vec![1]).unwrap();
    flow.send_data(vec![2]).unwrap();

    let result = flow.send_data(vec![3]);
    assert!(result.is_err());
}

// Consecutive sends emit the sequence numbers 0, 1, ..., n with the
// payloads carried in order.
#[test]
fn sequence_numbers_in_order() {
    let config = FlowConfig { window_size: 16, ..Default::default() };
    let mut flow = Flow::new(1, 10, 20, 100, 200, config);

    for n in 0..8u64 {
        let payload = vec![n as u8];
        let pdu = flow.send_data(payload.clone()).unwrap();
        assert_eq!(pdu.sequence_num, n);
        assert_eq!(pdu.payload, payload);
    }
    assert_eq!(flow.next_seq_num, 8);
}

// After a cumulative ACK of k, the send window holds nothing at or below k.
#[test]
fn ack_clears_window_cumulatively() {
    let mut flow = Flow::new(1, 10, 20, 100, 200, FlowConfig::default());

    for n in 0..5u64 {
        flow.send_data(vec![n as u8]).unwrap();
    }
    assert_eq!(flow.send_window_size(), 5);

    let ack = Pdu::new_ack(200, 100, 20, 10, 2);
    flow.receive_pdu(ack).unwrap();
    assert_eq!(flow.send_window_size(), 2);

    // Retransmission candidates can only be the unacknowledged ones.
    let pending = flow.check_retransmits_at(u64::MAX);
    assert_eq!(pending.len(), 2);
    assert!(pending.iter().all(|p| p.sequence_num > 2));
}

// The window-full rejection clears once an ACK frees a slot.
#[test]
fn window_full_recovers_after_ack() {
    let config = FlowConfig { window_size: 2, reliable: true, ..Default::default() };
    let mut flow = Flow::new(1, 10, 20, 100, 200, config);

    flow.send_data(vec![b'a']).unwrap();
    flow.send_data(vec![b'b']).unwrap();
    let rejected = flow.send_data(vec![b'c']);
    assert!(rejected.is_err());

    let ack = Pdu::new_ack(200, 100, 20, 10, 0);
    flow.receive_pdu(ack).unwrap();

    let accepted = flow.send_data(vec![b'c']);
    assert!(accepted.is_ok());
    assert_eq!(accepted.unwrap().sequence_num, 2);
}

// Oversized payloads are rejected without burning a sequence number.
#[test]
fn oversized_payload_rejected() {
    let config = FlowConfig { max_pdu_size: 4, ..Default::default() };
    let mut flow = Flow::new(1, 10, 20, 100, 200, config);

    let result = flow.send_data(vec![0; 5]);
    assert!(result.is_err());
    assert_eq!(flow.next_seq_num, 0);
}

// Duplicates (below the expected sequence number) are dropped silently.
#[test]
fn stale_data_dropped() {
    let mut flow = Flow::new(1, 10, 20, 100, 200, FlowConfig::default());

    let first = Pdu::new_data(200, 100, 20, 10, 0, vec![7]);
    assert!(flow.receive_pdu(first).unwrap().is_some());

    let duplicate = Pdu::new_data(200, 100, 20, 10, 0, vec![7]);
    assert!(flow.receive_pdu(duplicate).unwrap().is_none());
    assert_eq!(flow.expected_seq_num, 1);
    assert_eq!(flow.receive_buffer.len(), 0);
}

// The table-level send and receive operate on the right flow.
#[test]
fn efcp_table_send_and_receive() {
    let mut efcp = Efcp::new();
    let id = efcp.allocate_flow(100, 200, FlowConfig::default());

    let pdu = efcp.send_data_at(id, vec![1, 2], 0).unwrap();
    assert_eq!(pdu.sequence_num, 0);

    let incoming = Pdu::new_data(200, 100, 20, 10, 0, vec![9]);
    let delivered = efcp.receive_pdu(id, incoming).unwrap();
    assert_eq!(delivered, Some(vec![9]));

    let missing = efcp.send_data_at(77, vec![1], 0);
    assert!(missing.is_err());
}
