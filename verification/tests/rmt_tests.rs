// Tests of the relaying and multiplexing task.

use ari::error::RmtError;
use ari::pdu::{Pdu, PduType, QoSParameters};
use ari::rmt::{ForwardingEntry, Rmt};

fn create_test_pdu(src: u64, dst: u64, seq: u64) -> Pdu {
    Pdu {
        src_addr: src,
        dst_addr: dst,
        src_cep_id: 1,
        dst_cep_id: 2,
        sequence_num: seq,
        pdu_type: PduType::Data,
        payload: vec![1, 2, 3],
        qos: QoSParameters::default(),
    }
}

#[test]
fn test_rmt_creation() {
    let rmt = Rmt::new(100);
    assert_eq!(rmt.local_addr(), 100);
    assert_eq!(rmt.forwarding_table_size(), 0);
}

#[test]
fn test_add_forwarding_entry() {
    let mut rmt = Rmt::new(100);

    let entry = ForwardingEntry { dst_addr: 200, next_hop: 150, cost: 1 };

    rmt.add_forwarding_entry(entry);
    assert_eq!(rmt.forwarding_table_size(), 1);
    assert_eq!(rmt.lookup(200), Some(150));
}

#[test]
fn test_process_outgoing_pdu() {
    let mut rmt = Rmt::new(100);

    rmt.add_forwarding_entry(ForwardingEntry { dst_addr: 200, next_hop: 150, cost: 1 });

    let pdu = create_test_pdu(100, 200, 0);
    let result = rmt.process_outgoing(pdu);

    assert!(result.is_ok());
    assert_eq!(result.unwrap(), 150);
    assert_eq!(rmt.queue_length(150), 1);
}

#[test]
fn test_process_incoming_local_delivery() {
    let mut rmt = Rmt::new(100);

    let pdu = create_test_pdu(200, 100, 0);
    let result = rmt.process_incoming(pdu);

    assert!(result.is_ok());
    assert_eq!(result.unwrap(), None);
}

#[test]
fn test_process_incoming_forward() {
    let mut rmt = Rmt::new(100);

    rmt.add_forwarding_entry(ForwardingEntry { dst_addr: 300, next_hop: 200, cost: 1 });

    let pdu = create_test_pdu(50, 300, 0);
    let result = rmt.process_incoming(pdu);

    assert!(result.is_ok());
    assert_eq!(result.unwrap(), Some(200));
    assert_eq!(rmt.queue_length(200), 1);
}

#[test]
fn test_dequeue_pdu() {
    let mut rmt = Rmt::new(100);

    rmt.add_forwarding_entry(ForwardingEntry { dst_addr: 200, next_hop: 150, cost: 1 });

    let pdu = create_test_pdu(100, 200, 42);
    rmt.process_outgoing(pdu).unwrap();

    let dequeued = rmt.dequeue_for_next_hop(150);
    assert!(dequeued.is_some());
    assert_eq!(dequeued.unwrap().sequence_num, 42);
    assert_eq!(rmt.queue_length(150), 0);
}

#[test]
fn test_no_route() {
    let mut rmt = Rmt::new(100);

    let pdu = create_test_pdu(100, 999, 0);
    let result = rmt.process_outgoing(pdu);

    assert!(result.is_err());
    let err = result.unwrap_err();
    assert!(matches!(err, RmtError::NoRoute(999)));
    assert!(err.message().contains("No route"));
    // The failure enqueued nothing anywhere.
    assert_eq!(rmt.total_queued(), 0);
}

#[test]
fn test_queue_full() {
    let mut rmt = Rmt::new(100);
    rmt.set_default_queue_size(2);

    rmt.add_forwarding_entry(ForwardingEntry { dst_addr: 200, next_hop: 150, cost: 1 });

    rmt.process_outgoing(create_test_pdu(100, 200, 0)).unwrap();
    rmt.process_outgoing(create_test_pdu(100, 200, 1)).unwrap();

    let result = rmt.process_outgoing(create_test_pdu(100, 200, 2));
    assert!(result.is_err());
    let err = result.unwrap_err();
    assert!(matches!(err, RmtError::QueueFull(150)));
    assert!(err.message().contains("full"));
}

#[test]
fn test_total_queued() {
    let mut rmt = Rmt::new(100);

    rmt.add_forwarding_entry(ForwardingEntry { dst_addr: 200, next_hop: 150, cost: 1 });
    rmt.add_forwarding_entry(ForwardingEntry { dst_addr: 300, next_hop: 250, cost: 1 });

    rmt.process_outgoing(create_test_pdu(100, 200, 0)).unwrap();
    rmt.process_outgoing(create_test_pdu(100, 200, 1)).unwrap();
    rmt.process_outgoing(create_test_pdu(100, 300, 0)).unwrap();

    assert_eq!(rmt.total_queued(), 3);
}

// Forwarding end to end: an installed entry routes an incoming PDU to its
// next hop's queue, while a PDU for the local address is delivered locally.
#[test]
fn rmt_forwarding_and_local_delivery() {
    let mut rmt = Rmt::new(1001);
    rmt.add_forwarding_entry(ForwardingEntry { dst_addr: 1003, next_hop: 1002, cost: 1 });

    let forwarded = rmt.process_incoming(create_test_pdu(1000, 1003, 7)).unwrap();
    assert_eq!(forwarded, Some(1002));

    let queued = rmt.dequeue_for_next_hop(1002).unwrap();
    assert_eq!(queued.dst_addr, 1003);
    assert_eq!(queued.sequence_num, 7);

    let local = rmt.process_incoming(create_test_pdu(1000, 1001, 8)).unwrap();
    assert_eq!(local, None);
}

// Replacing a forwarding entry changes the next hop without duplicating it.
#[test]
fn forwarding_entry_replacement() {
    let mut rmt = Rmt::new(100);
    rmt.add_forwarding_entry(ForwardingEntry { dst_addr: 200, next_hop: 150, cost: 1 });
    rmt.add_forwarding_entry(ForwardingEntry { dst_addr: 200, next_hop: 175, cost: 2 });

    assert_eq!(rmt.forwarding_table_size(), 1);
    assert_eq!(rmt.lookup(200), Some(175));

    rmt.remove_forwarding_entry(200);
    assert_eq!(rmt.lookup(200), None);
}
