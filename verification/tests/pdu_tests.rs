// Tests of PDUs and their wire form.

use ari::pdu::{Pdu, QoSParameters};

#[test]
fn test_pdu_creation() {
    let pdu = Pdu::new_data(100, 200, 1, 2, 0, vec![1, 2, 3, 4]);
    assert_eq!(pdu.src_addr, 100);
    assert_eq!(pdu.dst_addr, 200);
    assert_eq!(pdu.sequence_num, 0);
    assert!(pdu.is_data());
}

#[test]
fn test_pdu_with_qos() {
    let qos = QoSParameters {
        priority: 200,
        max_delay_ms: Some(100),
        min_bandwidth_bps: Some(1000000),
        max_loss_rate: Some(5),
    };

    let pdu = Pdu::new_data_with_qos(100, 200, 1, 2, 0, vec![1, 2, 3], qos.clone());
    assert_eq!(pdu.qos.priority, 200);
    assert_eq!(pdu.qos.max_delay_ms, Some(100));
}

#[test]
fn test_pdu_types() {
    let data_pdu = Pdu::new_data(1, 2, 1, 2, 0, vec![]);
    let ack_pdu = Pdu::new_ack(1, 2, 1, 2, 5);
    let mgmt_pdu = Pdu::new_management(1, 2, vec![]);

    assert!(data_pdu.is_data());
    assert!(ack_pdu.is_ack());
    assert!(mgmt_pdu.is_management());
}

#[test]
fn test_pdu_size() {
    let pdu = Pdu::new_data(1, 2, 1, 2, 0, vec![0; 100]);
    assert_eq!(pdu.size(), 133);
}

// A PDU survives the wire unchanged, field for field.
#[test]
fn pdu_wire_round_trip() {
    let qos = QoSParameters {
        priority: 7,
        max_delay_ms: Some(250),
        min_bandwidth_bps: None,
        max_loss_rate: Some(3),
    };
    let pdu = Pdu::new_data_with_qos(11, 22, 33, 44, 55, vec![9, 8, 7], qos);

    let bytes = pdu.serialize().unwrap();
    let back = Pdu::deserialize(&bytes).unwrap();

    assert_eq!(back.src_addr, 11);
    assert_eq!(back.dst_addr, 22);
    assert_eq!(back.src_cep_id, 33);
    assert_eq!(back.dst_cep_id, 44);
    assert_eq!(back.sequence_num, 55);
    assert_eq!(back.payload, vec![9, 8, 7]);
    assert_eq!(back.qos.priority, 7);
    assert_eq!(back.qos.max_delay_ms, Some(250));
    assert_eq!(back.qos.min_bandwidth_bps, None);
    assert_eq!(back.qos.max_loss_rate, Some(3));
}

// Malformed or padded PDU bytes are rejected.
#[test]
fn pdu_wire_rejects_garbage() {
    assert!(Pdu::deserialize(&vec![1u8, 2, 3]).is_err());

    let pdu = Pdu::new_ack(1, 2, 3, 4, 5);
    let mut bytes = pdu.serialize().unwrap();
    bytes.push(0);
    assert!(Pdu::deserialize(&bytes).is_err());
}

// An empty-payload management PDU round-trips too.
#[test]
fn management_pdu_round_trip() {
    let pdu = Pdu::new_management(1, 1001, vec![]);
    let bytes = pdu.serialize().unwrap();
    let back = Pdu::deserialize(&bytes).unwrap();
    assert!(back.is_management());
    assert_eq!(back.src_cep_id, 0);
    assert_eq!(back.dst_cep_id, 0);
    assert_eq!(back.payload.len(), 0);
}
