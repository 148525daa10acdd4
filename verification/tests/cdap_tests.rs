// Tests of CDAP: op codes, the session and the wire codec.

use ari::cdap::{CdapMessage, CdapOpCode, CdapSession};
use ari::rib::{Rib, RibValue};

#[test]
fn test_cdap_opcode_display() {
    assert_eq!(CdapOpCode::Create.to_string(), "CREATE");
    assert_eq!(CdapOpCode::Read.to_string(), "READ");
}

#[test]
fn test_cdap_create_request() {
    let rib = Rib::new();
    let mut session = CdapSession::new(rib);

    let msg = session.create_request(
        "test/obj".to_string(),
        "test".to_string(),
        RibValue::Integer(42),
    );

    assert_eq!(msg.op_code, CdapOpCode::Create);
    assert_eq!(msg.obj_name, "test/obj");
    assert_eq!(msg.invoke_id, 1);
}

#[test]
fn test_cdap_session_create_and_read() {
    let rib = Rib::new();
    let mut session = CdapSession::new(rib);

    let create_msg = session.create_request(
        "test/data".to_string(),
        "data".to_string(),
        RibValue::String("hello".to_string()),
    );

    let create_response = session.process_message(&create_msg);
    assert!(create_response.is_success());

    let read_msg = session.read_request("test/data".to_string());

    let read_response = session.process_message(&read_msg);
    assert!(read_response.is_success());
    assert_eq!(read_response.obj_value.unwrap().as_string(), Some("hello"));
}

#[test]
fn test_cdap_write_operation() {
    let rib = Rib::new();
    let mut session = CdapSession::new(rib);

    let create_msg = session.create_request(
        "counter".to_string(),
        "config".to_string(),
        RibValue::Integer(0),
    );
    session.process_message(&create_msg);

    let write_msg = session.write_request("counter".to_string(), RibValue::Integer(10));
    let write_response = session.process_message(&write_msg);
    assert!(write_response.is_success());

    let read_msg = session.read_request("counter".to_string());
    let read_response = session.process_message(&read_msg);
    assert_eq!(read_response.obj_value.unwrap().as_integer(), Some(10));
}

#[test]
fn test_cdap_delete_operation() {
    let rib = Rib::new();
    let mut session = CdapSession::new(rib);

    let create_msg = session.create_request(
        "temp".to_string(),
        "temp".to_string(),
        RibValue::Boolean(true),
    );
    session.process_message(&create_msg);

    let delete_msg = session.delete_request("temp".to_string());
    let delete_response = session.process_message(&delete_msg);
    assert!(delete_response.is_success());

    let read_msg = session.read_request("temp".to_string());
    let read_response = session.process_message(&read_msg);
    assert!(!read_response.is_success());
}

#[test]
fn test_invoke_id_increment() {
    let rib = Rib::new();
    let mut session = CdapSession::new(rib);

    let msg1 = session.read_request("obj1".to_string());
    let msg2 = session.read_request("obj2".to_string());

    assert_eq!(msg1.invoke_id, 1);
    assert_eq!(msg2.invoke_id, 2);
}

#[test]
fn test_cdap_message_postcard_roundtrip() {
    let msg = CdapMessage::new_request(
        CdapOpCode::Create,
        "test_object".to_string(),
        Some("test_class".to_string()),
        Some(RibValue::String("test_value".to_string())),
        42,
    );

    let serialized = msg.serialize().expect("Serialization should succeed");

    let deserialized = CdapMessage::deserialize(&serialized).expect(
        "Deserialization should succeed",
    );

    assert_eq!(deserialized.op_code, msg.op_code);
    assert_eq!(deserialized.obj_name, msg.obj_name);
    assert_eq!(deserialized.invoke_id, msg.invoke_id);
    assert!(deserialized.sync_request.is_none());
    assert!(deserialized.sync_response.is_none());
}

// Sync request and response messages survive the wire.
#[test]
fn test_cdap_sync_message_serialization() {
    let sync_req = CdapMessage::new_sync_request(123, 456, "member-1".to_string());

    let serialized = sync_req.serialize().unwrap();
    let deserialized = CdapMessage::deserialize(&serialized).unwrap();
    assert!(deserialized.sync_request.is_some());

    let req = deserialized.sync_request.unwrap();
    assert_eq!(req.last_known_version, 456);
    assert_eq!(req.requester, "member-1");

    let mut rib = Rib::new();
    rib.create("/test/obj".to_string(), "test".to_string(), RibValue::Integer(100)).unwrap();
    let changes = rib.get_changes_since(0).unwrap();

    let sync_resp = CdapMessage::new_sync_response(123, 1, Some(changes), None, None);
    let serialized = sync_resp.serialize().unwrap();
    let deserialized = CdapMessage::deserialize(&serialized).unwrap();
    let resp = deserialized.sync_response.unwrap();
    assert_eq!(resp.current_version, 1);
    assert!(resp.changes.is_some());
    assert_eq!(resp.changes.as_ref().map(|c| c.len()).unwrap_or(0), 1);

    let snapshot = rib.serialize();
    let sync_resp_full = CdapMessage::new_sync_response(124, 1, None, Some(snapshot), None);
    let serialized = sync_resp_full.serialize().unwrap();
    let deserialized = CdapMessage::deserialize(&serialized).unwrap();
    assert!(deserialized.sync_response.unwrap().full_snapshot.is_some());

    let sync_resp_err =
        CdapMessage::new_sync_response(125, 0, None, None, Some("Version too old".to_string()));
    let serialized = sync_resp_err.serialize().unwrap();
    let deserialized = CdapMessage::deserialize(&serialized).unwrap();
    assert!(deserialized.sync_response.unwrap().error.is_some());
    assert_eq!(deserialized.result, 1);
}

// Start and Stop exist on the wire but are answered negatively.
#[test]
fn start_and_stop_not_implemented() {
    let rib = Rib::new();
    let mut session = CdapSession::new(rib);

    let start = session.start_request("op".to_string(), None);
    let response = session.process_message(&start);
    assert!(!response.is_success());
    assert_eq!(response.invoke_id, start.invoke_id);
}

// Malformed CDAP bytes are rejected rather than misread.
#[test]
fn malformed_cdap_rejected() {
    let garbage = vec![9u8, 1, 2, 3];
    assert!(CdapMessage::deserialize(&garbage).is_err());

    let msg = CdapMessage::new_response(7, 0, None);
    let mut bytes = msg.serialize().unwrap();
    bytes.push(0);
    assert!(CdapMessage::deserialize(&bytes).is_err());
}
