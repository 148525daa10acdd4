// Tests of the remaining pieces: the DIF container, the address mapper,
// the neighbor flow table and the decimal formatting helper.

use ari::inter_ipcp_fal::{InterIpcpFlow, InterIpcpFlowAllocator, InterIpcpFlowState};
use ari::shim::AddressMapper;
use ari::strutil::u64_to_string;
use ari::Dif;

#[test]
fn dif_membership() {
    let mut dif = Dif::new_with_name("net".to_string());
    assert_eq!(dif.member_count(), 0);

    dif.add_member(1001);
    dif.add_member(1002);
    dif.add_member(1001);
    assert_eq!(dif.member_count(), 2);

    dif.remove_member(1001);
    assert_eq!(dif.member_count(), 1);
}

#[test]
fn test_address_mapper() {
    let mut mapper = AddressMapper::new();

    mapper.add_mapping(1000, "127.0.0.1:8080".to_string());

    assert_eq!(mapper.mapping_count(), 1);
    assert_eq!(mapper.lookup(1000), Some("127.0.0.1:8080".to_string()));
    assert_eq!(mapper.lookup(2000), None);
}

#[test]
fn test_address_mapper_remove() {
    let mut mapper = AddressMapper::new();

    mapper.add_mapping(1000, "127.0.0.1:8080".to_string());

    assert_eq!(mapper.mapping_count(), 1);

    mapper.remove_mapping(1000);
    assert_eq!(mapper.mapping_count(), 0);
    assert_eq!(mapper.lookup(1000), None);
}

#[test]
fn test_address_mapper_multiple() {
    let mut mapper = AddressMapper::new();

    mapper.add_mapping(1000, "127.0.0.1:8080".to_string());
    mapper.add_mapping(2000, "127.0.0.1:8081".to_string());

    assert_eq!(mapper.mapping_count(), 2);
    assert_eq!(mapper.lookup(1000), Some("127.0.0.1:8080".to_string()));
    assert_eq!(mapper.lookup(2000), Some("127.0.0.1:8081".to_string()));
}

// Re-registering a peer overwrites its socket (underlay roaming).
#[test]
fn address_mapper_upsert() {
    let mut mapper = AddressMapper::new();
    mapper.add_mapping(7, "10.0.0.1:1".to_string());
    mapper.add_mapping(7, "10.0.0.2:2".to_string());
    assert_eq!(mapper.mapping_count(), 1);
    assert_eq!(mapper.lookup(7), Some("10.0.0.2:2".to_string()));
}

#[test]
fn test_inter_ipcp_flow_creation() {
    let flow = InterIpcpFlow::new(1002, "127.0.0.1:7001".to_string());

    assert_eq!(flow.remote_addr, 1002);
    assert_eq!(flow.state, InterIpcpFlowState::Active);
    assert_eq!(flow.sent_pdus, 0);
    assert_eq!(flow.received_pdus, 0);
}

#[test]
fn test_inter_ipcp_flow_statistics() {
    let mut flow = InterIpcpFlow::new(1002, "127.0.0.1:7001".to_string());

    flow.record_send();
    assert_eq!(flow.sent_pdus, 1);

    flow.record_receive();
    assert_eq!(flow.received_pdus, 1);

    flow.record_send_error();
    assert_eq!(flow.send_errors, 1);
    assert_eq!(flow.state, InterIpcpFlowState::Failed);
}

#[test]
fn test_inter_ipcp_flow_stale_detection() {
    let mut flow = InterIpcpFlow::new_at(1002, "127.0.0.1:7001".to_string(), 1000);

    assert!(!flow.is_stale_at(1050, 100));
    assert!(flow.is_stale_at(1150, 100));

    flow.record_send_at(1150);
    assert!(!flow.is_stale_at(1200, 100));
}

#[test]
fn test_inter_ipcp_flow_address_update() {
    let mut flow = InterIpcpFlow::new(1002, "127.0.0.1:7001".to_string());

    flow.update_address("127.0.0.1:7002".to_string());

    assert_eq!(flow.socket_addr, "127.0.0.1:7002".to_string());
    assert_eq!(flow.state, InterIpcpFlowState::Active);
}

#[test]
fn test_flow_allocator_creation() {
    let fal = InterIpcpFlowAllocator::new();
    assert_eq!(fal.active_flow_count(), 0);
}

#[test]
fn test_flow_allocator_peer_tracking() {
    let mut fal = InterIpcpFlowAllocator::new();

    fal.record_received_from_at(1002, "127.0.0.1:7001".to_string(), 10);

    assert_eq!(fal.active_flow_count(), 1);
}

#[test]
fn test_flow_allocator_address_update() {
    let mut fal = InterIpcpFlowAllocator::new();

    fal.update_peer_address_at(1002, "127.0.0.1:7001".to_string(), 10);
    assert_eq!(fal.active_flow_count(), 1);

    fal.update_peer_address_at(1002, "127.0.0.1:7002".to_string(), 11);
    assert_eq!(fal.active_flow_count(), 1);
}

#[test]
fn test_flow_allocator_cleanup() {
    let mut fal = InterIpcpFlowAllocator::new();
    fal.set_stale_timeout_ms(100);

    fal.record_received_from_at(1002, "127.0.0.1:7001".to_string(), 1000);
    assert_eq!(fal.active_flow_count(), 1);

    let cleaned = fal.cleanup_stale_flows_at(1150);
    assert_eq!(cleaned, 1);
    assert_eq!(fal.active_flow_count(), 0);
}

// Decimal rendering of addresses, as used in RIB route names.
#[test]
fn decimal_rendering() {
    assert_eq!(u64_to_string(0), "0");
    assert_eq!(u64_to_string(7), "7");
    assert_eq!(u64_to_string(1002), "1002");
    assert_eq!(u64_to_string(18446744073709551615), "18446744073709551615");
}
