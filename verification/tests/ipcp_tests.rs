// Tests of the process lifecycle, configuration and flow allocation.

use ari::config::IpcpMode;
use ari::efcp::FlowConfig;
use ari::fal::{FlowAllocRequest, FlowAllocator};
use ari::ipcp::{IpcProcess, IpcpState};

#[test]
fn test_ipcp_creation() {
    let ipcp = IpcProcess::new();
    assert_eq!(ipcp.state, IpcpState::Initializing);
    assert!(ipcp.name.is_none());
}

#[test]
fn test_ipcp_with_name_and_address() {
    let ipcp = IpcProcess::with_name_and_address("test-ipcp".to_string(), 1000);
    assert_eq!(ipcp.name, Some("test-ipcp".to_string()));
    assert_eq!(ipcp.address, Some(1000));
    assert_eq!(ipcp.state, IpcpState::Ready);
}

#[test]
fn test_ipcp_set_address() {
    let mut ipcp = IpcProcess::new();
    ipcp.set_address(2000);
    assert_eq!(ipcp.address, Some(2000));
}

#[test]
fn test_ipcp_state_transitions() {
    let mut ipcp = IpcProcess::new();

    ipcp.start().unwrap();
    assert_eq!(ipcp.state, IpcpState::Ready);

    ipcp.set_state(IpcpState::Operational);
    assert!(ipcp.is_operational());

    ipcp.shutdown().unwrap();
    assert_eq!(ipcp.state, IpcpState::Shutdown);
}

#[test]
fn test_ipcp_cannot_start_after_shutdown() {
    let mut ipcp = IpcProcess::new();
    ipcp.shutdown().unwrap();

    let result = ipcp.start();
    assert!(result.is_err());
}

#[test]
fn test_ipcp_dif_name() {
    let mut ipcp = IpcProcess::new();
    ipcp.set_dif_name("test-dif".to_string());
    assert_eq!(ipcp.dif_name, Some("test-dif".to_string()));
}

#[test]
fn test_ipcp_mode_parsing() {
    assert_eq!("bootstrap".parse::<IpcpMode>().unwrap(), IpcpMode::Bootstrap);
    assert_eq!("member".parse::<IpcpMode>().unwrap(), IpcpMode::Member);
    assert_eq!("demo".parse::<IpcpMode>().unwrap(), IpcpMode::Demo);
    assert!("invalid".parse::<IpcpMode>().is_err());
}

#[test]
fn test_fal_create_request() {
    let mut fal = FlowAllocator::new();

    let request = fal.create_request(
        "app1".to_string(),
        "app2".to_string(),
        1000,
        2000,
        FlowConfig::default(),
    );

    assert_eq!(request.request_id, 1);
    assert_eq!(fal.pending_count(), 1);
}

#[test]
fn test_fal_process_request() {
    let mut fal = FlowAllocator::new();

    let request = FlowAllocRequest {
        src_app_name: "app1".to_string(),
        dst_app_name: "app2".to_string(),
        src_addr: 1000,
        dst_addr: 2000,
        qos: FlowConfig::default(),
        request_id: 1,
    };

    let response = fal.process_request(request);

    assert!(response.success);
    assert_eq!(response.flow_id, Some(1));
    assert_eq!(fal.flow_count(), 1);
}

#[test]
fn test_fal_deallocate_flow() {
    let mut fal = FlowAllocator::new();

    let request = FlowAllocRequest {
        src_app_name: "app1".to_string(),
        dst_app_name: "app2".to_string(),
        src_addr: 1000,
        dst_addr: 2000,
        qos: FlowConfig::default(),
        request_id: 1,
    };

    let response = fal.process_request(request);
    let flow_id = response.flow_id.unwrap();

    assert!(fal.deallocate_flow(flow_id).is_ok());
    assert_eq!(fal.flow_count(), 0);
}

#[test]
fn test_fal_get_flow() {
    let mut fal = FlowAllocator::new();

    let request = FlowAllocRequest {
        src_app_name: "app1".to_string(),
        dst_app_name: "app2".to_string(),
        src_addr: 1000,
        dst_addr: 2000,
        qos: FlowConfig::default(),
        request_id: 1,
    };

    let response = fal.process_request(request);
    let flow_id = response.flow_id.unwrap();

    let flow = fal.get_flow(flow_id);
    assert!(flow.is_some());
    assert_eq!(flow.unwrap().src_app_name, "app1");
}

// Validation per mode: the bootstrap needs an address and a bind address;
// the member needs a peer and a bind address; the demo needs nothing.
#[test]
fn configuration_validation_rules() {
    let base = ari::config::IpcpConfiguration {
        name: "n".to_string(),
        mode: IpcpMode::Demo,
        dif_name: "d".to_string(),
        address: None,
        bind_address: String::new(),
        bootstrap_peers: Vec::new(),
        address_pool_start: 1002,
        address_pool_end: 1999,
        enrollment_timeout_secs: 5,
        enrollment_max_retries: 3,
        enrollment_initial_backoff_ms: 1000,
        static_routes: Vec::new(),
        enable_route_persistence: false,
        route_snapshot_path: "dynamic-routes.toml".to_string(),
        route_ttl_seconds: 3600,
        route_snapshot_interval_seconds: 300,
        enable_rib_persistence: false,
        rib_snapshot_path: "rib-snapshot.bin".to_string(),
        rib_snapshot_interval_seconds: 300,
        change_log_size: 1000,
        rib_sync_interval_secs: 30,
    };
    assert!(base.validate().is_ok());

    let mut bootstrap = base;
    bootstrap.mode = IpcpMode::Bootstrap;
    assert!(bootstrap.validate().is_err());
    bootstrap.address = Some(1001);
    bootstrap.bind_address = "0.0.0.0:7000".to_string();
    assert!(bootstrap.validate().is_ok());

    let mut member = ari::config::IpcpConfiguration { mode: IpcpMode::Member, ..bootstrap };
    member.address = None;
    member.bootstrap_peers = Vec::new();
    assert!(member.validate().is_err());
    member.bootstrap_peers = vec!["127.0.0.1:7000".to_string()];
    assert!(member.validate().is_ok());
}
