// Tests of the enrollment protocol: the member and bootstrap halves, run
// back to back without a network, plus heartbeats and re-enrollment.

use ari::enrollment::{EnrollmentConfig, EnrollmentManager, EnrollmentRequest, EnrollmentResponse,
    EnrollmentState};
use ari::rib::{Rib, RibValue};

#[test]
fn test_enrollment_state() {
    let rib = Rib::new();
    let mut em = EnrollmentManager::new(rib, 1000);

    assert_eq!(*em.state(), EnrollmentState::NotEnrolled);
    assert!(!em.is_enrolled());

    em.set_ipcp_name("ipcp-1".to_string());
    assert_eq!(*em.state(), EnrollmentState::Initiated);
}

// Dynamic address assignment end to end: the bootstrap accepts a member
// that enrolls with address 0, hands it an address from the pool and the
// DIF name with a RIB snapshot, and records a route back to it.
#[test]
fn dynamic_address_assignment_end_to_end() {
    // Bootstrap with pool [2000, 2999] and a named DIF.
    let mut bootstrap_rib = Rib::new();
    bootstrap_rib
        .create(
            "/dif/name".to_string(),
            "dif_info".to_string(),
            RibValue::String("test-dif".to_string()),
        )
        .unwrap();
    let mut bootstrap = EnrollmentManager::new_bootstrap(bootstrap_rib, 1001, 2000, 2999);

    // Member with no address.
    let member_rib = Rib::new();
    let mut member = EnrollmentManager::new(member_rib, 0);
    member.set_ipcp_name("member-ipcp-1".to_string());

    // The member builds its request; it asks for a dynamic address.
    let request = member.build_enrollment_request_at(50).unwrap();
    assert!(request.request_address);
    assert_eq!(request.ipcp_address, 0);

    // The wire round trip of the request.
    let request_bytes = request.serialize().unwrap();
    let request_again = EnrollmentRequest::deserialize(&request_bytes).unwrap();
    assert_eq!(request_again.ipcp_name, "member-ipcp-1");

    // The bootstrap decides, seeing the member at socket 127.0.0.1:17001.
    let response = bootstrap
        .handle_enrollment_request_at(&request_again, 0, "127.0.0.1:17001", 51)
        .unwrap();
    assert!(response.accepted);
    let assigned = response.assigned_address.unwrap();
    assert!((2000..=2999).contains(&assigned));
    assert_eq!(response.dif_name, "test-dif");
    assert!(response.rib_snapshot.is_some());

    // The bootstrap recorded the dynamic route towards the member.
    let route_name = format!("/routing/dynamic/{}", assigned);
    let route = bootstrap.rib_read(&route_name).unwrap();
    let hop = route.value.struct_get("next_hop_address").unwrap();
    assert_eq!(hop.as_string(), Some("127.0.0.1:17001"));

    // The wire round trip of the response, then the member adopts it.
    let response_bytes = response.serialize().unwrap();
    let response_again = EnrollmentResponse::deserialize(&response_bytes).unwrap();
    let dif = member.adopt_enrollment_response_at(response_again, 52).unwrap();
    assert_eq!(dif, "test-dif");
    assert_eq!(member.local_addr(), assigned);
    assert!(member.is_enrolled());

    // The member's RIB holds the DIF name and its own address.
    let dif_obj = member.rib_read("/dif/name").unwrap();
    assert_eq!(dif_obj.value.as_string(), Some("test-dif"));
    let addr_obj = member.rib_read("/local/address").unwrap();
    assert_eq!(addr_obj.value.as_integer(), Some(assigned as i64));
}

// Pool exhaustion turns into a rejection response, not a crash.
#[test]
fn test_address_pool_exhaustion() {
    let mut bootstrap_rib = Rib::new();
    bootstrap_rib
        .create(
            "/dif/name".to_string(),
            "dif_info".to_string(),
            RibValue::String("test-dif".to_string()),
        )
        .unwrap();
    let mut bootstrap = EnrollmentManager::new_bootstrap(bootstrap_rib, 1001, 2000, 2000);

    let request = EnrollmentRequest {
        ipcp_name: "m1".to_string(),
        ipcp_address: 0,
        dif_name: String::new(),
        timestamp: 1,
        request_address: true,
    };
    let first = bootstrap.handle_enrollment_request_at(&request, 0, "127.0.0.1:1", 1).unwrap();
    assert!(first.accepted);

    let second = bootstrap.handle_enrollment_request_at(&request, 0, "127.0.0.1:2", 2).unwrap();
    assert!(!second.accepted);
    assert!(second.error.unwrap().contains("exhausted"));
}

// Re-enrollment after a heartbeat timeout: healthy right after enrolling,
// unhealthy once the timeout passes, healthy again after re-enrolling.
#[test]
fn reenrollment_after_heartbeat_timeout() {
    let mut bootstrap_rib = Rib::new();
    bootstrap_rib
        .create(
            "/dif/name".to_string(),
            "dif_info".to_string(),
            RibValue::String("test-dif".to_string()),
        )
        .unwrap();
    let mut bootstrap = EnrollmentManager::new_bootstrap(bootstrap_rib, 1001, 2000, 2999);

    let config = EnrollmentConfig { connection_timeout_secs: 4, ..Default::default() };
    let mut member = EnrollmentManager::with_config(Rib::new(), 0, config);
    member.set_ipcp_name("test-member".to_string());

    // Initial enrollment at time 100.
    let request = member.build_enrollment_request_at(100).unwrap();
    let response = bootstrap
        .handle_enrollment_request_at(&request, 0, "127.0.0.1:17001", 100)
        .unwrap();
    member.adopt_enrollment_response_at(response, 100).unwrap();
    let first_addr = member.local_addr();
    assert_ne!(first_addr, 0);
    assert!(member.is_connection_healthy_at(100));

    // Five quiet seconds: the connection counts lost.
    assert!(!member.is_connection_healthy_at(105));

    // Manual re-enrollment from the already assigned address.
    member.begin_re_enrollment();
    assert_eq!(*member.state(), EnrollmentState::Initiated);
    let request2 = member.build_enrollment_request_at(106).unwrap();
    assert!(!request2.request_address);
    assert_eq!(request2.ipcp_address, first_addr);
    let response2 = bootstrap
        .handle_enrollment_request_at(&request2, first_addr, "127.0.0.1:17001", 106)
        .unwrap();
    assert!(response2.accepted);
    assert!(response2.assigned_address.is_none());
    member.adopt_enrollment_response_at(response2, 106).unwrap();
    assert!(member.is_enrolled());
    assert!(member.is_connection_healthy_at(106));
}

#[test]
fn test_heartbeat_update() {
    let config = EnrollmentConfig { connection_timeout_secs: 30, ..Default::default() };
    let mut member = EnrollmentManager::with_config(Rib::new(), 1002, config);
    member.set_ipcp_name("test-member".to_string());

    assert!(!member.is_connection_healthy());

    member.update_heartbeat();

    assert!(member.is_connection_healthy());
}

// The retry backoff doubles per attempt from the configured start.
#[test]
fn backoff_doubles() {
    let config = EnrollmentConfig { initial_backoff_ms: 1000, ..Default::default() };
    let member = EnrollmentManager::with_config(Rib::new(), 0, config);
    assert_eq!(member.backoff_ms(1), 1000);
    assert_eq!(member.backoff_ms(2), 2000);
    assert_eq!(member.backoff_ms(3), 4000);
    assert_eq!(member.backoff_ms(4), 8000);
}

// A rejected response leaves the member unenrolled with the reason.
#[test]
fn rejection_reported() {
    let mut member = EnrollmentManager::new(Rib::new(), 0);
    member.set_ipcp_name("m".to_string());

    let response = EnrollmentResponse {
        accepted: false,
        error: Some("no room".to_string()),
        assigned_address: None,
        dif_name: "d".to_string(),
        rib_snapshot: None,
    };
    let r = member.adopt_enrollment_response_at(response, 5);
    assert!(r.is_err());
    assert!(!member.is_enrolled());
}

// The enrollment payload codecs reject malformed and trailing bytes.
#[test]
fn enrollment_codec_rejects_garbage() {
    let request = EnrollmentRequest {
        ipcp_name: "n".to_string(),
        ipcp_address: 5,
        dif_name: "d".to_string(),
        timestamp: 9,
        request_address: true,
    };
    let mut bytes = request.serialize().unwrap();
    bytes.push(1);
    assert!(EnrollmentRequest::deserialize(&bytes).is_err());
    assert!(EnrollmentResponse::deserialize(&vec![7u8]).is_err());
}

// A member that re-enrolls from a new socket has its dynamic route
// overwritten: the bootstrap records the latest socket.
#[test]
fn re_enrollment_overwrites_dynamic_route() {
    let mut rib = Rib::new();
    rib.create(
        "/dif/name".to_string(),
        "dif_info".to_string(),
        RibValue::String("test-dif".to_string()),
    )
    .unwrap();
    let mut bootstrap = EnrollmentManager::new_bootstrap(rib, 1001, 2000, 2999);

    let request = EnrollmentRequest {
        ipcp_name: "moving-member".to_string(),
        ipcp_address: 5,
        dif_name: String::new(),
        timestamp: 1,
        request_address: false,
    };
    let first = bootstrap.handle_enrollment_request_at(&request, 5, "10.0.0.1:9000", 10).unwrap();
    assert!(first.accepted);
    let second = bootstrap.handle_enrollment_request_at(&request, 5, "10.0.0.2:9500", 20).unwrap();
    assert!(second.accepted);

    let route = bootstrap.rib_read("/routing/dynamic/5").unwrap();
    let hop = route.value.struct_get("next_hop_address").unwrap();
    assert_eq!(hop.as_string(), Some("10.0.0.2:9500"));
}
