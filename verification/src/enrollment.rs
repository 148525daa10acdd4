//! Enrollment: the protocol by which a member joins a DIF.
//!
//! The member builds an enrollment request, sends it to the bootstrap and
//! adopts the response: an assigned address, the DIF name and a full RIB
//! snapshot.  The bootstrap validates the request, allocates an address
//! from its pool, answers with its RIB and installs a dynamic route back
//! to the member.  Liveness is tracked through heartbeats; a member whose
//! connection went stale re-enrolls.
//!
//! Everything here is pure protocol logic: the surrounding process feeds
//! in decoded messages and timestamps and carries the answers onto the
//! wire.

use vstd::prelude::*;
use crate::codec::{spec_enc_string, spec_enc_u64, spec_enc_bool, spec_enc_bytes, spec_dec_string,
    spec_dec_u64, spec_dec_bool, spec_dec_bytes, spec_dec_u8, enc_string, enc_u64, enc_bool,
    enc_bytes, enc_u8, dec_string, dec_u64, dec_bool, dec_bytes, dec_u8};
use crate::directory::{AddressPool, AddressPoolModel};
use crate::error::EnrollmentError;
use crate::rib::{Rib, RibModel, RibValue, RibValueModel, spec_lookup, spec_index_of,
    spec_field_lookup};
use crate::routing::spec_hop_in;
use crate::strutil::{dynamic_route_name, spec_dynamic_route_name, u64_to_string};

verus! {

broadcast use vstd::seq_lib::group_seq_lib_default, vstd::seq::group_seq_axioms, vstd::std_specs::vec::group_vec_axioms;

/// Timing configuration of the enrollment protocol.
#[derive(Debug, Clone, Copy, PartialEq, Eq, Structural)]
pub struct EnrollmentConfig {
    /// Seconds allowed for a single enrollment attempt.
    pub timeout_secs: u64,
    /// How many attempts before giving up.
    pub max_retries: u32,
    /// First retry backoff; it doubles with every further attempt.
    pub initial_backoff_ms: u64,
    /// Seconds between connection-health checks.
    pub heartbeat_interval_secs: u64,
    /// Seconds without a heartbeat after which the connection counts lost.
    pub connection_timeout_secs: u64,
}

impl Default for EnrollmentConfig {
    /// Five-second attempts, three retries, one-second initial backoff,
    /// 30-second heartbeats, 90-second connection timeout.
    fn default() -> (r: Self)
        ensures
            r == (EnrollmentConfig {
                timeout_secs: 5u64,
                max_retries: 3u32,
                initial_backoff_ms: 1000u64,
                heartbeat_interval_secs: 30u64,
                connection_timeout_secs: 90u64,
            }),
    {
        EnrollmentConfig {
            timeout_secs: 5,
            max_retries: 3,
            initial_backoff_ms: 1000,
            heartbeat_interval_secs: 30,
            connection_timeout_secs: 90,
        }
    }
}

/// Where a member stands in the join protocol.
#[derive(Debug, Clone, PartialEq, Eq)]
pub enum EnrollmentState {
    /// Nothing attempted yet.
    NotEnrolled,
    /// The process has a name and may start enrolling.
    Initiated,
    /// A request is out, waiting for acceptance.
    Authenticating,
    /// Accepted; the RIB snapshot is being merged.
    Synchronizing,
    /// A member of the DIF.
    Enrolled,
    /// Gave up, with the reason.
    Failed(String),
}

/// Model of the enrollment state.
pub enum EnrollmentStateModel {
    NotEnrolled,
    Initiated,
    Authenticating,
    Synchronizing,
    Enrolled,
    Failed(Seq<char>),
}

impl View for EnrollmentState {
    type V = EnrollmentStateModel;

    open spec fn view(&self) -> EnrollmentStateModel {
        match self {
            EnrollmentState::NotEnrolled => EnrollmentStateModel::NotEnrolled,
            EnrollmentState::Initiated => EnrollmentStateModel::Initiated,
            EnrollmentState::Authenticating => EnrollmentStateModel::Authenticating,
            EnrollmentState::Synchronizing => EnrollmentStateModel::Synchronizing,
            EnrollmentState::Enrolled => EnrollmentStateModel::Enrolled,
            EnrollmentState::Failed(reason) => EnrollmentStateModel::Failed(reason@),
        }
    }
}

/// A member's request to join.
#[derive(Debug)]
pub struct EnrollmentRequest {
    /// Name of the process asking to join.
    pub ipcp_name: String,
    /// Its address; 0 asks for a dynamic assignment.
    pub ipcp_address: u64,
    /// The DIF to join; empty when the bootstrap decides.
    pub dif_name: String,
    /// Unix seconds when the request was built.
    pub timestamp: u64,
    /// Whether a dynamic address is requested.
    pub request_address: bool,
}

/// Model of an enrollment request.
pub struct EnrollmentRequestModel {
    pub ipcp_name: Seq<char>,
    pub ipcp_address: u64,
    pub dif_name: Seq<char>,
    pub timestamp: u64,
    pub request_address: bool,
}

impl View for EnrollmentRequest {
    type V = EnrollmentRequestModel;

    open spec fn view(&self) -> EnrollmentRequestModel {
        EnrollmentRequestModel {
            ipcp_name: self.ipcp_name@,
            ipcp_address: self.ipcp_address,
            dif_name: self.dif_name@,
            timestamp: self.timestamp,
            request_address: self.request_address,
        }
    }
}

/// The bootstrap's answer to an enrollment request.
#[derive(Debug)]
pub struct EnrollmentResponse {
    /// Whether the member was accepted.
    pub accepted: bool,
    /// Why it was rejected, when it was.
    pub error: Option<String>,
    /// The address assigned to the member, when one was requested.
    pub assigned_address: Option<u64>,
    /// The DIF the member has joined.
    pub dif_name: String,
    /// A full RIB snapshot for bulk synchronization.
    pub rib_snapshot: Option<Vec<u8>>,
}

/// Model of an enrollment response.
pub struct EnrollmentResponseModel {
    pub accepted: bool,
    pub error: Option<Seq<char>>,
    pub assigned_address: Option<u64>,
    pub dif_name: Seq<char>,
    pub rib_snapshot: Option<Seq<u8>>,
}

impl View for EnrollmentResponse {
    type V = EnrollmentResponseModel;

    open spec fn view(&self) -> EnrollmentResponseModel {
        EnrollmentResponseModel {
            accepted: self.accepted,
            error: match self.error {
                Some(e) => Some(e@),
                None => None,
            },
            assigned_address: self.assigned_address,
            dif_name: self.dif_name@,
            rib_snapshot: match self.rib_snapshot {
                Some(bs) => Some(bs@),
                None => None,
            },
        }
    }
}

/// The DIF parameters handed to a new member.
#[derive(Debug)]
pub struct DifConfiguration {
    /// Name of the DIF.
    pub dif_name: String,
    /// The member's assigned address.
    pub assigned_address: u64,
    /// The member's neighbors.
    pub neighbors: Vec<NeighborInfo>,
    /// A full RIB snapshot.
    pub rib_snapshot: Vec<u8>,
}

/// One neighbor of a member.
#[derive(Debug)]
pub struct NeighborInfo {
    /// The neighbor's name.
    pub name: String,
    /// The neighbor's address.
    pub address: u64,
    /// Whether it currently answers.
    pub reachable: bool,
}

// ---------------------------------------------------------------------------
// Wire form of the enrollment payloads
// ---------------------------------------------------------------------------
/// The byte encoding of an enrollment request.
pub open spec fn spec_enc_request(r: EnrollmentRequestModel) -> Seq<u8> {
    spec_enc_string(r.ipcp_name) + spec_enc_u64(r.ipcp_address) + spec_enc_string(r.dif_name)
        + spec_enc_u64(r.timestamp) + spec_enc_bool(r.request_address)
}

pub open spec fn spec_dec_request(s: Seq<u8>) -> Option<(EnrollmentRequestModel, Seq<u8>)> {
    match spec_dec_string(s) {
        None => None,
        Some((ipcp_name, r1)) => match spec_dec_u64(r1) {
            None => None,
            Some((ipcp_address, r2)) => match spec_dec_string(r2) {
                None => None,
                Some((dif_name, r3)) => match spec_dec_u64(r3) {
                    None => None,
                    Some((timestamp, r4)) => match spec_dec_bool(r4) {
                        None => None,
                        Some((request_address, r5)) => Some(
                            (EnrollmentRequestModel {
                                ipcp_name,
                                ipcp_address,
                                dif_name,
                                timestamp,
                                request_address,
                            }, r5),
                        ),
                    },
                },
            },
        },
    }
}

/// The byte encoding of an enrollment response.
pub open spec fn spec_enc_response(r: EnrollmentResponseModel) -> Seq<u8> {
    spec_enc_bool(r.accepted) + (match r.error {
        None => seq![0u8],
        Some(e) => seq![1u8] + spec_enc_string(e),
    }) + (match r.assigned_address {
        None => seq![0u8],
        Some(a) => seq![1u8] + spec_enc_u64(a),
    }) + spec_enc_string(r.dif_name) + (match r.rib_snapshot {
        None => seq![0u8],
        Some(bs) => seq![1u8] + spec_enc_bytes(bs),
    })
}

pub open spec fn spec_dec_response(s: Seq<u8>) -> Option<(EnrollmentResponseModel, Seq<u8>)> {
    match spec_dec_bool(s) {
        None => None,
        Some((accepted, r1)) => match spec_dec_u8(r1) {
            None => None,
            Some((etag, r2)) => {
                let err_part: Option<(Option<Seq<char>>, Seq<u8>)> = if etag == 0 {
                    Some((None, r2))
                } else if etag == 1 {
                    match spec_dec_string(r2) {
                        Some((e, r3)) => Some((Some(e), r3)),
                        None => None,
                    }
                } else {
                    None
                };
                match err_part {
                    None => None,
                    Some((error, r3)) => match spec_dec_u8(r3) {
                        None => None,
                        Some((atag, r4)) => {
                            let addr_part: Option<(Option<u64>, Seq<u8>)> = if atag == 0 {
                                Some((None, r4))
                            } else if atag == 1 {
                                match spec_dec_u64(r4) {
                                    Some((a, r5)) => Some((Some(a), r5)),
                                    None => None,
                                }
                            } else {
                                None
                            };
                            match addr_part {
                                None => None,
                                Some((assigned_address, r5)) => match spec_dec_string(r5) {
                                    None => None,
                                    Some((dif_name, r6)) => match spec_dec_u8(r6) {
                                        None => None,
                                        Some((stag, r7)) => {
                                            let snap_part: Option<(Option<Seq<u8>>, Seq<u8>)> =
                                                if stag == 0 {
                                                Some((None, r7))
                                            } else if stag == 1 {
                                                match spec_dec_bytes(r7) {
                                                    Some((bs, r8)) => Some((Some(bs), r8)),
                                                    None => None,
                                                }
                                            } else {
                                                None
                                            };
                                            match snap_part {
                                                None => None,
                                                Some((rib_snapshot, r8)) => Some(
                                                    (EnrollmentResponseModel {
                                                        accepted,
                                                        error,
                                                        assigned_address,
                                                        dif_name,
                                                        rib_snapshot,
                                                    }, r8),
                                                ),
                                            }
                                        },
                                    },
                                },
                            }
                        },
                    },
                }
            },
        },
    }
}

impl EnrollmentRequest {
    /// Encodes this request for the wire.
    pub fn serialize(&self) -> (r: Result<Vec<u8>, EnrollmentError>)
        ensures
            r matches Ok(bytes) && bytes@ == spec_enc_request(self@),
    {
        let mut out: Vec<u8> = Vec::new();
        enc_string(&mut out, self.ipcp_name.as_str());
        enc_u64(&mut out, self.ipcp_address);
        enc_string(&mut out, self.dif_name.as_str());
        enc_u64(&mut out, self.timestamp);
        enc_bool(&mut out, self.request_address);
        proof {
            assert(out@ =~= spec_enc_request(self@));
        }
        Ok(out)
    }

    /// Decodes a request from the wire; fails on malformed or trailing
    /// bytes.
    pub fn deserialize(data: &Vec<u8>) -> (r: Result<EnrollmentRequest, EnrollmentError>)
        ensures
            match r {
                Ok(m) => spec_dec_request(data@) == Some((m@, Seq::<u8>::empty())),
                Err(_) => match spec_dec_request(data@) {
                    Some((m, rest)) => rest.len() > 0,
                    None => true,
                },
            },
    {
        proof {
            assert(data@.skip(0) =~= data@);
        }
        let (ipcp_name, p1) = match dec_string(data, 0) {
            None => {
                return Err(enrollment_malformed());
            },
            Some(v) => v,
        };
        let (ipcp_address, p2) = match dec_u64(data, p1) {
            None => {
                return Err(enrollment_malformed());
            },
            Some(v) => v,
        };
        let (dif_name, p3) = match dec_string(data, p2) {
            None => {
                return Err(enrollment_malformed());
            },
            Some(v) => v,
        };
        let (timestamp, p4) = match dec_u64(data, p3) {
            None => {
                return Err(enrollment_malformed());
            },
            Some(v) => v,
        };
        let (request_address, p5) = match dec_bool(data, p4) {
            None => {
                return Err(enrollment_malformed());
            },
            Some(v) => v,
        };
        if p5 != data.len() {
            return Err(enrollment_malformed());
        }
        proof {
            assert(data@.skip(p5 as int) =~= Seq::<u8>::empty());
        }
        Ok(EnrollmentRequest { ipcp_name, ipcp_address, dif_name, timestamp, request_address })
    }
}

impl EnrollmentResponse {
    /// Encodes this response for the wire.
    pub fn serialize(&self) -> (r: Result<Vec<u8>, EnrollmentError>)
        ensures
            r matches Ok(bytes) && bytes@ == spec_enc_response(self@),
    {
        let mut out: Vec<u8> = Vec::new();
        enc_bool(&mut out, self.accepted);
        match &self.error {
            None => enc_u8(&mut out, 0),
            Some(e) => {
                enc_u8(&mut out, 1);
                enc_string(&mut out, e.as_str());
            },
        }
        match &self.assigned_address {
            None => enc_u8(&mut out, 0),
            Some(a) => {
                enc_u8(&mut out, 1);
                enc_u64(&mut out, *a);
            },
        }
        enc_string(&mut out, self.dif_name.as_str());
        match &self.rib_snapshot {
            None => enc_u8(&mut out, 0),
            Some(bs) => {
                enc_u8(&mut out, 1);
                enc_bytes(&mut out, bs);
            },
        }
        proof {
            assert(out@ =~= spec_enc_response(self@));
        }
        Ok(out)
    }

    /// Decodes a response from the wire; fails on malformed or trailing
    /// bytes.
    pub fn deserialize(data: &Vec<u8>) -> (r: Result<EnrollmentResponse, EnrollmentError>)
        ensures
            match r {
                Ok(m) => spec_dec_response(data@) == Some((m@, Seq::<u8>::empty())),
                Err(_) => match spec_dec_response(data@) {
                    Some((m, rest)) => rest.len() > 0,
                    None => true,
                },
            },
    {
        proof {
            assert(data@.skip(0) =~= data@);
        }
        let (accepted, p1) = match dec_bool(data, 0) {
            None => {
                return Err(enrollment_malformed());
            },
            Some(v) => v,
        };
        let (error, p2) = match dec_u8(data, p1) {
            None => {
                return Err(enrollment_malformed());
            },
            Some((tag, pa)) => {
                if tag == 0 {
                    (None, pa)
                } else if tag == 1 {
                    match dec_string(data, pa) {
                        None => {
                            return Err(enrollment_malformed());
                        },
                        Some((e, pb)) => (Some(e), pb),
                    }
                } else {
                    return Err(enrollment_malformed());
                }
            },
        };
        let (assigned_address, p3) = match dec_u8(data, p2) {
            None => {
                return Err(enrollment_malformed());
            },
            Some((tag, pa)) => {
                if tag == 0 {
                    (None, pa)
                } else if tag == 1 {
                    match dec_u64(data, pa) {
                        None => {
                            return Err(enrollment_malformed());
                        },
                        Some((a, pb)) => (Some(a), pb),
                    }
                } else {
                    return Err(enrollment_malformed());
                }
            },
        };
        let (dif_name, p4) = match dec_string(data, p3) {
            None => {
                return Err(enrollment_malformed());
            },
            Some(v) => v,
        };
        let (rib_snapshot, p5) = match dec_u8(data, p4) {
            None => {
                return Err(enrollment_malformed());
            },
            Some((tag, pa)) => {
                if tag == 0 {
                    (None, pa)
                } else if tag == 1 {
                    match dec_bytes(data, pa) {
                        None => {
                            return Err(enrollment_malformed());
                        },
                        Some((bs, pb)) => (Some(bs), pb),
                    }
                } else {
                    return Err(enrollment_malformed());
                }
            },
        };
        if p5 != data.len() {
            return Err(enrollment_malformed());
        }
        proof {
            assert(data@.skip(p5 as int) =~= Seq::<u8>::empty());
        }
        Ok(EnrollmentResponse { accepted, error, assigned_address, dif_name, rib_snapshot })
    }
}

/// Decoding the encoding of a request, followed by anything, yields the
/// request back and leaves exactly the trailing bytes.
pub proof fn lemma_dec_enc_request(r: EnrollmentRequestModel, rest: Seq<u8>)
    requires
        vstd::utf8::encode_utf8(r.ipcp_name).len() <= u64::MAX,
        vstd::utf8::encode_utf8(r.dif_name).len() <= u64::MAX,
    ensures
        spec_dec_request(spec_enc_request(r) + rest) == Some((r, rest)),
{
    let t4 = spec_enc_bool(r.request_address) + rest;
    let t3 = spec_enc_u64(r.timestamp) + t4;
    let t2 = spec_enc_string(r.dif_name) + t3;
    let t1 = spec_enc_u64(r.ipcp_address) + t2;
    assert(spec_enc_request(r) + rest =~= spec_enc_string(r.ipcp_name) + t1);
    crate::codec::lemma_dec_enc_string(r.ipcp_name, t1);
    crate::codec::lemma_dec_enc_u64(r.ipcp_address, t2);
    crate::codec::lemma_dec_enc_string(r.dif_name, t3);
    crate::codec::lemma_dec_enc_u64(r.timestamp, t4);
    crate::codec::lemma_dec_enc_bool(r.request_address, rest);
}

/// Decoding the encoding of a response, followed by anything, yields the
/// response back and leaves exactly the trailing bytes.
#[verifier::rlimit(100)]
#[verifier::spinoff_prover]
pub proof fn lemma_dec_enc_response(r: EnrollmentResponseModel, rest: Seq<u8>)
    requires
        r.error matches Some(e) ==> vstd::utf8::encode_utf8(e).len() <= u64::MAX,
        vstd::utf8::encode_utf8(r.dif_name).len() <= u64::MAX,
        r.rib_snapshot matches Some(bs) ==> bs.len() <= u64::MAX,
    ensures
        spec_dec_response(spec_enc_response(r) + rest) == Some((r, rest)),
{
    let part_err = match r.error {
        None => seq![0u8],
        Some(e) => seq![1u8] + spec_enc_string(e),
    };
    let part_addr = match r.assigned_address {
        None => seq![0u8],
        Some(a) => seq![1u8] + spec_enc_u64(a),
    };
    let part_snap = match r.rib_snapshot {
        None => seq![0u8],
        Some(bs) => seq![1u8] + spec_enc_bytes(bs),
    };
    let t4 = part_snap + rest;
    let t3 = spec_enc_string(r.dif_name) + t4;
    let t2 = part_addr + t3;
    let t1 = part_err + t2;
    let s = spec_enc_response(r) + rest;
    assert(s =~= spec_enc_bool(r.accepted) + t1);
    crate::codec::lemma_dec_enc_bool(r.accepted, t1);
    assert(spec_dec_bool(s) == Some((r.accepted, t1)));
    // The error part: its presence byte, then the string when present.
    match r.error {
        None => {
            assert(t1 =~= crate::codec::spec_enc_u8(0u8) + t2);
            crate::codec::lemma_dec_enc_u8(0u8, t2);
            assert(spec_dec_u8(t1) == Some((0u8, t2)));
        },
        Some(e) => {
            assert(t1 =~= crate::codec::spec_enc_u8(1u8) + (spec_enc_string(e) + t2));
            crate::codec::lemma_dec_enc_u8(1u8, spec_enc_string(e) + t2);
            crate::codec::lemma_dec_enc_string(e, t2);
            assert(spec_dec_u8(t1) == Some((1u8, spec_enc_string(e) + t2)));
            assert(spec_dec_string(spec_enc_string(e) + t2) == Some((e, t2)));
        },
    }
    lemma_dec_enc_response_tail(r, t2, t3, t4, rest, part_addr, part_snap);
}

/// The tail of the response encoding, from the assigned address on.
#[verifier::rlimit(100)]
#[verifier::spinoff_prover]
proof fn lemma_dec_enc_response_tail(
    r: EnrollmentResponseModel,
    t2: Seq<u8>,
    t3: Seq<u8>,
    t4: Seq<u8>,
    rest: Seq<u8>,
    part_addr: Seq<u8>,
    part_snap: Seq<u8>,
)
    requires
        vstd::utf8::encode_utf8(r.dif_name).len() <= u64::MAX,
        r.rib_snapshot matches Some(bs) ==> bs.len() <= u64::MAX,
        part_addr == (match r.assigned_address {
            None => seq![0u8],
            Some(a) => seq![1u8] + spec_enc_u64(a),
        }),
        part_snap == (match r.rib_snapshot {
            None => seq![0u8],
            Some(bs) => seq![1u8] + spec_enc_bytes(bs),
        }),
        t4 == part_snap + rest,
        t3 == spec_enc_string(r.dif_name) + t4,
        t2 == part_addr + t3,
    ensures
        match r.assigned_address {
            None => spec_dec_u8(t2) == Some((0u8, t3)),
            Some(a) => spec_dec_u8(t2) == Some((1u8, spec_enc_u64(a) + t3)) && spec_dec_u64(
                spec_enc_u64(a) + t3,
            ) == Some((a, t3)),
        },
        spec_dec_string(t3) == Some((r.dif_name, t4)),
        match r.rib_snapshot {
            None => spec_dec_u8(t4) == Some((0u8, rest)),
            Some(bs) => spec_dec_u8(t4) == Some((1u8, spec_enc_bytes(bs) + rest))
                && spec_dec_bytes(spec_enc_bytes(bs) + rest) == Some((bs, rest)),
        },
{
    match r.assigned_address {
        None => {
            assert(t2 =~= crate::codec::spec_enc_u8(0u8) + t3);
            crate::codec::lemma_dec_enc_u8(0u8, t3);
        },
        Some(a) => {
            assert(t2 =~= crate::codec::spec_enc_u8(1u8) + (spec_enc_u64(a) + t3));
            crate::codec::lemma_dec_enc_u8(1u8, spec_enc_u64(a) + t3);
            crate::codec::lemma_dec_enc_u64(a, t3);
        },
    }
    crate::codec::lemma_dec_enc_string(r.dif_name, t4);
    match r.rib_snapshot {
        None => {
            assert(t4 =~= crate::codec::spec_enc_u8(0u8) + rest);
            crate::codec::lemma_dec_enc_u8(0u8, rest);
        },
        Some(bs) => {
            assert(t4 =~= crate::codec::spec_enc_u8(1u8) + (spec_enc_bytes(bs) + rest));
            crate::codec::lemma_dec_enc_u8(1u8, spec_enc_bytes(bs) + rest);
            crate::codec::lemma_dec_enc_bytes(bs, rest);
        },
    }
}

fn enrollment_malformed() -> (e: EnrollmentError)
    ensures
        e matches EnrollmentError::DeserializationFailed(_),
{
    let mut msg = String::new();
    msg.append("malformed enrollment payload");
    EnrollmentError::DeserializationFailed(msg)
}

// ---------------------------------------------------------------------------
// The manager
// ---------------------------------------------------------------------------
/// Model of the enrollment manager.
pub struct EnrollmentManagerModel {
    pub state: EnrollmentStateModel,
    pub ipcp_name: Option<Seq<char>>,
    pub local_addr: u64,
    pub rib: RibModel,
    pub config: EnrollmentConfig,
    pub address_pool: Option<AddressPoolModel>,
    pub last_heartbeat: Option<u64>,
}

/// The enrollment manager: the member-side join state machine, and the
/// bootstrap-side admission logic with its address pool.
#[derive(Debug)]
pub struct EnrollmentManager {
    state: EnrollmentState,
    ipcp_name: Option<String>,
    local_addr: u64,
    rib: Rib,
    config: EnrollmentConfig,
    address_pool: Option<AddressPool>,
    last_heartbeat: Option<u64>,
}

impl View for EnrollmentManager {
    type V = EnrollmentManagerModel;

    closed spec fn view(&self) -> EnrollmentManagerModel {
        EnrollmentManagerModel {
            state: self.state@,
            ipcp_name: match self.ipcp_name {
                Some(n) => Some(n@),
                None => None,
            },
            local_addr: self.local_addr,
            rib: self.rib@,
            config: self.config,
            address_pool: match self.address_pool {
                Some(p) => Some(p@),
                None => None,
            },
            last_heartbeat: self.last_heartbeat,
        }
    }
}

/// A connection is healthy at `now` when a heartbeat exists and is younger
/// than the configured timeout.
pub open spec fn spec_healthy(
    last_heartbeat: Option<u64>,
    now: u64,
    timeout_secs: u64,
) -> bool {
    match last_heartbeat {
        None => false,
        Some(hb) => (if now >= hb {
            now - hb
        } else {
            0
        }) < timeout_secs,
    }
}

/// The exponential backoff before retry `attempt` (counted from 1):
/// the initial backoff doubled `attempt - 1` times, saturating.
pub open spec fn spec_backoff_ms(initial: u64, attempt: u32) -> u64
    decreases attempt,
{
    if attempt <= 1 {
        initial
    } else {
        let prev = spec_backoff_ms(initial, (attempt - 1) as u32);
        if prev <= u64::MAX / 2 {
            (prev * 2) as u64
        } else {
            u64::MAX
        }
    }
}

impl EnrollmentManager {
    /// The pool and RIB are well-formed.
    pub open spec fn wf(&self) -> bool {
        &&& crate::rib::spec_names_unique(self@.rib.objects)
        &&& self@.rib.log.max_size >= 1
        &&& match self@.address_pool {
            Some(p) => forall|i: int, j: int|
                0 <= i < j < p.assigned.len() ==> (#[trigger] p.assigned[i]) != (
                #[trigger] p.assigned[j]),
            None => true,
        }
        &&& match self@.address_pool {
            Some(p) => forall|i: int|
                0 <= i < p.assigned.len() ==> p.start <= (#[trigger] p.assigned[i]) <= p.end,
            None => true,
        }
    }

    /// The RIB invariant alone.
    pub closed spec fn rib_wf(&self) -> bool {
        self.rib.wf()
    }

    /// A member-side manager with the default configuration.
    pub fn new(rib: Rib, local_addr: u64) -> (r: Self)
        ensures
            r@.state is NotEnrolled,
            r@.ipcp_name is None,
            r@.local_addr == local_addr,
            r@.rib == rib@,
            r@.address_pool is None,
            r@.last_heartbeat is None,
            rib.wf() ==> r.rib_wf() && r.wf(),
    {
        Self::with_config(rib, local_addr, EnrollmentConfig::default())
    }

    /// A member-side manager with an explicit configuration.
    pub fn with_config(rib: Rib, local_addr: u64, config: EnrollmentConfig) -> (r: Self)
        ensures
            r@.state is NotEnrolled,
            r@.ipcp_name is None,
            r@.local_addr == local_addr,
            r@.rib == rib@,
            r@.config == config,
            r@.address_pool is None,
            r@.last_heartbeat is None,
            rib.wf() ==> r.rib_wf() && r.wf(),
    {
        EnrollmentManager {
            state: EnrollmentState::NotEnrolled,
            ipcp_name: None,
            local_addr,
            rib,
            config,
            address_pool: None,
            last_heartbeat: None,
        }
    }

    /// A bootstrap-side manager: pre-enrolled, owning the address pool
    /// `[pool_start, pool_end]`.
    pub fn new_bootstrap(rib: Rib, local_addr: u64, pool_start: u64, pool_end: u64) -> (r: Self)
        ensures
            r@.state is Enrolled,
            r@.local_addr == local_addr,
            r@.rib == rib@,
            r@.address_pool matches Some(p) && p.start == pool_start && p.end == pool_end
                && p.assigned == Seq::<u64>::empty(),
            rib.wf() ==> r.rib_wf() && r.wf(),
    {
        EnrollmentManager {
            state: EnrollmentState::Enrolled,
            ipcp_name: None,
            local_addr,
            rib,
            config: EnrollmentConfig::default(),
            address_pool: Some(AddressPool::new(pool_start, pool_end)),
            last_heartbeat: None,
        }
    }

    /// Names the process; a named process may start enrolling.
    pub fn set_ipcp_name(&mut self, name: String)
        ensures
            final(self)@ == (EnrollmentManagerModel {
                state: EnrollmentStateModel::Initiated,
                ipcp_name: Some(name@),
                ..old(self)@
            }),
            old(self).rib_wf() ==> final(self).rib_wf(),
            old(self).wf() ==> final(self).wf(),
    {
        self.ipcp_name = Some(name);
        self.state = EnrollmentState::Initiated;
    }

    /// The current state.
    pub fn state(&self) -> (r: &EnrollmentState)
        ensures
            r@ == self@.state,
    {
        &self.state
    }

    /// True exactly when enrolled.
    pub fn is_enrolled(&self) -> (r: bool)
        ensures
            r == (self@.state is Enrolled),
    {
        match self.state {
            EnrollmentState::Enrolled => true,
            _ => false,
        }
    }

    /// The local address; 0 until one is assigned.
    pub fn local_addr(&self) -> (r: u64)
        ensures
            r == self@.local_addr,
    {
        self.local_addr
    }

    /// Reads an object from the manager's RIB.
    pub fn rib_read(&self, name: &str) -> (r: Option<crate::rib::RibObject>)
        ensures
            match r {
                Some(o) => spec_lookup(self@.rib.objects, name@) == Some(o@),
                None => spec_lookup(self@.rib.objects, name@) is None,
            },
    {
        self.rib.read(name)
    }

    /// Serializes the manager's RIB for bulk synchronization.
    pub fn rib_serialize(&self) -> (r: Vec<u8>)
        ensures
            r@ == crate::wire::spec_enc_snapshot(self@.rib.objects),
    {
        self.rib.serialize()
    }

    /// The RIB's current version counter.
    pub fn rib_version_counter(&self) -> (r: u64)
        ensures
            r == self@.rib.version_counter,
    {
        self.rib.current_version_counter()
    }

    /// Records a heartbeat at `now`.
    pub fn update_heartbeat_at(&mut self, now: u64)
        ensures
            final(self)@ == (EnrollmentManagerModel { last_heartbeat: Some(now), ..old(self)@ }),
            spec_healthy(final(self)@.last_heartbeat, now, final(self)@.config.connection_timeout_secs)
                == (final(self)@.config.connection_timeout_secs > 0),
            old(self).rib_wf() ==> final(self).rib_wf(),
            old(self).wf() ==> final(self).wf(),
    {
        self.last_heartbeat = Some(now);
    }

    /// Records a heartbeat at the current system time.
    pub fn update_heartbeat(&mut self)
        ensures
            final(self)@.last_heartbeat is Some,
            final(self)@ == (EnrollmentManagerModel {
                last_heartbeat: final(self)@.last_heartbeat,
                ..old(self)@
            }),
            old(self).rib_wf() ==> final(self).rib_wf(),
            old(self).wf() ==> final(self).wf(),
    {
        let now = crate::clock::unix_now_secs();
        self.update_heartbeat_at(now);
    }

    /// Whether the connection counts healthy at `now`: a heartbeat exists
    /// and is younger than the connection timeout.
    pub fn is_connection_healthy_at(&self, now: u64) -> (r: bool)
        ensures
            r == spec_healthy(self@.last_heartbeat, now, self@.config.connection_timeout_secs),
    {
        match self.last_heartbeat {
            None => false,
            Some(hb) => {
                let age = if now >= hb {
                    now - hb
                } else {
                    0
                };
                age < self.config.connection_timeout_secs
            },
        }
    }

    /// Whether the connection counts healthy at the current system time.
    pub fn is_connection_healthy(&self) -> (r: bool)
        ensures
            exists|now: u64|
                r == #[trigger] spec_healthy(
                    self@.last_heartbeat,
                    now,
                    self@.config.connection_timeout_secs,
                ),
    {
        let now = crate::clock::unix_now_secs();
        let r = self.is_connection_healthy_at(now);
        proof {
            assert(r == spec_healthy(
                self@.last_heartbeat,
                now,
                self@.config.connection_timeout_secs,
            ));
        }
        r
    }

    /// The backoff before retry `attempt` (counted from 1): the initial
    /// backoff doubled per further attempt, saturating at the limit.
    pub fn backoff_ms(&self, attempt: u32) -> (r: u64)
        ensures
            r == spec_backoff_ms(self@.config.initial_backoff_ms, attempt),
    {
        let mut value: u64 = self.config.initial_backoff_ms;
        let mut k: u32 = 1;
        while k < attempt
            invariant
                1 <= k,
                attempt > 1 ==> k <= attempt,
                attempt <= 1 ==> k == 1,
                value == spec_backoff_ms(self.config.initial_backoff_ms, k),
                self.config.initial_backoff_ms == self@.config.initial_backoff_ms,
            decreases attempt - k,
        {
            if value <= u64::MAX / 2 {
                value = value * 2;
            } else {
                value = u64::MAX;
            }
            k = k + 1;
        }
        value
    }

    /// Builds the enrollment request sent to the bootstrap, stamped with
    /// `now`.  A dynamic address is requested exactly when the local
    /// address is still unassigned.  Fails when the process has no name.
    pub fn build_enrollment_request_at(&self, now: u64) -> (r: Result<
        EnrollmentRequest,
        EnrollmentError,
    >)
        ensures
            match r {
                Ok(req) => {
                    &&& self@.ipcp_name matches Some(n) && req@.ipcp_name == n
                    &&& req@.ipcp_address == self@.local_addr
                    &&& req@.dif_name == Seq::<char>::empty()
                    &&& req@.timestamp == now
                    &&& req@.request_address == (self@.local_addr == 0)
                },
                Err(e) => e is IpcpNameNotSet && self@.ipcp_name is None,
            },
    {
        let name = match &self.ipcp_name {
            Some(n) => {
                let mut copy = String::new();
                copy.append(n.as_str());
                copy
            },
            None => {
                return Err(EnrollmentError::IpcpNameNotSet);
            },
        };
        let dif_name = String::new();
        Ok(
            EnrollmentRequest {
                ipcp_name: name,
                ipcp_address: self.local_addr,
                dif_name,
                timestamp: now,
                request_address: self.local_addr == 0,
            },
        )
    }

    /// Adopts an accepted enrollment response at `now`: the assigned
    /// address becomes the local address (and is recorded in the RIB), the
    /// snapshot is merged, the DIF name is recorded, the state becomes
    /// `Enrolled` and the heartbeat is fresh.  A rejection fails with the
    /// bootstrap's reason and changes nothing.
    pub fn adopt_enrollment_response_at(&mut self, response: EnrollmentResponse, now: u64) -> (r:
        Result<String, EnrollmentError>)
        requires
            old(self).rib_wf(),
            old(self)@.rib.version_counter < u64::MAX - 2,
            old(self).wf(),
        ensures
            final(self).rib_wf(),
            final(self).wf(),
            match r {
                Ok(dif) => {
                    &&& response@.accepted
                    &&& dif@ == response@.dif_name
                    &&& final(self)@.state is Enrolled
                    &&& final(self)@.local_addr == (match response@.assigned_address {
                        Some(a) => a,
                        None => old(self)@.local_addr,
                    })
                    &&& final(self)@.last_heartbeat == Some(now)
                    &&& ({
                        let eff = spec_adopt_effect(
                            old(self)@.rib.objects,
                            old(self)@.rib.version_counter,
                            response@.assigned_address,
                            response@.rib_snapshot,
                            response@.dif_name,
                            now,
                        );
                        final(self)@.rib.objects == eff.0 && final(self)@.rib.version_counter
                            == eff.1
                    })
                    &&& final(self)@.rib.log.max_size == old(self)@.rib.log.max_size
                    &&& final(self)@ == (EnrollmentManagerModel {
                        state: EnrollmentStateModel::Enrolled,
                        local_addr: final(self)@.local_addr,
                        last_heartbeat: Some(now),
                        rib: final(self)@.rib,
                        ..old(self)@
                    })
                    &&& (spec_lookup(old(self)@.rib.objects, "/dif/name"@) is None
                        && response@.rib_snapshot is None ==> (spec_lookup(
                        final(self)@.rib.objects,
                        "/dif/name"@,
                    ) matches Some(o) && o.value == RibValueModel::String(response@.dif_name)))
                },
                Err(e) => {
                    &&& !response@.accepted
                    &&& final(self)@ == old(self)@
                    &&& e matches EnrollmentError::Rejected(_)
                },
            },
    {
        if !response.accepted {
            let reason = match response.error {
                Some(e) => e,
                None => {
                    let mut msg = String::new();
                    msg.append("Enrollment rejected");
                    msg
                },
            };
            return Err(EnrollmentError::Rejected(reason));
        }
        let ghost eff = spec_adopt_effect(
            old(self)@.rib.objects,
            old(self)@.rib.version_counter,
            response@.assigned_address,
            response@.rib_snapshot,
            response@.dif_name,
            now,
        );
        if let Some(assigned) = response.assigned_address {
            self.local_addr = assigned;
            let mut name = String::new();
            name.append("/local/address");
            let mut class = String::new();
            class.append("address");
            let _ = self.rib.create_at(name, class, RibValue::Integer(assigned as i64), now);
        }
        let ghost s1 = spec_adopt_step_addr(
            old(self)@.rib.objects,
            old(self)@.rib.version_counter,
            response@.assigned_address,
            now,
        );
        proof {
            assert(self@.rib.objects == s1.0 && self@.rib.version_counter == s1.1);
        }
        if let Some(snapshot) = &response.rib_snapshot {
            let _ = self.rib.deserialize_at(snapshot, now);
        }
        let ghost s2 = spec_adopt_step_snapshot(s1, response@.rib_snapshot);
        proof {
            assert(self@.rib.objects == s2.0 && self@.rib.version_counter == s2.1);
        }
        let had_snapshot = match &response.rib_snapshot {
            Some(_) => true,
            None => false,
        };
        let mut dif_copy = String::new();
        dif_copy.append(response.dif_name.as_str());
        if self.rib.version_counter_room() {
            let mut name = String::new();
            name.append("/dif/name");
            let mut class = String::new();
            class.append("dif_info");
            let _ = self.rib.create_at(name, class, RibValue::String(dif_copy), now);
        }
        proof {
            assert(self@.rib.objects == eff.0 && self@.rib.version_counter == eff.1);
        }
        self.state = EnrollmentState::Enrolled;
        self.last_heartbeat = Some(now);
        proof {
            if spec_lookup(old(self)@.rib.objects, "/dif/name"@) is None && !had_snapshot {
                reveal_strlit("/dif/name");
                reveal_strlit("/local/address");
                let dif = "/dif/name"@;
                let post = self@.rib.objects;
                crate::rib::lemma_index_of(old(self)@.rib.objects, dif);
                crate::rib::lemma_index_of(post, dif);
                assert(post[post.len() - 1].name == dif);
                let j = spec_index_of(post, dif);
                assert(j != -1);
                assert(j == post.len() - 1) by {
                    if j < post.len() - 1 {
                        if response@.assigned_address is Some && j == post.len() - 2 {
                            assert(post[j].name == "/local/address"@);
                            assert("/local/address"@.len() != dif.len());
                        } else {
                            assert(old(self)@.rib.objects[j].name != dif);
                        }
                    }
                }
                assert(post[j].value == RibValueModel::String(response@.dif_name));
            }
        }
        Ok(response.dif_name)
    }

    /// Adopts the static routes pulled from the bootstrap after enrolling:
    /// each field of the struct maps a destination to its route record,
    /// stored under `/routing/static/{destination}` in field order.
    /// Existing names stay; the count of newly created routes is returned.
    /// A non-struct value changes nothing: route synchronization is the
    /// soft step of enrollment and its failures are not fatal.
    #[verifier::loop_isolation(false)]
    pub fn adopt_static_routes_at(&mut self, routes: &RibValue, now: u64) -> (r: usize)
        requires
            old(self).rib_wf(),
            old(self).wf(),
        ensures
            final(self).rib_wf(),
            final(self).wf(),
            final(self)@.rib.log.max_size == old(self)@.rib.log.max_size,
            !(routes@ is Struct) ==> final(self)@ == old(self)@ && r == 0,
            routes@ matches RibValueModel::Struct(fields) ==> ({
                let eff = spec_static_routes_effect(
                    (old(self)@.rib.objects, old(self)@.rib.version_counter, 0),
                    fields,
                    now,
                );
                &&& final(self)@.rib.objects == eff.0
                &&& final(self)@.rib.version_counter == eff.1
                &&& r == eff.2
                &&& final(self)@ == (EnrollmentManagerModel { rib: final(self)@.rib, ..old(self)@ })
            }),
    {
        let fields = match routes {
            RibValue::Struct(fields) => fields,
            _ => {
                return 0;
            },
        };
        let ghost fm = crate::rib::fields_model(fields@);
        let ghost total = spec_static_routes_effect(
            (old(self)@.rib.objects, old(self)@.rib.version_counter, 0),
            fm,
            now,
        );
        proof {
            crate::rib::lemma_fields_model(fields@);
            assert(fm.skip(0) =~= fm);
        }
        let mut created: usize = 0;
        let mut i: usize = 0;
        while i < fields.len()
            invariant
                i <= fields@.len(),
                created <= i,
                self.rib_wf(),
                self.wf(),
                self@.rib.log.max_size == old(self)@.rib.log.max_size,
                self@ == (EnrollmentManagerModel { rib: self@.rib, ..old(self)@ }),
                spec_static_routes_effect(
                    (self@.rib.objects, self@.rib.version_counter, created as nat),
                    fm.skip(i as int),
                    now,
                ) == total,
            decreases fields@.len() - i,
        {
            let ghost pre = (self@.rib.objects, self@.rib.version_counter, created as nat);
            let ghost rest = fm.skip(i as int);
            if self.rib.version_counter_room() {
                let mut name = String::new();
                name.append("/routing/static/");
                name.append(fields[i].0.as_str());
                let mut class = String::new();
                class.append("static_route");
                let value = fields[i].1.clone();
                proof {
                    assert(name@ == "/routing/static/"@ + fm[i as int].0);
                    assert(value@ == fm[i as int].1);
                }
                match self.rib.create_at(name, class, value, now) {
                    Ok(_) => {
                        created = created + 1;
                    },
                    Err(_) => {},
                }
            }
            proof {
                assert(rest.len() > 0 && rest[0] == fm[i as int]);
                assert(rest.drop_first() =~= fm.skip(i as int + 1));
                assert((self@.rib.objects, self@.rib.version_counter, created as nat)
                    == spec_static_route_step(pre, fm[i as int], now));
            }
            i = i + 1;
        }
        proof {
            assert(fm.skip(fields@.len() as int) =~= Seq::<(Seq<char>, RibValueModel)>::empty());
        }
        created
    }

    /// Marks the member as failed with a reason.
    pub fn mark_failed(&mut self, reason: String)
        ensures
            final(self)@ == (EnrollmentManagerModel {
                state: EnrollmentStateModel::Failed(reason@),
                ..old(self)@
            }),
            old(self).rib_wf() ==> final(self).rib_wf(),
            old(self).wf() ==> final(self).wf(),
    {
        self.state = EnrollmentState::Failed(reason);
    }

    /// Returns the member to `Initiated` for a re-enrollment, keeping its
    /// current (possibly already assigned) address.
    pub fn begin_re_enrollment(&mut self)
        ensures
            final(self)@ == (EnrollmentManagerModel {
                state: EnrollmentStateModel::Initiated,
                ..old(self)@
            }),
            old(self).rib_wf() ==> final(self).rib_wf(),
            old(self).wf() ==> final(self).wf(),
    {
        self.state = EnrollmentState::Initiated;
    }

    /// The bootstrap's admission decision for one enrollment request, seen
    /// from the peer at `src_addr` / `src_socket`, at time `now`.
    ///
    /// It fails exactly when the RIB holds no string DIF name, or when an
    /// address is requested and no pool exists; with both in place, the
    /// request is rejected exactly on pool exhaustion and accepted
    /// otherwise.  An accepted response carries the stored DIF name, a
    /// freshly allocated pool address when one was requested, and the full
    /// snapshot encoding of this RIB; the dynamic route
    /// `/routing/dynamic/{member}` towards the member's socket is created,
    /// or overwritten if the member re-enrolls from a new socket.
    pub fn handle_enrollment_request_at(
        &mut self,
        request: &EnrollmentRequest,
        src_addr: u64,
        src_socket: &str,
        now: u64,
    ) -> (r: Result<EnrollmentResponse, EnrollmentError>)
        requires
            old(self).rib_wf(),
            old(self).wf(),
            old(self)@.rib.version_counter < u64::MAX,
        ensures
            final(self).rib_wf(),
            final(self).wf(),
            ({
                let dif = spec_lookup(old(self)@.rib.objects, "/dif/name"@);
                let dif_ok = dif matches Some(o) && o.value is String;
                let no_pool = request@.request_address && old(self)@.address_pool is None;
                let exhausted = request@.request_address && (match old(self)@.address_pool {
                    Some(p) => forall|a: u64|
                        p.start <= a <= p.end ==> #[trigger] p.assigned.contains(a),
                    None => false,
                });
                match r {
                    Ok(resp) => {
                        &&& dif_ok
                        &&& !no_pool
                        &&& resp@.dif_name == spec_dif_name_in(old(self)@.rib.objects)
                        &&& resp@.accepted <==> !exhausted
                        &&& (!resp@.accepted ==> resp@.assigned_address is None && resp@.error
                            is Some && resp@.rib_snapshot is None && final(self)@ == old(self)@)
                        &&& (resp@.accepted ==> {
                            let member = match resp@.assigned_address {
                                Some(a) => a,
                                None => src_addr,
                            };
                            &&& resp@.error is None
                            &&& resp@.rib_snapshot == Some(
                                crate::wire::spec_enc_snapshot(old(self)@.rib.objects),
                            )
                            &&& (request@.request_address ==> (resp@.assigned_address matches Some(
                                a,
                            ) && old(self)@.address_pool matches Some(p) && p.start <= a <= p.end
                                && !p.assigned.contains(a) && final(self)@.address_pool == Some(
                                AddressPoolModel { assigned: p.assigned.push(a), ..p },
                            )))
                            &&& (!request@.request_address ==> resp@.assigned_address is None
                                && final(self)@.address_pool == old(self)@.address_pool)
                            &&& (member != 0 ==> spec_hop_in(
                                final(self)@.rib.objects,
                                spec_dynamic_route_name(member),
                            ) == Some(src_socket@) && final(self)@.rib.objects
                                == spec_member_route_write(
                                old(self)@.rib.objects,
                                member,
                                src_socket@,
                                old(self)@.rib.version_counter,
                                now,
                            ))
                            &&& (member == 0 ==> final(self)@.rib == old(self)@.rib)
                            &&& final(self)@ == (EnrollmentManagerModel {
                                rib: final(self)@.rib,
                                address_pool: final(self)@.address_pool,
                                ..old(self)@
                            })
                        })
                    },
                    Err(e) => {
                        &&& final(self)@ == old(self)@
                        &&& (e is InvalidState <==> !dif_ok)
                        &&& (e is AddressAssignmentFailed <==> dif_ok && no_pool)
                        &&& (e is InvalidState || e is AddressAssignmentFailed)
                    },
                }
            }),
    {
        proof {
            reveal_strlit("destination");
            reveal_strlit("next_hop_address");
        }
        let dif_name = match self.rib.read("/dif/name") {
            None => {
                let mut expected = String::new();
                expected.append("a DIF name in the RIB");
                let mut actual = String::new();
                actual.append("none");
                return Err(EnrollmentError::InvalidState { expected, actual });
            },
            Some(obj) => {
                match obj.value.as_string() {
                    None => {
                        let mut expected = String::new();
                        expected.append("a string DIF name");
                        let mut actual = String::new();
                        actual.append("another value");
                        return Err(EnrollmentError::InvalidState { expected, actual });
                    },
                    Some(s) => {
                        let mut copy = String::new();
                        copy.append(s);
                        copy
                    },
                }
            },
        };
        let assigned_address: Option<u64> = if request.request_address {
            match &mut self.address_pool {
                None => {
                    let mut msg = String::new();
                    msg.append("bootstrap has no address pool");
                    return Err(EnrollmentError::AddressAssignmentFailed(msg));
                },
                Some(pool) => {
                    match pool.allocate() {
                        Ok(addr) => Some(addr),
                        Err(e) => {
                            let mut msg = String::new();
                            msg.append("Address allocation failed: ");
                            msg.append(e.as_str());
                            return Ok(
                                EnrollmentResponse {
                                    accepted: false,
                                    error: Some(msg),
                                    assigned_address: None,
                                    dif_name,
                                    rib_snapshot: None,
                                },
                            );
                        },
                    }
                },
            }
        } else {
            None
        };
        let rib_snapshot = Some(self.rib.serialize());
        let member_addr = match assigned_address {
            Some(a) => a,
            None => src_addr,
        };
        if member_addr != 0 {
            let ghost mid = self@.rib.objects;
            let route_name = dynamic_route_name(member_addr);
            let mut fields: Vec<(String, RibValue)> = Vec::new();
            let mut f1 = String::new();
            f1.append("destination");
            fields.push((f1, RibValue::String(u64_to_string(member_addr))));
            let mut f2 = String::new();
            f2.append("next_hop_address");
            let mut sock = String::new();
            sock.append(src_socket);
            fields.push((f2, RibValue::String(sock)));
            let mut f3 = String::new();
            f3.append("next_hop_rina_addr");
            fields.push((f3, RibValue::String(u64_to_string(member_addr))));
            let value = RibValue::Struct(fields);
            proof {
                crate::rib::lemma_fields_model(fields@);
                assert(crate::rib::fields_model(fields@) =~= spec_member_route_value(
                    member_addr,
                    src_socket@,
                )->Struct_0);
                assert(value@ == spec_member_route_value(member_addr, src_socket@));
            }
            let route_missing = match self.rib.read(route_name.as_str()) {
                None => true,
                Some(_) => false,
            };
            let written: Result<(), crate::error::RibError> = if route_missing {
                let mut class = String::new();
                class.append("route");
                self.rib.create_at(route_name, class, value, now)
            } else {
                self.rib.update_at(route_name.as_str(), value, now)
            };
            proof {
                assert(written is Ok);
                assert("destination"@.len() != "next_hop_address"@.len());
                assert(self@.rib.objects == spec_member_route_write(
                    mid,
                    member_addr,
                    src_socket@,
                    old(self)@.rib.version_counter,
                    now,
                ));
                lemma_member_hop_after_write(
                    mid,
                    self@.rib.objects,
                    member_addr,
                    src_socket@,
                    old(self)@.rib.version_counter,
                    now,
                );
            }
        }
        Ok(
            EnrollmentResponse {
                accepted: true,
                error: None,
                assigned_address,
                dif_name,
                rib_snapshot,
            },
        )
    }
}

/// One static-route adoption step: the record is stored under
/// `/routing/static/{destination}` with a fresh version, unless the name
/// is taken or the version counter is exhausted.
pub open spec fn spec_static_route_step(
    s: (Seq<crate::rib::RibObjectModel>, u64, nat),
    field: (Seq<char>, RibValueModel),
    now: u64,
) -> (Seq<crate::rib::RibObjectModel>, u64, nat) {
    let name = "/routing/static/"@ + field.0;
    if s.1 < u64::MAX && spec_lookup(s.0, name) is None {
        (
            s.0.push(
                crate::rib::spec_object(name, "static_route"@, field.1, (s.1 + 1) as u64, now),
            ),
            (s.1 + 1) as u64,
            s.2 + 1,
        )
    } else {
        s
    }
}

/// The store, counter and created count after adopting a whole struct of
/// static routes, field by field in order.
pub open spec fn spec_static_routes_effect(
    s: (Seq<crate::rib::RibObjectModel>, u64, nat),
    fields: Seq<(Seq<char>, RibValueModel)>,
    now: u64,
) -> (Seq<crate::rib::RibObjectModel>, u64, nat)
    decreases fields.len(),
{
    if fields.len() == 0 {
        s
    } else {
        spec_static_routes_effect(spec_static_route_step(s, fields[0], now), fields.drop_first(), now)
    }
}

/// The store and counter after recording a freshly assigned address under
/// `/local/address`; a taken name or no assignment leaves both alone.
pub open spec fn spec_adopt_step_addr(
    pre: Seq<crate::rib::RibObjectModel>,
    c: u64,
    assigned: Option<u64>,
    now: u64,
) -> (Seq<crate::rib::RibObjectModel>, u64) {
    match assigned {
        Some(a) => if spec_lookup(pre, "/local/address"@) is None && c < u64::MAX {
            (
                pre.push(
                    crate::rib::spec_object(
                        "/local/address"@,
                        "address"@,
                        RibValueModel::Integer(a as i64),
                        (c + 1) as u64,
                        now,
                    ),
                ),
                (c + 1) as u64,
            )
        } else {
            (pre, c)
        },
        None => (pre, c),
    }
}

/// The store and counter after merging a bootstrap snapshot, if one came:
/// highest version wins, and the counter catches up with the snapshot's
/// largest version.  Malformed bytes change nothing.
pub open spec fn spec_adopt_step_snapshot(
    s: (Seq<crate::rib::RibObjectModel>, u64),
    snapshot: Option<Seq<u8>>,
) -> (Seq<crate::rib::RibObjectModel>, u64) {
    match snapshot {
        Some(bytes) => if bytes.len() == 0 {
            s
        } else {
            match crate::wire::spec_dec_snapshot(bytes) {
                Some(p) => if p.1.len() == 0 {
                    (
                        crate::rib::spec_merge(s.0, p.0),
                        crate::rib::spec_max_u64(s.1, crate::rib::spec_max_version(p.0)),
                    )
                } else {
                    s
                },
                None => s,
            }
        },
        None => s,
    }
}

/// The store and counter a member's RIB holds after adopting an accepted
/// enrollment response: the assigned address is recorded, the snapshot
/// merged, and the DIF name recorded, each step skipped when its name is
/// already present (or, for the DIF name, when the counter is exhausted).
pub open spec fn spec_adopt_effect(
    pre: Seq<crate::rib::RibObjectModel>,
    c: u64,
    assigned: Option<u64>,
    snapshot: Option<Seq<u8>>,
    dif: Seq<char>,
    now: u64,
) -> (Seq<crate::rib::RibObjectModel>, u64) {
    let s2 = spec_adopt_step_snapshot(spec_adopt_step_addr(pre, c, assigned, now), snapshot);
    if s2.1 < u64::MAX && spec_lookup(s2.0, "/dif/name"@) is None {
        (
            s2.0.push(
                crate::rib::spec_object(
                    "/dif/name"@,
                    "dif_info"@,
                    RibValueModel::String(dif),
                    (s2.1 + 1) as u64,
                    now,
                ),
            ),
            (s2.1 + 1) as u64,
        )
    } else {
        s2
    }
}

/// The string the RIB stores under `/dif/name`, when it holds one.
pub open spec fn spec_dif_name_in(objs: Seq<crate::rib::RibObjectModel>) -> Seq<char> {
    match spec_lookup(objs, "/dif/name"@) {
        Some(o) => match o.value {
            RibValueModel::String(d) => d,
            _ => Seq::empty(),
        },
        None => Seq::empty(),
    }
}

/// The RIB value stored for a member's dynamic route on the bootstrap:
/// destination, next-hop socket and next-hop address, the addresses in
/// decimal.
pub open spec fn spec_member_route_value(member: u64, socket: Seq<char>) -> RibValueModel {
    RibValueModel::Struct(
        seq![
            ("destination"@, RibValueModel::String(crate::strutil::spec_u64_digits(member))),
            ("next_hop_address"@, RibValueModel::String(socket)),
            (
                "next_hop_rina_addr"@,
                RibValueModel::String(crate::strutil::spec_u64_digits(member)),
            ),
        ],
    )
}

/// The bootstrap RIB after writing the member's dynamic route at `now`:
/// created fresh, or overwritten in place with the stamp never moving
/// backwards.
pub open spec fn spec_member_route_write(
    pre: Seq<crate::rib::RibObjectModel>,
    member: u64,
    socket: Seq<char>,
    counter: u64,
    now: u64,
) -> Seq<crate::rib::RibObjectModel> {
    let name = spec_dynamic_route_name(member);
    let i = spec_index_of(pre, name);
    if i == -1 {
        pre.push(
            crate::rib::spec_object(
                name,
                "route"@,
                spec_member_route_value(member, socket),
                (counter + 1) as u64,
                now,
            ),
        )
    } else {
        pre.update(
            i,
            crate::rib::spec_object(
                name,
                pre[i].class,
                spec_member_route_value(member, socket),
                (counter + 1) as u64,
                if now >= pre[i].last_modified {
                    now
                } else {
                    pre[i].last_modified
                },
            ),
        )
    }
}

/// After the member-route write, the RIB records the member's socket as
/// its next hop.
proof fn lemma_member_hop_after_write(
    pre: Seq<crate::rib::RibObjectModel>,
    post: Seq<crate::rib::RibObjectModel>,
    member: u64,
    socket: Seq<char>,
    c: u64,
    t: u64,
)
    requires
        post == spec_member_route_write(pre, member, socket, c, t),
        forall|a: int, b: int|
            0 <= a < b < pre.len() ==> (#[trigger] pre[a]).name != (#[trigger] pre[b]).name,
        "destination"@ != "next_hop_address"@,
    ensures
        spec_hop_in(post, spec_dynamic_route_name(member)) == Some(socket),
{
    let name = spec_dynamic_route_name(member);
    crate::rib::lemma_index_of(pre, name);
    let i = spec_index_of(pre, name);
    crate::rib::lemma_index_of(post, name);
    if i == -1 {
        assert(post[pre.len() as int].name == name);
        let j = spec_index_of(post, name);
        assert(j != -1);
        if j < pre.len() {
            assert(post[j] == pre[j]);
        }
        assert(j == pre.len());
        assert(post[j].value == spec_member_route_value(member, socket));
    } else {
        assert(post[i].name == name);
        let j = spec_index_of(post, name);
        assert(j != -1);
        if j < i {
            assert(post[j] == pre[j]);
            assert(pre[j].name != name);
        }
        assert(j == i);
        assert(post[j].value == spec_member_route_value(member, socket));
    }
    let j = spec_index_of(post, name);
    assert(spec_lookup(post, name) == Some(post[j]));
    reveal_with_fuel(spec_field_lookup, 4);
    assert(spec_field_lookup(
        spec_member_route_value(member, socket)->Struct_0,
        "next_hop_address"@,
    ) == Some(RibValueModel::String(socket))) by {
        let fields = spec_member_route_value(member, socket)->Struct_0;
        assert(fields[0].0 == "destination"@);
        assert(fields[1].0 == "next_hop_address"@);
        assert(fields.drop_first()[0] == fields[1]);
    }
}

} // verus!
