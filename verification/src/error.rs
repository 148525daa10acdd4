//! Typed errors for every subsystem.
//!
//! Errors form a closed taxonomy rather than strings.  Each enum has a
//! `message` method that renders a human-readable description; the variants
//! themselves carry the values a caller needs to react.

use vstd::prelude::*;
use crate::strutil::u64_to_string;

verus! {

/// Enrollment protocol errors.
#[derive(Debug, Clone, PartialEq, Eq)]
pub enum EnrollmentError {
    NotEnrolled,
    AlreadyEnrolled(String),
    Rejected(String),
    Timeout { attempts: u32 },
    InvalidState { expected: String, actual: String },
    PeerUnreachable(String),
    NoBootstrapPeers,
    IpcpNameNotSet,
    SerializationFailed(String),
    DeserializationFailed(String),
    SendFailed(String),
    ReceiveFailed(String),
    InvalidResponse(String),
    AddressAssignmentFailed(String),
    RibSyncFailed(String),
    ConnectionLost,
    ReEnrollmentRequired,
}

/// RIB object-store errors.
#[derive(Debug, Clone, PartialEq, Eq)]
pub enum RibError {
    NotFound(String),
    AlreadyExists(String),
    InvalidName(String),
    InvalidClass(String),
    SerializationFailed(String),
    DeserializationFailed(String),
    AccessDenied(String),
    OperationFailed(String),
}

/// Relaying and multiplexing errors.
#[derive(Debug, Clone, PartialEq, Eq)]
pub enum RmtError {
    NoRoute(u64),
    RouteNotFound(u64),
    QueueFull(u64),
    InvalidPdu(String),
    ForwardingFailed(String),
    NextHopUnreachable(u64),
    Network(String),
}

/// Per-flow transport errors.
#[derive(Debug, Clone, PartialEq, Eq)]
pub enum EfcpError {
    FlowNotFound(u64),
    FlowAlreadyExists(u64),
    AllocationFailed(String),
    InvalidConfig(String),
    SendFailed(String),
    ReceiveFailed(String),
    FlowClosed(u64),
    SequenceError { expected: u64, actual: u64 },
}

/// UDP shim errors.
#[derive(Debug, Clone, PartialEq, Eq)]
pub enum ShimError {
    BindFailed(String),
    SendFailed(String),
    ReceiveFailed(String),
    InvalidAddress(String),
    PeerNotRegistered(u64),
    SocketClosed,
    IoError(String),
}

/// CDAP protocol errors.
#[derive(Debug, Clone, PartialEq, Eq)]
pub enum CdapError {
    InvalidOpCode(u8),
    InvalidFormat(String),
    OperationFailed(String),
    InvokeIdMismatch { expected: u32, actual: u32 },
    ObjectNotFound(String),
    SessionError(String),
}

/// Top-level error that any subsystem error maps into.
#[derive(Debug, Clone, PartialEq, Eq)]
pub enum AriError {
    Enrollment(EnrollmentError),
    Rib(RibError),
    Rmt(RmtError),
    Efcp(EfcpError),
    Shim(ShimError),
    Cdap(CdapError),
    Config(String),
    Network(String),
    ChannelClosed,
    Timeout,
    NotImplemented(String),
}

fn described(label: &str, detail: &str) -> (r: String)
    ensures
        r@ == label@ + detail@,
{
    let mut s = String::new();
    s.append(label);
    s.append(detail);
    s
}

fn described_addr(label: &str, addr: u64) -> (r: String)
    ensures
        r@ == label@ + crate::strutil::spec_u64_digits(addr),
{
    let mut s = String::new();
    s.append(label);
    let digits = u64_to_string(addr);
    s.append(digits.as_str());
    s
}

impl RibError {
    /// A readable description of the error.
    pub fn message(&self) -> String {
        match self {
            RibError::NotFound(name) => described("Object not found: ", name.as_str()),
            RibError::AlreadyExists(name) => described("Object already exists: ", name.as_str()),
            RibError::InvalidName(name) => described("Invalid object name: ", name.as_str()),
            RibError::InvalidClass(c) => described("Invalid object class: ", c.as_str()),
            RibError::SerializationFailed(d) => described("Serialization failed: ", d.as_str()),
            RibError::DeserializationFailed(d) => described(
                "Deserialization failed: ",
                d.as_str(),
            ),
            RibError::AccessDenied(d) => described("Access denied: ", d.as_str()),
            RibError::OperationFailed(d) => described("RIB operation failed: ", d.as_str()),
        }
    }
}

impl RmtError {
    /// A readable description of the error.
    pub fn message(&self) -> String {
        match self {
            RmtError::NoRoute(dst) => described_addr("No route to destination: ", *dst),
            RmtError::RouteNotFound(dst) => described_addr(
                "Route not found for destination: ",
                *dst,
            ),
            RmtError::QueueFull(hop) => described_addr("Queue full for next hop: ", *hop),
            RmtError::InvalidPdu(d) => described("Invalid PDU: ", d.as_str()),
            RmtError::ForwardingFailed(d) => described("Forwarding failed: ", d.as_str()),
            RmtError::NextHopUnreachable(hop) => described_addr("Next hop unreachable: ", *hop),
            RmtError::Network(d) => described("Network error: ", d.as_str()),
        }
    }
}

impl EfcpError {
    /// A readable description of the error.
    pub fn message(&self) -> String {
        match self {
            EfcpError::FlowNotFound(id) => described_addr("Flow not found: ", *id),
            EfcpError::FlowAlreadyExists(id) => described_addr("Flow already exists: ", *id),
            EfcpError::AllocationFailed(d) => described("Flow allocation failed: ", d.as_str()),
            EfcpError::InvalidConfig(d) => described("Invalid flow configuration: ", d.as_str()),
            EfcpError::SendFailed(d) => described("Send failed: ", d.as_str()),
            EfcpError::ReceiveFailed(d) => described("Receive failed: ", d.as_str()),
            EfcpError::FlowClosed(id) => described_addr("Flow closed: ", *id),
            EfcpError::SequenceError { expected, actual } => described_addr(
                "Sequence number error, expected: ",
                *expected,
            ),
        }
    }
}

impl EnrollmentError {
    /// A readable description of the error.
    pub fn message(&self) -> String {
        match self {
            EnrollmentError::NotEnrolled => described("Not enrolled in any DIF", ""),
            EnrollmentError::AlreadyEnrolled(d) => described("Already enrolled in DIF: ", d.as_str()),
            EnrollmentError::Rejected(d) => described("Enrollment request rejected: ", d.as_str()),
            EnrollmentError::Timeout { attempts } => described_addr(
                "Enrollment timeout after attempts: ",
                *attempts as u64,
            ),
            EnrollmentError::InvalidState { expected, actual } => described(
                "Invalid enrollment state, expected: ",
                expected.as_str(),
            ),
            EnrollmentError::PeerUnreachable(d) => described(
                "Bootstrap peer not reachable: ",
                d.as_str(),
            ),
            EnrollmentError::NoBootstrapPeers => described("No bootstrap peers configured", ""),
            EnrollmentError::IpcpNameNotSet => described("IPCP name not set", ""),
            EnrollmentError::SerializationFailed(d) => described(
                "Failed to serialize enrollment request: ",
                d.as_str(),
            ),
            EnrollmentError::DeserializationFailed(d) => described(
                "Failed to deserialize enrollment response: ",
                d.as_str(),
            ),
            EnrollmentError::SendFailed(d) => described(
                "Failed to send enrollment request: ",
                d.as_str(),
            ),
            EnrollmentError::ReceiveFailed(d) => described(
                "Failed to receive enrollment response: ",
                d.as_str(),
            ),
            EnrollmentError::InvalidResponse(d) => described(
                "Invalid response format: ",
                d.as_str(),
            ),
            EnrollmentError::AddressAssignmentFailed(d) => described(
                "Address assignment failed: ",
                d.as_str(),
            ),
            EnrollmentError::RibSyncFailed(d) => described(
                "RIB synchronization failed: ",
                d.as_str(),
            ),
            EnrollmentError::ConnectionLost => described("Connection lost to bootstrap", ""),
            EnrollmentError::ReEnrollmentRequired => described("Re-enrollment required", ""),
        }
    }
}

impl ShimError {
    /// A readable description of the error.
    pub fn message(&self) -> String {
        match self {
            ShimError::BindFailed(d) => described("Failed to bind socket: ", d.as_str()),
            ShimError::SendFailed(d) => described("Send failed: ", d.as_str()),
            ShimError::ReceiveFailed(d) => described("Receive failed: ", d.as_str()),
            ShimError::InvalidAddress(d) => described("Invalid socket address: ", d.as_str()),
            ShimError::PeerNotRegistered(a) => described_addr("Peer not registered: ", *a),
            ShimError::SocketClosed => described("Socket closed", ""),
            ShimError::IoError(d) => described("I/O error: ", d.as_str()),
        }
    }
}

impl CdapError {
    /// A readable description of the error.
    pub fn message(&self) -> String {
        match self {
            CdapError::InvalidOpCode(c) => described_addr("Invalid operation code: ", *c as u64),
            CdapError::InvalidFormat(d) => described("Invalid message format: ", d.as_str()),
            CdapError::OperationFailed(d) => described("Operation failed: ", d.as_str()),
            CdapError::InvokeIdMismatch { expected, actual } => described_addr(
                "Invoke ID mismatch, expected: ",
                *expected as u64,
            ),
            CdapError::ObjectNotFound(d) => described("Object not found: ", d.as_str()),
            CdapError::SessionError(d) => described("Session error: ", d.as_str()),
        }
    }
}

impl AriError {
    /// A readable description of the error.
    pub fn message(&self) -> String {
        match self {
            AriError::Enrollment(e) => described("Enrollment error: ", e.message().as_str()),
            AriError::Rib(e) => described("RIB error: ", e.message().as_str()),
            AriError::Rmt(e) => described("RMT error: ", e.message().as_str()),
            AriError::Efcp(e) => described("EFCP error: ", e.message().as_str()),
            AriError::Shim(e) => described("Shim error: ", e.message().as_str()),
            AriError::Cdap(e) => described("CDAP error: ", e.message().as_str()),
            AriError::Config(d) => described("Configuration error: ", d.as_str()),
            AriError::Network(d) => described("Network error: ", d.as_str()),
            AriError::ChannelClosed => described("Actor channel closed", ""),
            AriError::Timeout => described("Operation timed out", ""),
            AriError::NotImplemented(d) => described("Feature not implemented: ", d.as_str()),
        }
    }
}

} // verus!
