//! Pluggable policies: routing computation, PDU scheduling and QoS
//! admission.  These are the polymorphism points the relaying task accepts
//! implementations of; the concrete policies here are the defaults.

pub mod qos;
pub mod routing;
pub mod scheduling;
