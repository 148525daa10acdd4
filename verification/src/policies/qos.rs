//! QoS admission policy: when to drop a PDU instead of queueing it.

use vstd::prelude::*;
use crate::pdu::{Pdu, QoSParameters};

verus! {

/// A QoS policy decides whether PDUs meet their requirements and whether a
/// queue under pressure should drop them.  Implementations are supplied by
/// the embedding process; [`SimpleQoSPolicy`] is the default.
pub trait QoSPolicy {
    /// Whether the PDU's stated requirements are satisfiable at all.
    fn check_qos(&self, pdu: &Pdu) -> bool;

    /// Stamps the PDU with the given parameters.
    fn apply_qos(&self, pdu: &mut Pdu, qos: QoSParameters);

    /// Whether a PDU should be dropped given the current queue length.
    fn should_drop(&self, pdu: &Pdu, queue_length: usize) -> bool;

    /// The policy's name.
    fn name(&self) -> String;
}

/// The default policy: sheds everything below medium priority once a queue
/// passes three quarters of its limit, and everything at the limit.
#[derive(Debug)]
pub struct SimpleQoSPolicy {
    /// Queue length at which everything is dropped.
    pub max_queue_length: usize,
}

impl SimpleQoSPolicy {
    /// A policy around the given queue limit.
    pub fn new(max_queue_length: usize) -> (r: Self)
        ensures
            r.max_queue_length == max_queue_length,
    {
        SimpleQoSPolicy { max_queue_length }
    }
}

impl Default for SimpleQoSPolicy {
    /// A policy with a queue limit of 1000.
    fn default() -> (r: Self)
        ensures
            r.max_queue_length == 1000,
    {
        SimpleQoSPolicy { max_queue_length: 1000 }
    }
}

impl QoSPolicy for SimpleQoSPolicy {
    fn check_qos(&self, pdu: &Pdu) -> bool {
        match pdu.qos.max_delay_ms {
            Some(max_delay) => max_delay != 0,
            None => true,
        }
    }

    fn apply_qos(&self, pdu: &mut Pdu, qos: QoSParameters) {
        pdu.qos = qos;
    }

    fn should_drop(&self, pdu: &Pdu, queue_length: usize) -> bool {
        if queue_length > self.max_queue_length / 4 * 3 {
            if pdu.qos.priority < 128 {
                return true;
            }
        }
        queue_length >= self.max_queue_length
    }

    fn name(&self) -> String {
        let mut s = String::new();
        s.append("SimpleQoS");
        s
    }
}

} // verus!
