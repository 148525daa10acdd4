//! Scheduling policies: the order in which queued PDUs leave the node.

use vstd::prelude::*;
use crate::pdu::Pdu;

verus! {

broadcast use vstd::seq_lib::group_seq_lib_default, vstd::seq::group_seq_axioms, vstd::std_specs::vec::group_vec_axioms;

/// A scheduling policy owns a queue of PDUs and decides which leaves next.
/// Implementations are supplied by the embedding process;
/// [`FifoScheduling`] and [`PriorityScheduling`] are the defaults.
pub trait SchedulingPolicy {
    /// Accepts a PDU, or reports the queue full.
    fn enqueue(&mut self, pdu: Pdu) -> Result<(), String>;

    /// Hands out the next PDU to send, if any.
    fn dequeue(&mut self) -> Option<Pdu>;

    /// How many PDUs wait.
    fn queue_length(&self) -> usize;

    /// The policy's name.
    fn name(&self) -> String;
}

/// First in, first out, up to a bound.
#[derive(Debug)]
pub struct FifoScheduling {
    queue: Vec<Pdu>,
    max_size: usize,
}

impl FifoScheduling {
    /// How many PDUs wait (spec view).
    pub closed spec fn spec_len(&self) -> nat {
        self.queue@.len()
    }
}

impl FifoScheduling {
    /// An empty queue bounded by `max_size`.
    pub fn new(max_size: usize) -> (r: Self)
        ensures
            r.spec_len() == 0,
    {
        FifoScheduling { queue: Vec::new(), max_size }
    }
}

impl Default for FifoScheduling {
    /// An empty queue bounded by 1000.
    fn default() -> (r: Self)
        ensures
            r.spec_len() == 0,
    {
        Self::new(1000)
    }
}

impl SchedulingPolicy for FifoScheduling {
    fn enqueue(&mut self, pdu: Pdu) -> Result<(), String> {
        if self.queue.len() >= self.max_size {
            let mut msg = String::new();
            msg.append("Queue is full");
            return Err(msg);
        }
        self.queue.push(pdu);
        Ok(())
    }

    fn dequeue(&mut self) -> Option<Pdu> {
        if self.queue.len() == 0 {
            None
        } else {
            Some(self.queue.remove(0))
        }
    }

    fn queue_length(&self) -> usize {
        self.queue.len()
    }

    fn name(&self) -> String {
        let mut s = String::new();
        s.append("FIFO");
        s
    }
}

/// Priority buckets served top-down: a PDU joins the bucket its priority
/// maps to, and the highest nonempty bucket is served first.
#[derive(Debug)]
pub struct PriorityScheduling {
    queues: Vec<Vec<Pdu>>,
    max_size_per_queue: usize,
    num_priorities: usize,
}

impl PriorityScheduling {
    /// How many buckets the scheduler serves (spec view).
    pub closed spec fn spec_buckets(&self) -> nat {
        self.queues@.len()
    }
}

impl PriorityScheduling {
    /// `num_priorities` empty buckets, each bounded by `max_size_per_queue`.
    pub fn new(num_priorities: usize, max_size_per_queue: usize) -> (r: Self)
        requires
            num_priorities >= 1,
        ensures
            r.spec_buckets() == num_priorities,
    {
        let mut queues: Vec<Vec<Pdu>> = Vec::new();
        let mut i: usize = 0;
        while i < num_priorities
            invariant
                i <= num_priorities,
                queues@.len() == i,
            decreases num_priorities - i,
        {
            queues.push(Vec::new());
            i = i + 1;
        }
        PriorityScheduling { queues, max_size_per_queue, num_priorities }
    }

    /// The bucket index of a priority: higher priority, lower index.
    fn priority_to_queue_index(&self, priority: u8) -> (r: usize)
        requires
            self.num_priorities >= 1,
            self.num_priorities == self.queues@.len(),
        ensures
            r < self.queues@.len(),
    {
        proof {
            assert((priority as u128) * (self.num_priorities as u128) <= 255u128 * (
            u64::MAX as u128)) by (nonlinear_arith)
                requires
                    priority <= 255,
                    self.num_priorities as u128 <= u64::MAX as u128,
            ;
        }
        let prod: u128 = (priority as u128) * (self.num_priorities as u128);
        let scaled: u128 = prod / 256;
        proof {
            assert(scaled < self.num_priorities as u128) by (nonlinear_arith)
                requires
                    prod == (priority as u128) * (self.num_priorities as u128),
                    scaled == prod / 256,
                    priority < 256,
                    self.num_priorities >= 1,
            ;
        }
        let normalized = scaled as usize;
        let capped = if normalized < self.num_priorities - 1 {
            normalized
        } else {
            self.num_priorities - 1
        };
        self.num_priorities - 1 - capped
    }
}

impl Default for PriorityScheduling {
    /// Four buckets of 250 PDUs each.
    fn default() -> (r: Self)
        ensures
            r.spec_buckets() == 4,
    {
        Self::new(4, 250)
    }
}

impl SchedulingPolicy for PriorityScheduling {
    fn enqueue(&mut self, pdu: Pdu) -> Result<(), String> {
        if self.num_priorities < 1 || self.num_priorities != self.queues.len() {
            let mut msg = String::new();
            msg.append("scheduler has no buckets");
            return Err(msg);
        }
        let idx = self.priority_to_queue_index(pdu.qos.priority);
        if self.queues[idx].len() >= self.max_size_per_queue {
            let mut msg = String::new();
            msg.append("Priority queue is full");
            return Err(msg);
        }
        let mut bucket = self.queues.remove(idx);
        bucket.push(pdu);
        self.queues.insert(idx, bucket);
        Ok(())
    }

    fn dequeue(&mut self) -> Option<Pdu> {
        let n = self.queues.len();
        let mut i: usize = 0;
        while i < n
            invariant
                i <= n,
                n == self.queues@.len(),
            decreases n - i,
        {
            if self.queues[i].len() > 0 {
                let mut bucket = self.queues.remove(i);
                let pdu = bucket.remove(0);
                self.queues.insert(i, bucket);
                return Some(pdu);
            }
            i = i + 1;
        }
        None
    }

    fn queue_length(&self) -> usize {
        let n = self.queues.len();
        let mut total: usize = 0;
        let mut i: usize = 0;
        while i < n
            invariant
                i <= n,
                n == self.queues@.len(),
            decreases n - i,
        {
            let len = self.queues[i].len();
            if total <= usize::MAX - len {
                total = total + len;
            } else {
                total = usize::MAX;
            }
            i = i + 1;
        }
        total
    }

    fn name(&self) -> String {
        let mut s = String::new();
        s.append("Priority");
        s
    }
}

} // verus!
