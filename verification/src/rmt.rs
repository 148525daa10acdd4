//! Relaying and Multiplexing Task (RMT): routing-table-driven PDU
//! forwarding.
//!
//! Every PDU is mapped to a decision: deliver locally, enqueue for a next
//! hop, or fail with `NoRoute` / `QueueFull`.  Each next hop owns one
//! bounded FIFO output queue.

use vstd::prelude::*;
use crate::error::RmtError;
use crate::pdu::{Pdu, PduModel};

verus! {

broadcast use vstd::seq_lib::group_seq_lib_default, vstd::seq::group_seq_axioms, vstd::std_specs::vec::group_vec_axioms;

/// One forwarding-table entry.
#[derive(Debug, Clone, Copy, PartialEq, Eq, Structural)]
pub struct ForwardingEntry {
    /// Destination address this entry covers.
    pub dst_addr: u64,
    /// Address of the neighbor to forward to.
    pub next_hop: u64,
    /// Cost metric.
    pub cost: u32,
}

/// A bounded FIFO of PDUs awaiting transmission to one next hop.
#[derive(Debug)]
pub struct PduQueue {
    next_hop: u64,
    queue: Vec<Pdu>,
    max_size: usize,
}

/// Model of one output queue.
pub struct QueueModel {
    pub next_hop: u64,
    pub pdus: Seq<PduModel>,
    pub max_size: nat,
}

impl View for PduQueue {
    type V = QueueModel;

    closed spec fn view(&self) -> QueueModel {
        QueueModel {
            next_hop: self.next_hop,
            pdus: crate::efcp::pdus_model(self.queue@),
            max_size: self.max_size as nat,
        }
    }
}

/// Model of the RMT.
pub struct RmtModel {
    pub local_addr: u64,
    pub forwarding: Seq<ForwardingEntry>,
    pub queues: Seq<QueueModel>,
    pub default_queue_size: nat,
}

/// Model of the queue list.
pub open spec fn queues_model(s: Seq<PduQueue>) -> Seq<QueueModel> {
    Seq::new(s.len(), |i: int| s[i]@)
}

/// Index of the forwarding entry for `dst`, or -1.
pub open spec fn spec_fwd_index(fwd: Seq<ForwardingEntry>, dst: u64) -> int
    decreases fwd.len(),
{
    if fwd.len() == 0 {
        -1
    } else if fwd[0].dst_addr == dst {
        0
    } else {
        let r = spec_fwd_index(fwd.drop_first(), dst);
        if r == -1 {
            -1
        } else {
            r + 1
        }
    }
}

/// The next hop for `dst`, if a forwarding entry exists.
pub open spec fn spec_lookup_next_hop(fwd: Seq<ForwardingEntry>, dst: u64) -> Option<u64> {
    let i = spec_fwd_index(fwd, dst);
    if i == -1 {
        None
    } else {
        Some(fwd[i].next_hop)
    }
}

/// Index of the queue for `next_hop`, or -1.
pub open spec fn spec_queue_index(queues: Seq<QueueModel>, next_hop: u64) -> int
    decreases queues.len(),
{
    if queues.len() == 0 {
        -1
    } else if queues[0].next_hop == next_hop {
        0
    } else {
        let r = spec_queue_index(queues.drop_first(), next_hop);
        if r == -1 {
            -1
        } else {
            r + 1
        }
    }
}

proof fn lemma_fwd_index(fwd: Seq<ForwardingEntry>, dst: u64)
    ensures
        spec_fwd_index(fwd, dst) == -1 <==> (forall|k: int|
            0 <= k < fwd.len() ==> (#[trigger] fwd[k]).dst_addr != dst),
        spec_fwd_index(fwd, dst) != -1 ==> 0 <= spec_fwd_index(fwd, dst) < fwd.len()
            && fwd[spec_fwd_index(fwd, dst)].dst_addr == dst && (forall|k: int|
            0 <= k < spec_fwd_index(fwd, dst) ==> (#[trigger] fwd[k]).dst_addr != dst),
    decreases fwd.len(),
{
    if fwd.len() > 0 {
        let tail = fwd.drop_first();
        lemma_fwd_index(tail, dst);
        assert(forall|k: int| 0 <= k < tail.len() ==> #[trigger] tail[k] == fwd[k + 1]);
        if fwd[0].dst_addr != dst {
            let r = spec_fwd_index(tail, dst);
            if r == -1 {
                assert forall|k: int| 0 <= k < fwd.len() implies (#[trigger] fwd[k]).dst_addr
                    != dst by {
                    if k > 0 {
                        assert(tail[k - 1] == fwd[k]);
                    }
                }
            } else {
                assert(fwd[r + 1] == tail[r]);
                assert forall|k: int| 0 <= k < r + 1 implies (#[trigger] fwd[k]).dst_addr
                    != dst by {
                    if k > 0 {
                        assert(tail[k - 1] == fwd[k]);
                    }
                }
            }
        }
    }
}

proof fn lemma_queue_index(queues: Seq<QueueModel>, next_hop: u64)
    ensures
        spec_queue_index(queues, next_hop) == -1 <==> (forall|k: int|
            0 <= k < queues.len() ==> (#[trigger] queues[k]).next_hop != next_hop),
        spec_queue_index(queues, next_hop) != -1 ==> 0 <= spec_queue_index(queues, next_hop)
            < queues.len() && queues[spec_queue_index(queues, next_hop)].next_hop == next_hop && (
        forall|k: int|
            0 <= k < spec_queue_index(queues, next_hop) ==> (#[trigger] queues[k]).next_hop
                != next_hop),
    decreases queues.len(),
{
    if queues.len() > 0 {
        let tail = queues.drop_first();
        lemma_queue_index(tail, next_hop);
        assert(forall|k: int| 0 <= k < tail.len() ==> #[trigger] tail[k] == queues[k + 1]);
        if queues[0].next_hop != next_hop {
            let r = spec_queue_index(tail, next_hop);
            if r == -1 {
                assert forall|k: int| 0 <= k < queues.len() implies (#[trigger] queues[k]).next_hop
                    != next_hop by {
                    if k > 0 {
                        assert(tail[k - 1] == queues[k]);
                    }
                }
            } else {
                assert(queues[r + 1] == tail[r]);
                assert forall|k: int| 0 <= k < r + 1 implies (#[trigger] queues[k]).next_hop
                    != next_hop by {
                    if k > 0 {
                        assert(tail[k - 1] == queues[k]);
                    }
                }
            }
        }
    }
}

/// The pending PDUs of the queue for `next_hop`, empty when none exists.
pub open spec fn spec_queue_pdus(queues: Seq<QueueModel>, next_hop: u64) -> Seq<PduModel> {
    let i = spec_queue_index(queues, next_hop);
    if i == -1 {
        Seq::empty()
    } else {
        queues[i].pdus
    }
}

/// The Relaying and Multiplexing Task.
#[derive(Debug)]
pub struct Rmt {
    local_addr: u64,
    forwarding: Vec<ForwardingEntry>,
    queues: Vec<PduQueue>,
    default_queue_size: usize,
}

impl View for Rmt {
    type V = RmtModel;

    closed spec fn view(&self) -> RmtModel {
        RmtModel {
            local_addr: self.local_addr,
            forwarding: self.forwarding@,
            queues: queues_model(self.queues@),
            default_queue_size: self.default_queue_size as nat,
        }
    }
}

impl Rmt {
    /// Destinations and next hops are unique in their tables.
    pub open spec fn wf(&self) -> bool {
        &&& forall|i: int, j: int|
            0 <= i < j < self@.forwarding.len() ==> (#[trigger] self@.forwarding[i]).dst_addr != (
            #[trigger] self@.forwarding[j]).dst_addr
        &&& forall|i: int, j: int|
            0 <= i < j < self@.queues.len() ==> (#[trigger] self@.queues[i]).next_hop != (
            #[trigger] self@.queues[j]).next_hop
        &&& forall|k: int|
            0 <= k < self@.forwarding.len() ==> spec_queue_index(
                self@.queues,
                (#[trigger] self@.forwarding[k]).next_hop,
            ) != -1
    }

    /// An RMT for the node with this address; output queues default to 100
    /// PDUs.
    pub fn new(local_addr: u64) -> (r: Self)
        ensures
            r.wf(),
            r@.local_addr == local_addr,
            r@.forwarding == Seq::<ForwardingEntry>::empty(),
            r@.queues == Seq::<QueueModel>::empty(),
            r@.default_queue_size == 100,
    {
        let r = Rmt {
            local_addr,
            forwarding: Vec::new(),
            queues: Vec::new(),
            default_queue_size: 100,
        };
        proof {
            assert(queues_model(r.queues@) =~= Seq::<QueueModel>::empty());
        }
        r
    }

    /// Sets the capacity used for output queues created from now on.
    pub fn set_default_queue_size(&mut self, size: usize)
        ensures
            final(self)@ == (RmtModel { default_queue_size: size as nat, ..old(self)@ }),
    {
        self.default_queue_size = size;
    }

    /// The local address this RMT delivers to.
    pub fn local_addr(&self) -> (r: u64)
        ensures
            r == self@.local_addr,
    {
        self.local_addr
    }

    /// Index of the forwarding entry for `dst`, if any.
    #[verifier::loop_isolation(false)]
    fn find_fwd(&self, dst: u64) -> (r: Option<usize>)
        ensures
            match r {
                Some(i) => spec_fwd_index(self@.forwarding, dst) == i as int && i
                    < self@.forwarding.len(),
                None => spec_fwd_index(self@.forwarding, dst) == -1,
            },
    {
        let mut i: usize = 0;
        while i < self.forwarding.len()
            invariant
                i <= self.forwarding@.len(),
                forall|k: int| 0 <= k < i ==> (#[trigger] self@.forwarding[k]).dst_addr != dst,
            decreases self.forwarding@.len() - i,
        {
            if self.forwarding[i].dst_addr == dst {
                proof {
                    lemma_fwd_index(self@.forwarding, dst);
                    assert(spec_fwd_index(self@.forwarding, dst) == i as int);
                }
                return Some(i);
            }
            i = i + 1;
        }
        proof {
            lemma_fwd_index(self@.forwarding, dst);
        }
        None
    }

    /// Index of the output queue for `next_hop`, if any.
    #[verifier::loop_isolation(false)]
    fn find_queue(&self, next_hop: u64) -> (r: Option<usize>)
        ensures
            match r {
                Some(i) => spec_queue_index(self@.queues, next_hop) == i as int && i
                    < self@.queues.len(),
                None => spec_queue_index(self@.queues, next_hop) == -1,
            },
    {
        let mut i: usize = 0;
        while i < self.queues.len()
            invariant
                i <= self.queues@.len(),
                forall|k: int| 0 <= k < i ==> (#[trigger] self@.queues[k]).next_hop != next_hop,
            decreases self.queues@.len() - i,
        {
            if self.queues[i].next_hop == next_hop {
                proof {
                    assert(self@.queues[i as int].next_hop == next_hop);
                    lemma_queue_index(self@.queues, next_hop);
                    assert(spec_queue_index(self@.queues, next_hop) == i as int);
                }
                return Some(i);
            }
            i = i + 1;
        }
        proof {
            lemma_queue_index(self@.queues, next_hop);
        }
        None
    }

    /// Installs (or replaces) the forwarding entry for `entry.dst_addr` and
    /// makes sure an output queue exists for its next hop.
    pub fn add_forwarding_entry(&mut self, entry: ForwardingEntry)
        requires
            old(self).wf(),
        ensures
            final(self).wf(),
            final(self)@.local_addr == old(self)@.local_addr,
            final(self)@.default_queue_size == old(self)@.default_queue_size,
            spec_lookup_next_hop(final(self)@.forwarding, entry.dst_addr) == Some(entry.next_hop),
            forall|d: u64|
                d != entry.dst_addr ==> #[trigger] spec_lookup_next_hop(
                    final(self)@.forwarding,
                    d,
                ) == spec_lookup_next_hop(old(self)@.forwarding, d),
            spec_queue_index(final(self)@.queues, entry.next_hop) != -1,
            forall|h: u64|
                #![trigger spec_queue_pdus(final(self)@.queues, h)]
                spec_queue_pdus(final(self)@.queues, h) == spec_queue_pdus(old(self)@.queues, h),
            final(self)@.queues == (if spec_queue_index(old(self)@.queues, entry.next_hop)
                == -1 {
                old(self)@.queues.push(
                    QueueModel {
                        next_hop: entry.next_hop,
                        pdus: Seq::<PduModel>::empty(),
                        max_size: old(self)@.default_queue_size,
                    },
                )
            } else {
                old(self)@.queues
            }),
    {
        let ghost pre_fwd = self.forwarding@;
        let ghost pre_q = queues_model(self.queues@);
        proof {
            assert(pre_fwd == old(self)@.forwarding);
            assert(pre_q == old(self)@.queues);
        }
        let next_hop = entry.next_hop;
        match self.find_fwd(entry.dst_addr) {
            Some(i) => {
                self.forwarding.set(i, entry);
                proof {
                    lemma_fwd_index(pre_fwd, entry.dst_addr);
                    lemma_fwd_update_lookup(pre_fwd, i as int, entry);
                    assert(self@.forwarding == pre_fwd.update(i as int, entry));
                }
            },
            None => {
                self.forwarding.push(entry);
                proof {
                    lemma_fwd_index(pre_fwd, entry.dst_addr);
                    lemma_fwd_push_lookup(pre_fwd, entry);
                    assert(self@.forwarding == pre_fwd.push(entry));
                }
            },
        }
        match self.find_queue(next_hop) {
            Some(_) => {
                proof {
                    assert(queues_model(self.queues@) =~= pre_q);
                    lemma_queues_unique_transfer(pre_q, queues_model(self.queues@));
                    assert(queues_model(self.queues@) == pre_q);
                    lemma_queues_same(pre_q, queues_model(self.queues@));
                    assert(spec_queue_index(self@.queues, entry.next_hop) != -1);
                    assert forall|k: int|
                        0 <= k < self@.forwarding.len() implies spec_queue_index(
                        self@.queues,
                        (#[trigger] self@.forwarding[k]).next_hop,
                    ) != -1 by {
                        if self@.forwarding[k] == entry {
                        } else {
                            lemma_entry_was_old(pre_fwd, self@.forwarding, entry, k);
                            let h = self@.forwarding[k].next_hop;
                            assert(spec_queue_index(pre_q, h) != -1);
                        }
                    }
                }
            },
            None => {
                let q = PduQueue { next_hop, queue: Vec::new(), max_size: self.default_queue_size };
                let ghost qm = q@;
                self.queues.push(q);
                proof {
                    assert(qm.pdus =~= Seq::<PduModel>::empty());
                    assert(queues_model(self.queues@) =~= pre_q.push(qm));
                    lemma_queue_index(pre_q, next_hop);
                    lemma_queue_push_lookup(pre_q, qm);
                    lemma_queues_unique_transfer(pre_q.push(qm), queues_model(self.queues@));
                    assert(final(self)@.queues == pre_q.push(qm));
                    assert(spec_queue_index(self@.queues, entry.next_hop) != -1);
                    assert forall|k: int|
                        0 <= k < self@.forwarding.len() implies spec_queue_index(
                        self@.queues,
                        (#[trigger] self@.forwarding[k]).next_hop,
                    ) != -1 by {
                        if self@.forwarding[k] == entry {
                        } else {
                            lemma_entry_was_old(pre_fwd, self@.forwarding, entry, k);
                            let h = self@.forwarding[k].next_hop;
                            assert(spec_queue_index(pre_q, h) != -1);
                            assert(spec_queue_index(pre_q.push(qm), h) != -1);
                        }
                    }
                }
            },
        }
    }

    /// Removes the forwarding entry for `dst`, if present.
    pub fn remove_forwarding_entry(&mut self, dst_addr: u64)
        requires
            old(self).wf(),
        ensures
            final(self).wf(),
            spec_lookup_next_hop(final(self)@.forwarding, dst_addr) is None,
            forall|d: u64|
                d != dst_addr ==> #[trigger] spec_lookup_next_hop(final(self)@.forwarding, d)
                    == spec_lookup_next_hop(old(self)@.forwarding, d),
            final(self)@.queues == old(self)@.queues,
            final(self)@.local_addr == old(self)@.local_addr,
            final(self)@.default_queue_size == old(self)@.default_queue_size,
    {
        let ghost pre_fwd = self.forwarding@;
        proof {
            assert(pre_fwd == old(self)@.forwarding);
        }
        match self.find_fwd(dst_addr) {
            Some(i) => {
                proof {
                    lemma_fwd_index(pre_fwd, dst_addr);
                    assert(pre_fwd[i as int].dst_addr == dst_addr);
                }
                self.forwarding.remove(i);
                proof {
                    lemma_fwd_remove_lookup(pre_fwd, i as int);
                    assert(self@.forwarding == pre_fwd.remove(i as int));
                    assert(self@.queues =~= old(self)@.queues);
                    lemma_queues_unique_transfer(old(self)@.queues, self@.queues);
                    assert forall|k: int|
                        0 <= k < self@.forwarding.len() implies spec_queue_index(
                        self@.queues,
                        (#[trigger] self@.forwarding[k]).next_hop,
                    ) != -1 by {
                        let kk = if k < i as int {
                            k
                        } else {
                            k + 1
                        };
                        assert(self@.forwarding[k] == pre_fwd[kk]);
                        assert(spec_queue_index(old(self)@.queues, pre_fwd[kk].next_hop) != -1);
                        assert(self@.queues == old(self)@.queues);
                    }
                }
            },
            None => {
                proof {
                    lemma_fwd_index(pre_fwd, dst_addr);
                    assert(self@.queues =~= old(self)@.queues);
                    lemma_queues_unique_transfer(old(self)@.queues, self@.queues);
                    lemma_coverage_transfer(
                        old(self)@.forwarding,
                        self@.forwarding,
                        old(self)@.queues,
                        self@.queues,
                    );
                }
            },
        }
    }

    /// The next hop recorded for `dst`, if any.
    pub fn lookup(&self, dst_addr: u64) -> (r: Option<u64>)
        ensures
            r == spec_lookup_next_hop(self@.forwarding, dst_addr),
    {
        match self.find_fwd(dst_addr) {
            Some(i) => Some(self.forwarding[i].next_hop),
            None => None,
        }
    }

    /// Routes an outgoing PDU: looks its destination up and enqueues it for
    /// the next hop, which is returned.  A PDU for the local address is
    /// rejected; with no matching route the task fails with `NoRoute` and
    /// enqueues nothing; a full queue fails with `QueueFull`.
    pub fn process_outgoing(&mut self, pdu: Pdu) -> (r: Result<u64, RmtError>)
        requires
            old(self).wf(),
        ensures
            final(self).wf(),
            match r {
                Ok(hop) => {
                    &&& pdu@.dst_addr != old(self)@.local_addr
                    &&& spec_lookup_next_hop(old(self)@.forwarding, pdu@.dst_addr) == Some(hop)
                    &&& spec_queue_pdus(final(self)@.queues, hop) == spec_queue_pdus(
                        old(self)@.queues,
                        hop,
                    ).push(pdu@)
                    &&& forall|h: u64|
                        h != hop ==> #[trigger] spec_queue_pdus(final(self)@.queues, h)
                            == spec_queue_pdus(old(self)@.queues, h)
                    &&& final(self)@.forwarding == old(self)@.forwarding
                    &&& final(self)@.local_addr == old(self)@.local_addr
                },
                Err(e) => {
                    &&& final(self)@ == old(self)@
                    &&& (e matches RmtError::InvalidPdu(_) <==> pdu@.dst_addr == old(
                        self,
                    )@.local_addr)
                    &&& (e matches RmtError::NoRoute(d) ==> d == pdu@.dst_addr
                        && spec_lookup_next_hop(old(self)@.forwarding, pdu@.dst_addr) is None)
                    &&& (pdu@.dst_addr != old(self)@.local_addr && spec_lookup_next_hop(
                        old(self)@.forwarding,
                        pdu@.dst_addr,
                    ) is None ==> (e matches RmtError::NoRoute(d) && d == pdu@.dst_addr))
                    &&& (e matches RmtError::QueueFull(h) ==> spec_lookup_next_hop(
                        old(self)@.forwarding,
                        pdu@.dst_addr,
                    ) == Some(h) && spec_queue_pdus(old(self)@.queues, h).len() >= old(
                        self,
                    )@.queues[spec_queue_index(old(self)@.queues, h)].max_size)
                    &&& (e is InvalidPdu || e is NoRoute || e is QueueFull)
                },
            },
    {
        if pdu.dst_addr == self.local_addr {
            let mut msg = String::new();
            msg.append("PDU destination is the local address");
            return Err(RmtError::InvalidPdu(msg));
        }
        let next_hop = match self.lookup(pdu.dst_addr) {
            Some(h) => h,
            None => {
                return Err(RmtError::NoRoute(pdu.dst_addr));
            },
        };
        proof {
            lemma_fwd_index(self@.forwarding, pdu@.dst_addr);
            let idx = spec_fwd_index(self@.forwarding, pdu@.dst_addr);
            assert(self@.forwarding[idx].next_hop == next_hop);
            assert(spec_queue_index(self@.queues, next_hop) != -1);
        }
        match self.enqueue_for(next_hop, pdu) {
            Ok(_) => Ok(next_hop),
            Err(e) => Err(e),
        }
    }

    /// Routes an incoming PDU: one addressed to this node is delivered
    /// locally (`None`); any other is enqueued for its next hop, which is
    /// returned.
    pub fn process_incoming(&mut self, pdu: Pdu) -> (r: Result<Option<u64>, RmtError>)
        requires
            old(self).wf(),
        ensures
            final(self).wf(),
            match r {
                Ok(hop_opt) => match hop_opt {
                    None => pdu@.dst_addr == old(self)@.local_addr && final(self)@ == old(self)@,
                    Some(hop) => {
                        &&& pdu@.dst_addr != old(self)@.local_addr
                        &&& spec_lookup_next_hop(old(self)@.forwarding, pdu@.dst_addr) == Some(hop)
                        &&& spec_queue_pdus(final(self)@.queues, hop) == spec_queue_pdus(
                            old(self)@.queues,
                            hop,
                        ).push(pdu@)
                        &&& forall|h: u64|
                            h != hop ==> #[trigger] spec_queue_pdus(final(self)@.queues, h)
                                == spec_queue_pdus(old(self)@.queues, h)
                        &&& final(self)@.forwarding == old(self)@.forwarding
                        &&& final(self)@.local_addr == old(self)@.local_addr
                    },
                },
                Err(e) => {
                    &&& final(self)@ == old(self)@
                    &&& pdu@.dst_addr != old(self)@.local_addr
                    &&& (e matches RmtError::NoRoute(d) ==> d == pdu@.dst_addr
                        && spec_lookup_next_hop(old(self)@.forwarding, pdu@.dst_addr) is None)
                    &&& (spec_lookup_next_hop(old(self)@.forwarding, pdu@.dst_addr) is None
                        ==> (e matches RmtError::NoRoute(d) && d == pdu@.dst_addr))
                    &&& (e matches RmtError::QueueFull(h) ==> spec_lookup_next_hop(
                        old(self)@.forwarding,
                        pdu@.dst_addr,
                    ) == Some(h) && spec_queue_pdus(old(self)@.queues, h).len() >= old(
                        self,
                    )@.queues[spec_queue_index(old(self)@.queues, h)].max_size)
                    &&& (e is NoRoute || e is QueueFull)
                },
            },
    {
        if pdu.dst_addr == self.local_addr {
            return Ok(None);
        }
        let next_hop = match self.lookup(pdu.dst_addr) {
            Some(h) => h,
            None => {
                return Err(RmtError::NoRoute(pdu.dst_addr));
            },
        };
        proof {
            lemma_fwd_index(self@.forwarding, pdu@.dst_addr);
            let idx = spec_fwd_index(self@.forwarding, pdu@.dst_addr);
            assert(self@.forwarding[idx].next_hop == next_hop);
            assert(spec_queue_index(self@.queues, next_hop) != -1);
        }
        match self.enqueue_for(next_hop, pdu) {
            Ok(_) => Ok(Some(next_hop)),
            Err(e) => Err(e),
        }
    }

    /// Appends the PDU to the queue for `next_hop`; fails with `QueueFull`
    /// at capacity and with `NoRoute` when no queue exists for that hop.
    fn enqueue_for(&mut self, next_hop: u64, pdu: Pdu) -> (r: Result<(), RmtError>)
        requires
            old(self).wf(),
            spec_queue_index(old(self)@.queues, next_hop) != -1,
        ensures
            final(self).wf(),
            match r {
                Ok(_) => {
                    &&& spec_queue_pdus(final(self)@.queues, next_hop) == spec_queue_pdus(
                        old(self)@.queues,
                        next_hop,
                    ).push(pdu@)
                    &&& forall|h: u64|
                        h != next_hop ==> #[trigger] spec_queue_pdus(final(self)@.queues, h)
                            == spec_queue_pdus(old(self)@.queues, h)
                    &&& final(self)@.forwarding == old(self)@.forwarding
                    &&& final(self)@.local_addr == old(self)@.local_addr
                },
                Err(e) => {
                    &&& final(self)@ == old(self)@
                    &&& e matches RmtError::QueueFull(h) && h == next_hop
                    &&& spec_queue_pdus(old(self)@.queues, next_hop).len() >= old(self)@.queues[
                        spec_queue_index(old(self)@.queues, next_hop)
                    ].max_size
                },
            },
    {
        let ghost pre_q = queues_model(self.queues@);
        proof {
            assert(pre_q == old(self)@.queues);
        }
        match self.find_queue(next_hop) {
            None => {
                proof {
                    assert(false);
                }
                Err(RmtError::QueueFull(next_hop))
            },
            Some(i) => {
                if self.queues[i].queue.len() >= self.queues[i].max_size {
                    proof {
                        lemma_fwd_unique_transfer(old(self)@.forwarding, self@.forwarding);
                        lemma_queues_unique_transfer(old(self)@.queues, self@.queues);
                        lemma_coverage_transfer(
                            old(self)@.forwarding,
                            self@.forwarding,
                            old(self)@.queues,
                            self@.queues,
                        );
                        lemma_queue_index(pre_q, next_hop);
                    }
                    return Err(RmtError::QueueFull(next_hop));
                }
                let ghost gp = pdu@;
                let mut q = self.queues.remove(i);
                proof {
                    assert(q@ == pre_q[i as int]);
                    lemma_queue_index(pre_q, next_hop);
                    assert(pre_q[i as int].next_hop == next_hop);
                    assert(spec_queue_pdus(pre_q, next_hop) == pre_q[i as int].pdus);
                }
                let ghost pre_pdus = crate::efcp::pdus_model(q.queue@);
                q.queue.push(pdu);
                proof {
                    assert(crate::efcp::pdus_model(q.queue@) =~= pre_pdus.push(gp));
                }
                let ghost qm = q@;
                self.queues.insert(i, q);
                proof {
                    assert(qm.pdus == pre_pdus.push(gp));
                    assert(qm.next_hop == next_hop);
                    assert(queues_model(self.queues@) =~= pre_q.update(i as int, qm));
                    lemma_queue_update_lookup(pre_q, i as int, qm);
                    lemma_queues_unique_transfer(pre_q.update(i as int, qm), self@.queues);
                    assert(self@.queues == pre_q.update(i as int, qm));
                    assert(spec_queue_pdus(self@.queues, next_hop) == qm.pdus);
                    lemma_fwd_unique_transfer(old(self)@.forwarding, self@.forwarding);
                    assert(self@.forwarding == old(self)@.forwarding);
                    assert forall|k: int|
                        0 <= k < self@.forwarding.len() implies spec_queue_index(
                        self@.queues,
                        (#[trigger] self@.forwarding[k]).next_hop,
                    ) != -1 by {
                        let h = old(self)@.forwarding[k].next_hop;
                        assert(spec_queue_index(old(self)@.queues, h) != -1);
                        assert(spec_queue_index(pre_q.update(i as int, qm), h) == spec_queue_index(
                            pre_q,
                            h,
                        ));
                    }
                }
                Ok(())
            },
        }
    }

    /// Pops the oldest queued PDU for `next_hop`, if any.
    pub fn dequeue_for_next_hop(&mut self, next_hop: u64) -> (r: Option<Pdu>)
        requires
            old(self).wf(),
        ensures
            final(self).wf(),
            final(self)@.forwarding == old(self)@.forwarding,
            final(self)@.local_addr == old(self)@.local_addr,
            match r {
                Some(pdu) => {
                    &&& spec_queue_pdus(old(self)@.queues, next_hop).len() > 0
                    &&& pdu@ == spec_queue_pdus(old(self)@.queues, next_hop)[0]
                    &&& spec_queue_pdus(final(self)@.queues, next_hop) == spec_queue_pdus(
                        old(self)@.queues,
                        next_hop,
                    ).drop_first()
                    &&& forall|h: u64|
                        h != next_hop ==> #[trigger] spec_queue_pdus(final(self)@.queues, h)
                            == spec_queue_pdus(old(self)@.queues, h)
                },
                None => spec_queue_pdus(old(self)@.queues, next_hop).len() == 0 && final(self)@
                    == old(self)@,
            },
    {
        let ghost pre_q = queues_model(self.queues@);
        proof {
            assert(pre_q == old(self)@.queues);
        }
        match self.find_queue(next_hop) {
            None => {
                proof {
                    lemma_fwd_unique_transfer(old(self)@.forwarding, self@.forwarding);
                    lemma_queues_unique_transfer(old(self)@.queues, self@.queues);
                    lemma_coverage_transfer(
                        old(self)@.forwarding,
                        self@.forwarding,
                        old(self)@.queues,
                        self@.queues,
                    );
                }
                None
            },
            Some(i) => {
                if self.queues[i].queue.len() == 0 {
                    proof {
                        lemma_fwd_unique_transfer(old(self)@.forwarding, self@.forwarding);
                        lemma_queues_unique_transfer(old(self)@.queues, self@.queues);
                        lemma_coverage_transfer(
                            old(self)@.forwarding,
                            self@.forwarding,
                            old(self)@.queues,
                            self@.queues,
                        );
                    }
                    return None;
                }
                let mut q = self.queues.remove(i);
                proof {
                    assert(q@ == pre_q[i as int]);
                    lemma_queue_index(pre_q, next_hop);
                    assert(pre_q[i as int].next_hop == next_hop);
                    assert(spec_queue_pdus(pre_q, next_hop) == pre_q[i as int].pdus);
                }
                let ghost pre_pdus = crate::efcp::pdus_model(q.queue@);
                let pdu = q.queue.remove(0);
                proof {
                    assert(crate::efcp::pdus_model(q.queue@) =~= pre_pdus.drop_first());
                }
                let ghost qm = q@;
                self.queues.insert(i, q);
                proof {
                    assert(qm.pdus == pre_pdus.drop_first());
                    assert(qm.next_hop == next_hop);
                    assert(queues_model(self.queues@) =~= pre_q.update(i as int, qm));
                    lemma_queue_update_lookup(pre_q, i as int, qm);
                    lemma_queues_unique_transfer(pre_q.update(i as int, qm), self@.queues);
                    assert(self@.queues == pre_q.update(i as int, qm));
                    assert(spec_queue_pdus(self@.queues, next_hop) == qm.pdus);
                    lemma_fwd_unique_transfer(old(self)@.forwarding, self@.forwarding);
                    assert(self@.forwarding == old(self)@.forwarding);
                    assert forall|k: int|
                        0 <= k < self@.forwarding.len() implies spec_queue_index(
                        self@.queues,
                        (#[trigger] self@.forwarding[k]).next_hop,
                    ) != -1 by {
                        let h = old(self)@.forwarding[k].next_hop;
                        assert(spec_queue_index(old(self)@.queues, h) != -1);
                        assert(spec_queue_index(pre_q.update(i as int, qm), h) == spec_queue_index(
                            pre_q,
                            h,
                        ));
                    }
                }
                Some(pdu)
            },
        }
    }

    /// How many PDUs wait for `next_hop` (0 when no queue exists).
    pub fn queue_length(&self, next_hop: u64) -> (r: usize)
        ensures
            r == spec_queue_pdus(self@.queues, next_hop).len(),
    {
        match self.find_queue(next_hop) {
            None => 0,
            Some(i) => self.queues[i].queue.len(),
        }
    }

    /// Whether any PDU waits for `next_hop`.
    pub fn has_queued_pdus(&self, next_hop: u64) -> (r: bool)
        ensures
            r == (spec_queue_pdus(self@.queues, next_hop).len() > 0),
    {
        self.queue_length(next_hop) > 0
    }

    /// The total number of queued PDUs across all next hops, saturating at
    /// the machine limit.
    #[verifier::loop_isolation(false)]
    pub fn total_queued(&self) -> (r: usize)
        ensures
            spec_total_queued(self@.queues) <= usize::MAX ==> r == spec_total_queued(self@.queues),
    {
        let mut total: usize = 0;
        let mut i: usize = 0;
        while i < self.queues.len()
            invariant
                i <= self.queues@.len(),
                total <= spec_total_queued(self@.queues.take(i as int)),
                spec_total_queued(self@.queues.take(i as int)) <= usize::MAX ==> total
                    == spec_total_queued(self@.queues.take(i as int)),
            decreases self.queues@.len() - i,
        {
            let ghost taken = self@.queues.take(i as int);
            let len = self.queues[i].queue.len();
            proof {
                lemma_total_queued_snoc(taken, self@.queues[i as int]);
                assert(self@.queues.take(i as int + 1) =~= taken.push(self@.queues[i as int]));
            }
            if total <= usize::MAX - len {
                total = total + len;
            } else {
                total = usize::MAX;
            }
            i = i + 1;
        }
        proof {
            assert(self@.queues.take(self@.queues.len() as int) =~= self@.queues);
        }
        total
    }

    /// The number of installed forwarding entries.
    pub fn forwarding_table_size(&self) -> (r: usize)
        ensures
            r == self@.forwarding.len(),
    {
        self.forwarding.len()
    }
}

/// The total number of queued PDUs.
pub open spec fn spec_total_queued(queues: Seq<QueueModel>) -> nat
    decreases queues.len(),
{
    if queues.len() == 0 {
        0
    } else {
        queues[0].pdus.len() + spec_total_queued(queues.drop_first())
    }
}

proof fn lemma_total_queued_snoc(queues: Seq<QueueModel>, q: QueueModel)
    ensures
        spec_total_queued(queues.push(q)) == spec_total_queued(queues) + q.pdus.len(),
    decreases queues.len(),
{
    reveal_with_fuel(spec_total_queued, 3);
    if queues.len() == 0 {
        assert(queues.push(q)[0] == q);
        assert(queues.push(q).drop_first() =~= Seq::<QueueModel>::empty());
    } else {
        assert(queues.push(q)[0] == queues[0]);
        assert(queues.push(q).drop_first() =~= queues.drop_first().push(q));
        lemma_total_queued_snoc(queues.drop_first(), q);
    }
}

/// Replacing the entry at a destination's index changes only that lookup.
proof fn lemma_fwd_update_lookup(fwd: Seq<ForwardingEntry>, i: int, entry: ForwardingEntry)
    requires
        0 <= i < fwd.len(),
        fwd[i].dst_addr == entry.dst_addr,
        forall|a: int, b: int|
            0 <= a < b < fwd.len() ==> (#[trigger] fwd[a]).dst_addr != (#[trigger] fwd[b]).dst_addr,
    ensures
        spec_lookup_next_hop(fwd.update(i, entry), entry.dst_addr) == Some(entry.next_hop),
        forall|d: u64|
            d != entry.dst_addr ==> #[trigger] spec_lookup_next_hop(fwd.update(i, entry), d)
                == spec_lookup_next_hop(fwd, d),
        forall|a: int, b: int|
            0 <= a < b < fwd.update(i, entry).len() ==> (#[trigger] fwd.update(
                i,
                entry,
            )[a]).dst_addr != (#[trigger] fwd.update(i, entry)[b]).dst_addr,
    decreases fwd.len(),
{
    let post = fwd.update(i, entry);
    lemma_fwd_index(fwd, entry.dst_addr);
    assert(spec_fwd_index(fwd, entry.dst_addr) == i) by {
        let j = spec_fwd_index(fwd, entry.dst_addr);
        assert(j != -1);
        if j < i {
            assert(fwd[j].dst_addr == fwd[i].dst_addr);
        }
    }
    lemma_fwd_index(post, entry.dst_addr);
    assert(spec_fwd_index(post, entry.dst_addr) == i) by {
        assert(post[i].dst_addr == entry.dst_addr);
        let j = spec_fwd_index(post, entry.dst_addr);
        assert(j != -1);
        if j < i {
            assert(post[j] == fwd[j]);
            assert(fwd[j].dst_addr != entry.dst_addr);
        }
    }
    assert forall|d: u64| d != entry.dst_addr implies #[trigger] spec_lookup_next_hop(post, d)
        == spec_lookup_next_hop(fwd, d) by {
        lemma_fwd_index(fwd, d);
        lemma_fwd_index(post, d);
        let jp = spec_fwd_index(post, d);
        let jf = spec_fwd_index(fwd, d);
        if jf != -1 {
            assert(jf != i);
            assert(post[jf] == fwd[jf]);
            assert(jp != -1);
            assert(jp <= jf);
            if jp < jf {
                assert(post[jp].dst_addr == d);
                assert(jp != i);
                assert(fwd[jp].dst_addr == d);
            }
            assert(jp == jf);
        } else {
            if jp != -1 {
                assert(post[jp].dst_addr == d);
                assert(jp != i);
                assert(fwd[jp].dst_addr == d);
            }
        }
    }
    assert forall|a: int, b: int|
        0 <= a < b < post.len() implies (#[trigger] post[a]).dst_addr != (
    #[trigger] post[b]).dst_addr by {
        assert(post[a].dst_addr == fwd[a].dst_addr || a == i);
        assert(fwd[a].dst_addr != fwd[b].dst_addr);
        if a == i {
            assert(post[a].dst_addr == fwd[i].dst_addr);
        }
        if b == i {
            assert(post[b].dst_addr == fwd[i].dst_addr);
        }
    }
}

/// Appending an entry for a new destination changes only that lookup.
proof fn lemma_fwd_push_lookup(fwd: Seq<ForwardingEntry>, entry: ForwardingEntry)
    requires
        forall|k: int| 0 <= k < fwd.len() ==> (#[trigger] fwd[k]).dst_addr != entry.dst_addr,
        forall|a: int, b: int|
            0 <= a < b < fwd.len() ==> (#[trigger] fwd[a]).dst_addr != (#[trigger] fwd[b]).dst_addr,
    ensures
        spec_lookup_next_hop(fwd.push(entry), entry.dst_addr) == Some(entry.next_hop),
        forall|d: u64|
            d != entry.dst_addr ==> #[trigger] spec_lookup_next_hop(fwd.push(entry), d)
                == spec_lookup_next_hop(fwd, d),
        forall|a: int, b: int|
            0 <= a < b < fwd.push(entry).len() ==> (#[trigger] fwd.push(entry)[a]).dst_addr != (
            #[trigger] fwd.push(entry)[b]).dst_addr,
{
    let post = fwd.push(entry);
    lemma_fwd_index(post, entry.dst_addr);
    assert(spec_fwd_index(post, entry.dst_addr) == fwd.len()) by {
        assert(post[fwd.len() as int].dst_addr == entry.dst_addr);
        let j = spec_fwd_index(post, entry.dst_addr);
        assert(j != -1);
        if j < fwd.len() {
            assert(post[j] == fwd[j]);
        }
    }
    assert forall|d: u64| d != entry.dst_addr implies #[trigger] spec_lookup_next_hop(post, d)
        == spec_lookup_next_hop(fwd, d) by {
        lemma_fwd_index(fwd, d);
        lemma_fwd_index(post, d);
        let jp = spec_fwd_index(post, d);
        let jf = spec_fwd_index(fwd, d);
        if jf != -1 {
            assert(post[jf] == fwd[jf]);
            assert(jp != -1);
            assert(jp <= jf);
            if jp < jf {
                assert(post[jp].dst_addr == d);
                assert(fwd[jp].dst_addr == d);
            }
            assert(jp == jf);
        } else {
            if jp != -1 {
                assert(post[jp].dst_addr == d);
                assert(jp < fwd.len());
                assert(fwd[jp].dst_addr == d);
            }
        }
    }
    assert forall|a: int, b: int|
        0 <= a < b < post.len() implies (#[trigger] post[a]).dst_addr != (
    #[trigger] post[b]).dst_addr by {
        if b < fwd.len() {
            assert(fwd[a].dst_addr != fwd[b].dst_addr);
        } else {
            assert(post[b] == entry);
            assert(post[a] == fwd[a]);
        }
    }
}

/// Removing the entry at a destination's index changes only that lookup.
proof fn lemma_fwd_remove_lookup(fwd: Seq<ForwardingEntry>, i: int)
    requires
        0 <= i < fwd.len(),
        forall|a: int, b: int|
            0 <= a < b < fwd.len() ==> (#[trigger] fwd[a]).dst_addr != (#[trigger] fwd[b]).dst_addr,
    ensures
        spec_lookup_next_hop(fwd.remove(i), fwd[i].dst_addr) is None,
        forall|d: u64|
            d != fwd[i].dst_addr ==> #[trigger] spec_lookup_next_hop(fwd.remove(i), d)
                == spec_lookup_next_hop(fwd, d),
        forall|a: int, b: int|
            0 <= a < b < fwd.remove(i).len() ==> (#[trigger] fwd.remove(i)[a]).dst_addr != (
            #[trigger] fwd.remove(i)[b]).dst_addr,
{
    let post = fwd.remove(i);
    assert forall|k: int| 0 <= k < post.len() implies (#[trigger] post[k]).dst_addr != fwd[
        i
    ].dst_addr by {
        let kk = if k < i {
            k
        } else {
            k + 1
        };
        assert(post[k] == fwd[kk]);
        assert(fwd[kk].dst_addr != fwd[i].dst_addr);
    }
    lemma_fwd_index(post, fwd[i].dst_addr);
    assert forall|a: int, b: int|
        0 <= a < b < post.len() implies (#[trigger] post[a]).dst_addr != (
    #[trigger] post[b]).dst_addr by {
        let aa = if a < i {
            a
        } else {
            a + 1
        };
        let bb = if b < i {
            b
        } else {
            b + 1
        };
        assert(post[a] == fwd[aa]);
        assert(post[b] == fwd[bb]);
        assert(fwd[aa].dst_addr != fwd[bb].dst_addr);
    }
    assert forall|d: u64| d != fwd[i].dst_addr implies #[trigger] spec_lookup_next_hop(post, d)
        == spec_lookup_next_hop(fwd, d) by {
        lemma_fwd_index(fwd, d);
        lemma_fwd_index(post, d);
        let jp = spec_fwd_index(post, d);
        let jf = spec_fwd_index(fwd, d);
        if jf != -1 {
            assert(jf != i);
            let jf2 = if jf < i {
                jf
            } else {
                jf - 1
            };
            assert(post[jf2] == fwd[jf]);
            assert(jp != -1);
            if jp != jf2 {
                let jpp = if jp < i {
                    jp
                } else {
                    jp + 1
                };
                assert(post[jp] == fwd[jpp]);
                assert(fwd[jpp].dst_addr == d);
                assert(jpp == jf);
            }
            assert(post[jp] == fwd[jf]);
        } else {
            if jp != -1 {
                let jpp = if jp < i {
                    jp
                } else {
                    jp + 1
                };
                assert(post[jp] == fwd[jpp]);
                assert(fwd[jpp].dst_addr == d);
            }
        }
    }
}

/// Uniqueness of destinations carries over to an extensionally equal table.
proof fn lemma_fwd_unique_transfer(a: Seq<ForwardingEntry>, b: Seq<ForwardingEntry>)
    requires
        a =~= b,
        forall|i: int, j: int|
            0 <= i < j < a.len() ==> (#[trigger] a[i]).dst_addr != (#[trigger] a[j]).dst_addr,
    ensures
        forall|i: int, j: int|
            0 <= i < j < b.len() ==> (#[trigger] b[i]).dst_addr != (#[trigger] b[j]).dst_addr,
{
    assert forall|i: int, j: int|
        0 <= i < j < b.len() implies (#[trigger] b[i]).dst_addr != (#[trigger] b[j]).dst_addr by {
        assert(b[i] == a[i]);
        assert(b[j] == a[j]);
        assert(a[i].dst_addr != a[j].dst_addr);
    }
}

/// Uniqueness of next hops carries over to an extensionally equal table.
proof fn lemma_queues_unique_transfer(a: Seq<QueueModel>, b: Seq<QueueModel>)
    requires
        a =~= b,
        forall|i: int, j: int|
            0 <= i < j < a.len() ==> (#[trigger] a[i]).next_hop != (#[trigger] a[j]).next_hop,
    ensures
        forall|i: int, j: int|
            0 <= i < j < b.len() ==> (#[trigger] b[i]).next_hop != (#[trigger] b[j]).next_hop,
{
    assert forall|i: int, j: int|
        0 <= i < j < b.len() implies (#[trigger] b[i]).next_hop != (#[trigger] b[j]).next_hop by {
        assert(b[i] == a[i]);
        assert(b[j] == a[j]);
        assert(a[i].next_hop != a[j].next_hop);
    }
}

/// Every entry of the table after an upsert is the new entry or an old one.
proof fn lemma_entry_was_old(
    pre: Seq<ForwardingEntry>,
    post: Seq<ForwardingEntry>,
    entry: ForwardingEntry,
    k: int,
)
    requires
        0 <= k < post.len(),
        post == pre.push(entry) || exists|i: int| 0 <= i < pre.len() && post == pre.update(i, entry),
    ensures
        post[k] == entry || (exists|j: int| 0 <= j < pre.len() && post[k] == #[trigger] pre[j]),
{
    if post == pre.push(entry) {
        if k < pre.len() {
            assert(post[k] == pre[k]);
        }
    } else {
        let i = choose|i: int| 0 <= i < pre.len() && post == pre.update(i, entry);
        if k != i {
            assert(post[k] == pre[k]);
        }
    }
}

/// Route coverage carries over to extensionally equal tables.
proof fn lemma_coverage_transfer(
    fa: Seq<ForwardingEntry>,
    fb: Seq<ForwardingEntry>,
    qa: Seq<QueueModel>,
    qb: Seq<QueueModel>,
)
    requires
        fa =~= fb,
        qa =~= qb,
        forall|k: int|
            0 <= k < fa.len() ==> spec_queue_index(qa, (#[trigger] fa[k]).next_hop) != -1,
    ensures
        forall|k: int|
            0 <= k < fb.len() ==> spec_queue_index(qb, (#[trigger] fb[k]).next_hop) != -1,
{
    assert(qa == qb);
    assert forall|k: int|
        0 <= k < fb.len() implies spec_queue_index(qb, (#[trigger] fb[k]).next_hop) != -1 by {
        assert(fb[k] == fa[k]);
        assert(spec_queue_index(qa, fa[k].next_hop) != -1);
    }
}

/// Two equal queue tables agree on every per-hop queue.
proof fn lemma_queues_same(a: Seq<QueueModel>, b: Seq<QueueModel>)
    requires
        a == b,
    ensures
        forall|h: u64|
            #![trigger spec_queue_pdus(b, h)]
            spec_queue_pdus(a, h) == spec_queue_pdus(b, h),
{
}

/// Appending a fresh, empty queue does not change any per-hop contents.
proof fn lemma_queue_push_lookup(queues: Seq<QueueModel>, q: QueueModel)
    requires
        forall|k: int| 0 <= k < queues.len() ==> (#[trigger] queues[k]).next_hop != q.next_hop,
        q.pdus.len() == 0,
        forall|a: int, b: int|
            0 <= a < b < queues.len() ==> (#[trigger] queues[a]).next_hop != (
            #[trigger] queues[b]).next_hop,
    ensures
        forall|h: u64|
            #![trigger spec_queue_pdus(queues.push(q), h)]
            spec_queue_pdus(queues.push(q), h) == spec_queue_pdus(queues, h),
        spec_queue_index(queues.push(q), q.next_hop) != -1,
        forall|h: u64|
            spec_queue_index(queues, h) != -1 ==> #[trigger] spec_queue_index(queues.push(q), h)
                != -1,
        forall|a: int, b: int|
            0 <= a < b < queues.push(q).len() ==> (#[trigger] queues.push(q)[a]).next_hop != (
            #[trigger] queues.push(q)[b]).next_hop,
{
    let post = queues.push(q);
    lemma_queue_index(post, q.next_hop);
    assert(spec_queue_index(post, q.next_hop) == queues.len()) by {
        assert(post[queues.len() as int].next_hop == q.next_hop);
        let j = spec_queue_index(post, q.next_hop);
        assert(j != -1);
        if j < queues.len() {
            assert(post[j] == queues[j]);
        }
    }
    assert forall|h: u64|
        spec_queue_index(queues, h) != -1 implies #[trigger] spec_queue_index(post, h) != -1 by {
        lemma_queue_index(queues, h);
        lemma_queue_index(post, h);
        let jf = spec_queue_index(queues, h);
        assert(post[jf] == queues[jf]);
        assert(post[jf].next_hop == h);
    }
    assert forall|h: u64|
        #![trigger spec_queue_pdus(post, h)]
        spec_queue_pdus(post, h) == spec_queue_pdus(queues, h) by {
        lemma_queue_index(queues, h);
        lemma_queue_index(post, h);
        let jp = spec_queue_index(post, h);
        let jf = spec_queue_index(queues, h);
        if h == q.next_hop {
            assert(jf == -1);
            assert(jp == queues.len());
            assert(post[jp].pdus =~= Seq::<PduModel>::empty());
        } else if jf != -1 {
            assert(post[jf] == queues[jf]);
            assert(jp != -1);
            assert(jp <= jf);
            if jp < jf {
                assert(post[jp].next_hop == h);
                assert(queues[jp].next_hop == h);
            }
            assert(jp == jf);
        } else {
            if jp != -1 {
                assert(post[jp].next_hop == h);
                assert(jp < queues.len());
                assert(queues[jp].next_hop == h);
            }
        }
    }
    assert forall|a: int, b: int|
        0 <= a < b < post.len() implies (#[trigger] post[a]).next_hop != (
    #[trigger] post[b]).next_hop by {
        if b < queues.len() {
            assert(queues[a].next_hop != queues[b].next_hop);
        } else {
            assert(post[b] == q);
            assert(post[a] == queues[a]);
        }
    }
}

/// Replacing the queue at one hop's index changes only that hop's contents.
proof fn lemma_queue_update_lookup(queues: Seq<QueueModel>, i: int, q: QueueModel)
    requires
        0 <= i < queues.len(),
        queues[i].next_hop == q.next_hop,
        forall|a: int, b: int|
            0 <= a < b < queues.len() ==> (#[trigger] queues[a]).next_hop != (
            #[trigger] queues[b]).next_hop,
    ensures
        spec_queue_pdus(queues.update(i, q), q.next_hop) == q.pdus,
        forall|h: u64|
            h != q.next_hop ==> #[trigger] spec_queue_pdus(queues.update(i, q), h)
                == spec_queue_pdus(queues, h),
        forall|h: u64|
            #[trigger] spec_queue_index(queues.update(i, q), h) == spec_queue_index(queues, h),
        forall|a: int, b: int|
            0 <= a < b < queues.update(i, q).len() ==> (#[trigger] queues.update(
                i,
                q,
            )[a]).next_hop != (#[trigger] queues.update(i, q)[b]).next_hop,
{
    let post = queues.update(i, q);
    lemma_queue_index(queues, q.next_hop);
    assert(spec_queue_index(queues, q.next_hop) == i) by {
        let j = spec_queue_index(queues, q.next_hop);
        assert(j != -1);
        if j < i {
            assert(queues[j].next_hop == queues[i].next_hop);
        }
    }
    lemma_queue_index(post, q.next_hop);
    assert(spec_queue_index(post, q.next_hop) == i) by {
        assert(post[i].next_hop == q.next_hop);
        let j = spec_queue_index(post, q.next_hop);
        assert(j != -1);
        if j < i {
            assert(post[j] == queues[j]);
            assert(queues[j].next_hop != q.next_hop);
        }
    }
    assert forall|h: u64| #[trigger] spec_queue_index(post, h) == spec_queue_index(queues, h) by {
        lemma_queue_index(queues, h);
        lemma_queue_index(post, h);
        let jp = spec_queue_index(post, h);
        let jf = spec_queue_index(queues, h);
        if h == q.next_hop {
        } else if jf != -1 {
            assert(jf != i);
            assert(post[jf] == queues[jf]);
            assert(jp != -1);
            assert(jp <= jf);
            if jp < jf {
                assert(post[jp].next_hop == h);
                assert(jp != i);
                assert(queues[jp].next_hop == h);
            }
        } else {
            if jp != -1 {
                assert(post[jp].next_hop == h);
                assert(jp != i);
                assert(queues[jp].next_hop == h);
            }
        }
    }
    assert forall|h: u64| h != q.next_hop implies #[trigger] spec_queue_pdus(post, h)
        == spec_queue_pdus(queues, h) by {
        lemma_queue_index(queues, h);
        lemma_queue_index(post, h);
        let jp = spec_queue_index(post, h);
        let jf = spec_queue_index(queues, h);
        if jf != -1 {
            assert(jf != i);
            assert(post[jf] == queues[jf]);
            assert(jp != -1);
            assert(jp <= jf);
            if jp < jf {
                assert(post[jp].next_hop == h);
                assert(jp != i);
                assert(queues[jp].next_hop == h);
            }
            assert(jp == jf);
        } else {
            if jp != -1 {
                assert(post[jp].next_hop == h);
                assert(jp != i);
                assert(queues[jp].next_hop == h);
            }
        }
    }
    assert forall|a: int, b: int|
        0 <= a < b < post.len() implies (#[trigger] post[a]).next_hop != (
    #[trigger] post[b]).next_hop by {
        assert(queues[a].next_hop != queues[b].next_hop);
        if a == i {
            assert(post[a].next_hop == queues[i].next_hop);
        }
        if b == i {
            assert(post[b].next_hop == queues[i].next_hop);
        }
    }
}

} // verus!
