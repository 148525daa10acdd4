//! Inter-IPCP flows: the lazily created per-neighbor connections of the
//! layer below, with activity tracking and staleness cleanup.  The actual
//! socket sends happen outside this crate; this module owns the state.

use vstd::prelude::*;

verus! {

broadcast use vstd::seq_lib::group_seq_lib_default, vstd::seq::group_seq_axioms, vstd::std_specs::vec::group_vec_axioms;

/// State of one neighbor flow.
#[derive(Debug, Clone, Copy, PartialEq, Eq, Structural)]
pub enum InterIpcpFlowState {
    /// Usable.
    Active,
    /// Unused for longer than the staleness timeout.
    Stale,
    /// The last send failed.
    Failed,
}

/// One bidirectional connection to a neighbor.
#[derive(Debug)]
pub struct InterIpcpFlow {
    /// The neighbor's RINA address.
    pub remote_addr: u64,
    /// The neighbor's socket address (`host:port`).
    pub socket_addr: String,
    /// The flow's state.
    pub state: InterIpcpFlowState,
    /// Unix milliseconds of the last activity.
    pub last_activity_ms: u64,
    /// PDUs sent on this flow.
    pub sent_pdus: u64,
    /// PDUs received on this flow.
    pub received_pdus: u64,
    /// Sends that failed.
    pub send_errors: u64,
}

impl InterIpcpFlow {
    /// A fresh, active flow seen at `now_ms`.
    pub fn new_at(remote_addr: u64, socket_addr: String, now_ms: u64) -> (r: Self)
        ensures
            r.remote_addr == remote_addr,
            r.socket_addr@ == socket_addr@,
            r.state == InterIpcpFlowState::Active,
            r.last_activity_ms == now_ms,
            r.sent_pdus == 0,
            r.received_pdus == 0,
            r.send_errors == 0,
    {
        InterIpcpFlow {
            remote_addr,
            socket_addr,
            state: InterIpcpFlowState::Active,
            last_activity_ms: now_ms,
            sent_pdus: 0,
            received_pdus: 0,
            send_errors: 0,
        }
    }

    /// A fresh, active flow seen at the current system time.
    pub fn new(remote_addr: u64, socket_addr: String) -> (r: Self)
        ensures
            r.remote_addr == remote_addr,
            r.socket_addr@ == socket_addr@,
            r.state == InterIpcpFlowState::Active,
            r.sent_pdus == 0,
            r.received_pdus == 0,
            r.send_errors == 0,
    {
        let now_ms = crate::clock::unix_now_millis();
        Self::new_at(remote_addr, socket_addr, now_ms)
    }

    /// Moves the flow to a new socket address, refreshing its activity.
    pub fn update_address_at(&mut self, new_socket_addr: String, now_ms: u64)
        ensures
            final(self).socket_addr@ == new_socket_addr@,
            final(self).last_activity_ms == now_ms,
            final(self).state == InterIpcpFlowState::Active,
            final(self).remote_addr == old(self).remote_addr,
            final(self).sent_pdus == old(self).sent_pdus,
            final(self).received_pdus == old(self).received_pdus,
            final(self).send_errors == old(self).send_errors,
    {
        self.socket_addr = new_socket_addr;
        self.last_activity_ms = now_ms;
        self.state = InterIpcpFlowState::Active;
    }

    /// Moves the flow to a new socket address, stamped with the current
    /// system time.
    pub fn update_address(&mut self, new_socket_addr: String)
        ensures
            final(self).socket_addr@ == new_socket_addr@,
            final(self).state == InterIpcpFlowState::Active,
            final(self).remote_addr == old(self).remote_addr,
            final(self).sent_pdus == old(self).sent_pdus,
            final(self).received_pdus == old(self).received_pdus,
            final(self).send_errors == old(self).send_errors,
    {
        let now_ms = crate::clock::unix_now_millis();
        self.update_address_at(new_socket_addr, now_ms);
    }

    /// Counts one successful send at `now_ms`.
    pub fn record_send_at(&mut self, now_ms: u64)
        requires
            old(self).sent_pdus < u64::MAX,
        ensures
            final(self).sent_pdus == old(self).sent_pdus + 1,
            final(self).last_activity_ms == now_ms,
            final(self).state == InterIpcpFlowState::Active,
            final(self).remote_addr == old(self).remote_addr,
            final(self).socket_addr == old(self).socket_addr,
            final(self).received_pdus == old(self).received_pdus,
            final(self).send_errors == old(self).send_errors,
    {
        self.sent_pdus = self.sent_pdus + 1;
        self.last_activity_ms = now_ms;
        self.state = InterIpcpFlowState::Active;
    }

    /// Counts one successful send at the current system time.
    pub fn record_send(&mut self)
        requires
            old(self).sent_pdus < u64::MAX,
        ensures
            final(self).sent_pdus == old(self).sent_pdus + 1,
            final(self).state == InterIpcpFlowState::Active,
            final(self).remote_addr == old(self).remote_addr,
            final(self).socket_addr == old(self).socket_addr,
            final(self).received_pdus == old(self).received_pdus,
            final(self).send_errors == old(self).send_errors,
    {
        let now_ms = crate::clock::unix_now_millis();
        self.record_send_at(now_ms);
    }

    /// Counts one failed send; the flow is marked failed.
    pub fn record_send_error(&mut self)
        requires
            old(self).send_errors < u64::MAX,
        ensures
            final(self).send_errors == old(self).send_errors + 1,
            final(self).state == InterIpcpFlowState::Failed,
            final(self).remote_addr == old(self).remote_addr,
            final(self).socket_addr == old(self).socket_addr,
            final(self).sent_pdus == old(self).sent_pdus,
            final(self).received_pdus == old(self).received_pdus,
            final(self).last_activity_ms == old(self).last_activity_ms,
    {
        self.send_errors = self.send_errors + 1;
        self.state = InterIpcpFlowState::Failed;
    }

    /// Counts one reception at `now_ms`.
    pub fn record_receive_at(&mut self, now_ms: u64)
        requires
            old(self).received_pdus < u64::MAX,
        ensures
            final(self).received_pdus == old(self).received_pdus + 1,
            final(self).last_activity_ms == now_ms,
            final(self).state == InterIpcpFlowState::Active,
            final(self).remote_addr == old(self).remote_addr,
            final(self).socket_addr == old(self).socket_addr,
            final(self).sent_pdus == old(self).sent_pdus,
            final(self).send_errors == old(self).send_errors,
    {
        self.received_pdus = self.received_pdus + 1;
        self.last_activity_ms = now_ms;
        self.state = InterIpcpFlowState::Active;
    }

    /// Counts one reception at the current system time.
    pub fn record_receive(&mut self)
        requires
            old(self).received_pdus < u64::MAX,
        ensures
            final(self).received_pdus == old(self).received_pdus + 1,
            final(self).state == InterIpcpFlowState::Active,
            final(self).remote_addr == old(self).remote_addr,
            final(self).socket_addr == old(self).socket_addr,
            final(self).sent_pdus == old(self).sent_pdus,
            final(self).send_errors == old(self).send_errors,
    {
        let now_ms = crate::clock::unix_now_millis();
        self.record_receive_at(now_ms);
    }

    /// Stale at `now_ms`: no activity for longer than `timeout_ms`.
    pub fn is_stale_at(&self, now_ms: u64, timeout_ms: u64) -> (r: bool)
        ensures
            r == ((if now_ms >= self.last_activity_ms {
                now_ms - self.last_activity_ms
            } else {
                0
            }) > timeout_ms),
    {
        let age = if now_ms >= self.last_activity_ms {
            now_ms - self.last_activity_ms
        } else {
            0
        };
        age > timeout_ms
    }

    /// Stale as of the current system time.
    pub fn is_stale(&self, timeout_ms: u64) -> bool {
        let now_ms = crate::clock::unix_now_millis();
        self.is_stale_at(now_ms, timeout_ms)
    }
}


/// Model of one neighbor flow.
pub struct InterIpcpFlowModel {
    pub remote_addr: u64,
    pub socket_addr: Seq<char>,
    pub state: InterIpcpFlowState,
    pub last_activity_ms: u64,
    pub sent_pdus: u64,
    pub received_pdus: u64,
    pub send_errors: u64,
}

impl View for InterIpcpFlow {
    type V = InterIpcpFlowModel;

    open spec fn view(&self) -> InterIpcpFlowModel {
        InterIpcpFlowModel {
            remote_addr: self.remote_addr,
            socket_addr: self.socket_addr@,
            state: self.state,
            last_activity_ms: self.last_activity_ms,
            sent_pdus: self.sent_pdus,
            received_pdus: self.received_pdus,
            send_errors: self.send_errors,
        }
    }
}

/// Model of the flow table.
pub open spec fn nflows_model(s: Seq<InterIpcpFlow>) -> Seq<InterIpcpFlowModel> {
    Seq::new(s.len(), |i: int| s[i]@)
}

/// Index of the first flow to `remote_addr`, or `-1` when none exists.
pub open spec fn spec_nflow_index(s: Seq<InterIpcpFlowModel>, remote_addr: u64) -> int
    decreases s.len(),
{
    if s.len() == 0 {
        -1
    } else if s[0].remote_addr == remote_addr {
        0
    } else {
        let r = spec_nflow_index(s.drop_first(), remote_addr);
        if r == -1 {
            -1
        } else {
            r + 1
        }
    }
}

/// `spec_nflow_index` is `-1` exactly when the neighbor is absent, and
/// otherwise points at its first flow.
pub proof fn lemma_nflow_index(s: Seq<InterIpcpFlowModel>, remote_addr: u64)
    ensures
        spec_nflow_index(s, remote_addr) == -1 <==> (forall|k: int|
            0 <= k < s.len() ==> (#[trigger] s[k]).remote_addr != remote_addr),
        spec_nflow_index(s, remote_addr) != -1 ==> 0 <= spec_nflow_index(s, remote_addr) < s.len()
            && s[spec_nflow_index(s, remote_addr)].remote_addr == remote_addr && (forall|k: int|
            0 <= k < spec_nflow_index(s, remote_addr) ==> (#[trigger] s[k]).remote_addr
                != remote_addr),
    decreases s.len(),
{
    if s.len() > 0 {
        let tail = s.drop_first();
        lemma_nflow_index(tail, remote_addr);
        assert(forall|k: int| 0 <= k < tail.len() ==> #[trigger] tail[k] == s[k + 1]);
        if s[0].remote_addr != remote_addr {
            let r = spec_nflow_index(tail, remote_addr);
            if r == -1 {
                assert forall|k: int| 0 <= k < s.len() implies (#[trigger] s[k]).remote_addr
                    != remote_addr by {
                    if k > 0 {
                        assert(tail[k - 1] == s[k]);
                    }
                }
            } else {
                assert(s[r + 1] == tail[r]);
                assert forall|k: int| 0 <= k < r + 1 implies (#[trigger] s[k]).remote_addr
                    != remote_addr by {
                    if k > 0 {
                        assert(tail[k - 1] == s[k]);
                    }
                }
            }
        }
    }
}

/// Stale at `now_ms` under `timeout_ms`.
pub open spec fn spec_flow_stale(m: InterIpcpFlowModel, now_ms: u64, timeout_ms: u64) -> bool {
    (if now_ms >= m.last_activity_ms {
        now_ms - m.last_activity_ms
    } else {
        0
    }) > timeout_ms
}

/// The per-neighbor flow table: one logical connection per neighbor, with
/// lazy creation, activity tracking and staleness cleanup.  The socket
/// itself lives outside this crate.
#[derive(Debug)]
pub struct InterIpcpFlowAllocator {
    flows: Vec<InterIpcpFlow>,
    /// Milliseconds of silence after which a flow counts stale.
    pub stale_timeout_ms: u64,
}

impl View for InterIpcpFlowAllocator {
    type V = Seq<InterIpcpFlowModel>;

    closed spec fn view(&self) -> Seq<InterIpcpFlowModel> {
        nflows_model(self.flows@)
    }
}

impl InterIpcpFlowAllocator {
    /// The staleness timeout in milliseconds (spec view).
    pub closed spec fn spec_stale_timeout_ms(&self) -> u64 {
        self.stale_timeout_ms
    }

    /// An empty table with the default five-minute staleness timeout.
    pub fn new() -> (r: Self)
        ensures
            r@ == Seq::<InterIpcpFlowModel>::empty(),
            r.spec_stale_timeout_ms() == 300000,
    {
        let r = InterIpcpFlowAllocator { flows: Vec::new(), stale_timeout_ms: 300000 };
        proof {
            assert(nflows_model(r.flows@) =~= Seq::<InterIpcpFlowModel>::empty());
        }
        r
    }

    /// Changes the staleness timeout.
    pub fn set_stale_timeout_ms(&mut self, timeout_ms: u64)
        ensures
            final(self)@ == old(self)@,
            final(self).spec_stale_timeout_ms() == timeout_ms,
    {
        self.stale_timeout_ms = timeout_ms;
    }

    #[verifier::loop_isolation(false)]
    fn find_flow(&self, remote_addr: u64) -> (r: Option<usize>)
        ensures
            match r {
                Some(i) => i == spec_nflow_index(self@, remote_addr) && i < self@.len()
                    && self@[i as int].remote_addr == remote_addr,
                None => spec_nflow_index(self@, remote_addr) == -1,
            },
    {
        let mut i: usize = 0;
        while i < self.flows.len()
            invariant
                i <= self.flows@.len(),
                forall|k: int| 0 <= k < i ==> (#[trigger] self@[k]).remote_addr != remote_addr,
            decreases self.flows@.len() - i,
        {
            if self.flows[i].remote_addr == remote_addr {
                proof {
                    assert(self@[i as int].remote_addr == remote_addr);
                    lemma_nflow_index(self@, remote_addr);
                }
                return Some(i);
            }
            i = i + 1;
        }
        proof {
            lemma_nflow_index(self@, remote_addr);
        }
        None
    }

    /// Makes sure a flow to the neighbor exists: a known neighbor keeps its
    /// flow, refreshed to the new socket (active, with fresh activity) when
    /// it moved and untouched otherwise; an unknown one gets a fresh active
    /// flow.  Returns true exactly when a flow was created.
    pub fn get_or_create_flow_at(&mut self, remote_addr: u64, socket_addr: String, now_ms: u64) -> (r:
        bool)
        ensures
            final(self).spec_stale_timeout_ms() == old(self).spec_stale_timeout_ms(),
            ({
                let idx = spec_nflow_index(old(self)@, remote_addr);
                if idx == -1 {
                    &&& r == true
                    &&& final(self)@ == old(self)@.push(
                        InterIpcpFlowModel {
                            remote_addr,
                            socket_addr: socket_addr@,
                            state: InterIpcpFlowState::Active,
                            last_activity_ms: now_ms,
                            sent_pdus: 0,
                            received_pdus: 0,
                            send_errors: 0,
                        },
                    )
                } else {
                    &&& r == false
                    &&& final(self)@ == (if old(self)@[idx].socket_addr == socket_addr@ {
                        old(self)@
                    } else {
                        old(self)@.update(
                            idx,
                            InterIpcpFlowModel {
                                socket_addr: socket_addr@,
                                state: InterIpcpFlowState::Active,
                                last_activity_ms: now_ms,
                                ..old(self)@[idx]
                            },
                        )
                    })
                }
            }),
            exists|i: int|
                0 <= i < final(self)@.len() && (#[trigger] final(self)@[i]).remote_addr
                    == remote_addr,
    {
        match self.find_flow(remote_addr) {
            Some(i) => {
                let ghost pre = nflows_model(self.flows@);
                let changed = !crate::strutil::str_eq(
                    self.flows[i].socket_addr.as_str(),
                    socket_addr.as_str(),
                );
                if changed {
                    let mut flow = self.flows.remove(i);
                    proof {
                        assert(flow@ == pre[i as int]);
                    }
                    flow.update_address_at(socket_addr, now_ms);
                    let ghost fm = flow@;
                    self.flows.insert(i, flow);
                    proof {
                        assert(nflows_model(self.flows@) =~= pre.update(i as int, fm));
                        assert(nflows_model(self.flows@)[i as int].remote_addr == remote_addr);
                        assert(exists|k: int|
                            0 <= k < self@.len() && (#[trigger] self@[k]).remote_addr
                                == remote_addr);
                    }
                } else {
                    proof {
                        assert(nflows_model(self.flows@)[i as int].remote_addr == remote_addr);
                        assert(exists|k: int|
                            0 <= k < self@.len() && (#[trigger] self@[k]).remote_addr
                                == remote_addr);
                    }
                }
                false
            },
            None => {
                let flow = InterIpcpFlow::new_at(remote_addr, socket_addr, now_ms);
                let ghost pre = nflows_model(self.flows@);
                let ghost fm = flow@;
                self.flows.push(flow);
                proof {
                    assert(nflows_model(self.flows@) =~= pre.push(fm));
                    let post = nflows_model(self.flows@);
                    assert(post[post.len() - 1].remote_addr == remote_addr);
                    assert(exists|k: int|
                        0 <= k < self@.len() && (#[trigger] self@[k]).remote_addr == remote_addr);
                }
                true
            },
        }
    }

    /// Records a reception from the neighbor: the reception is counted
    /// (saturating), activity is refreshed, the mapping follows a moved
    /// socket, and an unknown neighbor gains a fresh flow with one
    /// reception counted.
    pub fn record_received_from_at(&mut self, remote_addr: u64, socket_addr: String, now_ms: u64)
        ensures
            final(self).spec_stale_timeout_ms() == old(self).spec_stale_timeout_ms(),
            ({
                let idx = spec_nflow_index(old(self)@, remote_addr);
                if idx == -1 {
                    final(self)@ == old(self)@.push(
                        InterIpcpFlowModel {
                            remote_addr,
                            socket_addr: socket_addr@,
                            state: InterIpcpFlowState::Active,
                            last_activity_ms: now_ms,
                            sent_pdus: 0,
                            received_pdus: 1,
                            send_errors: 0,
                        },
                    )
                } else {
                    let pre = old(self)@[idx];
                    let moved = if pre.socket_addr != socket_addr@ {
                        InterIpcpFlowModel {
                            socket_addr: socket_addr@,
                            state: InterIpcpFlowState::Active,
                            last_activity_ms: now_ms,
                            ..pre
                        }
                    } else {
                        pre
                    };
                    final(self)@ == old(self)@.update(
                        idx,
                        (if moved.received_pdus < u64::MAX {
                            InterIpcpFlowModel {
                                received_pdus: (moved.received_pdus + 1) as u64,
                                state: InterIpcpFlowState::Active,
                                last_activity_ms: now_ms,
                                ..moved
                            }
                        } else {
                            moved
                        }),
                    )
                }
            }),
            exists|i: int|
                0 <= i < final(self)@.len() && (#[trigger] final(self)@[i]).remote_addr
                    == remote_addr,
    {
        match self.find_flow(remote_addr) {
            Some(i) => {
                let ghost pre = nflows_model(self.flows@);
                let mut flow = self.flows.remove(i);
                proof {
                    assert(flow@ == pre[i as int]);
                }
                let changed = !crate::strutil::str_eq(
                    flow.socket_addr.as_str(),
                    socket_addr.as_str(),
                );
                if changed {
                    flow.update_address_at(socket_addr, now_ms);
                }
                if flow.received_pdus < u64::MAX {
                    flow.record_receive_at(now_ms);
                }
                let ghost fm = flow@;
                self.flows.insert(i, flow);
                proof {
                    assert(nflows_model(self.flows@) =~= pre.update(i as int, fm));
                    assert(nflows_model(self.flows@)[i as int].remote_addr == remote_addr);
                    assert(exists|k: int|
                        0 <= k < self@.len() && (#[trigger] self@[k]).remote_addr == remote_addr);
                }
            },
            None => {
                let ghost pre = nflows_model(self.flows@);
                let mut flow = InterIpcpFlow::new_at(remote_addr, socket_addr, now_ms);
                flow.record_receive_at(now_ms);
                let ghost fm = flow@;
                self.flows.push(flow);
                proof {
                    assert(nflows_model(self.flows@) =~= pre.push(fm));
                    let post = nflows_model(self.flows@);
                    assert(post[post.len() - 1].remote_addr == remote_addr);
                    assert(exists|k: int|
                        0 <= k < self@.len() && (#[trigger] self@[k]).remote_addr == remote_addr);
                }
            },
        }
    }

    /// Moves the neighbor to a new socket address, reactivating its flow
    /// with fresh activity and keeping its counters; an unknown neighbor
    /// gains a fresh flow at that address.
    pub fn update_peer_address_at(&mut self, remote_addr: u64, new_socket_addr: String, now_ms: u64)
        ensures
            final(self).spec_stale_timeout_ms() == old(self).spec_stale_timeout_ms(),
            ({
                let idx = spec_nflow_index(old(self)@, remote_addr);
                if idx == -1 {
                    final(self)@ == old(self)@.push(
                        InterIpcpFlowModel {
                            remote_addr,
                            socket_addr: new_socket_addr@,
                            state: InterIpcpFlowState::Active,
                            last_activity_ms: now_ms,
                            sent_pdus: 0,
                            received_pdus: 0,
                            send_errors: 0,
                        },
                    )
                } else {
                    final(self)@ == old(self)@.update(
                        idx,
                        InterIpcpFlowModel {
                            socket_addr: new_socket_addr@,
                            state: InterIpcpFlowState::Active,
                            last_activity_ms: now_ms,
                            ..old(self)@[idx]
                        },
                    )
                }
            }),
            exists|i: int|
                0 <= i < final(self)@.len() && (#[trigger] final(self)@[i]).remote_addr
                    == remote_addr,
    {
        match self.find_flow(remote_addr) {
            Some(i) => {
                let ghost pre = nflows_model(self.flows@);
                let mut flow = self.flows.remove(i);
                proof {
                    assert(flow@ == pre[i as int]);
                }
                flow.update_address_at(new_socket_addr, now_ms);
                let ghost fm = flow@;
                self.flows.insert(i, flow);
                proof {
                    assert(nflows_model(self.flows@) =~= pre.update(i as int, fm));
                    assert(nflows_model(self.flows@)[i as int].remote_addr == remote_addr);
                    assert(exists|k: int|
                        0 <= k < self@.len() && (#[trigger] self@[k]).remote_addr == remote_addr);
                }
            },
            None => {
                let ghost pre = nflows_model(self.flows@);
                let flow = InterIpcpFlow::new_at(remote_addr, new_socket_addr, now_ms);
                let ghost fm = flow@;
                self.flows.push(flow);
                proof {
                    assert(nflows_model(self.flows@) =~= pre.push(fm));
                    let post = nflows_model(self.flows@);
                    assert(post[post.len() - 1].remote_addr == remote_addr);
                    assert(exists|k: int|
                        0 <= k < self@.len() && (#[trigger] self@[k]).remote_addr == remote_addr);
                }
            },
        }
    }

    /// Records the outcome of a send to the neighbor: success counts a sent
    /// PDU (saturating) and refreshes activity; failure counts an error
    /// (saturating) and marks the flow failed.  An unknown neighbor changes
    /// nothing.
    pub fn record_send_outcome_at(&mut self, remote_addr: u64, ok: bool, now_ms: u64)
        ensures
            final(self).spec_stale_timeout_ms() == old(self).spec_stale_timeout_ms(),
            ({
                let idx = spec_nflow_index(old(self)@, remote_addr);
                if idx == -1 {
                    final(self)@ == old(self)@
                } else {
                    let pre = old(self)@[idx];
                    final(self)@ == old(self)@.update(
                        idx,
                        (if ok {
                            if pre.sent_pdus < u64::MAX {
                                InterIpcpFlowModel {
                                    sent_pdus: (pre.sent_pdus + 1) as u64,
                                    state: InterIpcpFlowState::Active,
                                    last_activity_ms: now_ms,
                                    ..pre
                                }
                            } else {
                                pre
                            }
                        } else {
                            if pre.send_errors < u64::MAX {
                                InterIpcpFlowModel {
                                    send_errors: (pre.send_errors + 1) as u64,
                                    state: InterIpcpFlowState::Failed,
                                    ..pre
                                }
                            } else {
                                pre
                            }
                        }),
                    )
                }
            }),
    {
        match self.find_flow(remote_addr) {
            Some(i) => {
                let ghost pre = nflows_model(self.flows@);
                let mut flow = self.flows.remove(i);
                proof {
                    assert(flow@ == pre[i as int]);
                }
                if ok {
                    if flow.sent_pdus < u64::MAX {
                        flow.record_send_at(now_ms);
                    }
                } else {
                    if flow.send_errors < u64::MAX {
                        flow.record_send_error();
                    }
                }
                let ghost fm = flow@;
                self.flows.insert(i, flow);
                proof {
                    assert(nflows_model(self.flows@) =~= pre.update(i as int, fm));
                }
            },
            None => {},
        }
    }

    /// Drops every flow stale at `now_ms`; returns how many were dropped.
    /// Exactly the flows not satisfying the staleness predicate remain.
    #[verifier::loop_isolation(false)]
    pub fn cleanup_stale_flows_at(&mut self, now_ms: u64) -> (r: usize)
        ensures
            final(self)@ == old(self)@.filter(
                |m: InterIpcpFlowModel| !spec_flow_stale(m, now_ms, old(self).spec_stale_timeout_ms()),
            ),
            r == old(self)@.len() - final(self)@.len(),
            final(self).spec_stale_timeout_ms() == old(self).spec_stale_timeout_ms(),
    {
        let ghost w = nflows_model(self.flows@);
        let ghost p = |m: InterIpcpFlowModel| !spec_flow_stale(m, now_ms, self.stale_timeout_ms);
        let timeout = self.stale_timeout_ms;
        let mut kept: Vec<InterIpcpFlow> = Vec::new();
        let n = self.flows.len();
        let mut i: usize = 0;
        proof {
            assert(nflows_model(kept@) =~= w.take(0).filter(p));
        }
        while i < n
            invariant
                i <= n,
                n == self.flows@.len(),
                self@ == w,
                timeout == self.stale_timeout_ms,
                nflows_model(kept@) == w.take(i as int).filter(p),
            decreases n - i,
        {
            let ghost pre = nflows_model(kept@);
            let ghost taken = w.take(i as int);
            let ghost cur = w[i as int];
            if !self.flows[i].is_stale_at(now_ms, timeout) {
                let f = &self.flows[i];
                let mut sock = String::new();
                sock.append(f.socket_addr.as_str());
                kept.push(
                    InterIpcpFlow {
                        remote_addr: f.remote_addr,
                        socket_addr: sock,
                        state: f.state,
                        last_activity_ms: f.last_activity_ms,
                        sent_pdus: f.sent_pdus,
                        received_pdus: f.received_pdus,
                        send_errors: f.send_errors,
                    },
                );
                proof {
                    assert(nflows_model(kept@) =~= pre.push(cur));
                }
            }
            proof {
                reveal_with_fuel(Seq::filter, 2);
                assert(w.take(i as int + 1).drop_last() =~= taken);
                assert(w.take(i as int + 1).last() == cur);
                if p(cur) {
                    assert(w.take(i as int + 1).filter(p) =~= taken.filter(p).push(cur));
                } else {
                    assert(w.take(i as int + 1).filter(p) =~= taken.filter(p));
                }
            }
            i = i + 1;
        }
        proof {
            assert(w.take(w.len() as int) =~= w);
            w.lemma_filter_len(p);
        }
        let removed = n - kept.len();
        self.flows = kept;
        removed
    }

    /// Drops every flow stale as of the current system time.
    pub fn cleanup_stale_flows(&mut self) -> (r: usize)
        ensures
            exists|now_ms: u64|
                final(self)@ == old(self)@.filter(
                    |m: InterIpcpFlowModel|
                        !spec_flow_stale(
                            m,
                            #[trigger] crate::routing::spec_now_witness(now_ms),
                            old(self).spec_stale_timeout_ms(),
                        ),
                ),
            final(self).spec_stale_timeout_ms() == old(self).spec_stale_timeout_ms(),
    {
        let now_ms = crate::clock::unix_now_millis();
        let r = self.cleanup_stale_flows_at(now_ms);
        proof {
            assert(crate::routing::spec_now_witness(now_ms) == now_ms);
            assert(final(self)@ == old(self)@.filter(
                |m: InterIpcpFlowModel|
                    !spec_flow_stale(
                        m,
                        crate::routing::spec_now_witness(now_ms),
                        old(self).spec_stale_timeout_ms(),
                    ),
            ));
        }
        r
    }

    /// How many flows are currently active.
    #[verifier::loop_isolation(false)]
    pub fn active_flow_count(&self) -> (r: usize)
        ensures
            r as nat == self@.filter(
                |m: InterIpcpFlowModel| m.state == InterIpcpFlowState::Active,
            ).len(),
    {
        let ghost p = |m: InterIpcpFlowModel| m.state == InterIpcpFlowState::Active;
        let mut count: usize = 0;
        let mut i: usize = 0;
        proof {
            reveal_with_fuel(Seq::filter, 2);
            assert(self@.take(0).filter(p) =~= Seq::<InterIpcpFlowModel>::empty());
        }
        while i < self.flows.len()
            invariant
                i <= self.flows@.len(),
                count as nat == self@.take(i as int).filter(p).len(),
                count <= i,
            decreases self.flows@.len() - i,
        {
            let ghost taken = self@.take(i as int);
            let ghost cur = self@[i as int];
            let is_active = match self.flows[i].state {
                InterIpcpFlowState::Active => true,
                _ => false,
            };
            if is_active {
                count = count + 1;
            }
            proof {
                reveal_with_fuel(Seq::filter, 2);
                assert(self@.take(i as int + 1).drop_last() =~= taken);
                assert(self@.take(i as int + 1).last() == cur);
                if p(cur) {
                    assert(self@.take(i as int + 1).filter(p) =~= taken.filter(p).push(cur));
                } else {
                    assert(self@.take(i as int + 1).filter(p) =~= taken.filter(p));
                }
            }
            i = i + 1;
        }
        proof {
            assert(self@.take(self@.len() as int) =~= self@);
            self@.lemma_filter_len(p);
        }
        count
    }

    /// Drops the flow to this neighbor; true when one existed.
    pub fn close_flow(&mut self, remote_addr: u64) -> (r: bool)
        ensures
            r ==> final(self)@.len() + 1 == old(self)@.len(),
            !r ==> final(self)@ == old(self)@,
    {
        match self.find_flow(remote_addr) {
            Some(i) => {
                let ghost pre = nflows_model(self.flows@);
                self.flows.remove(i);
                proof {
                    assert(nflows_model(self.flows@) =~= pre.remove(i as int));
                }
                true
            },
            None => false,
        }
    }

    /// Per-neighbor statistics: address, state, sent and received counts.
    #[verifier::loop_isolation(false)]
    pub fn get_flow_stats(&self) -> (r: Vec<(u64, InterIpcpFlowState, u64, u64)>)
        ensures
            r@.len() == self@.len(),
            forall|i: int|
                0 <= i < r@.len() ==> (#[trigger] r@[i]) == (
                    self@[i].remote_addr,
                    self@[i].state,
                    self@[i].sent_pdus,
                    self@[i].received_pdus,
                ),
    {
        let mut out: Vec<(u64, InterIpcpFlowState, u64, u64)> = Vec::new();
        let mut i: usize = 0;
        while i < self.flows.len()
            invariant
                i <= self.flows@.len(),
                out@.len() == i,
                forall|k: int|
                    0 <= k < i ==> (#[trigger] out@[k]) == (
                        self@[k].remote_addr,
                        self@[k].state,
                        self@[k].sent_pdus,
                        self@[k].received_pdus,
                    ),
            decreases self.flows@.len() - i,
        {
            let f = &self.flows[i];
            out.push((f.remote_addr, f.state, f.sent_pdus, f.received_pdus));
            i = i + 1;
        }
        out
    }
}

impl Default for InterIpcpFlowAllocator {
    /// An empty table.
    fn default() -> (r: Self)
        ensures
            r@ == Seq::<InterIpcpFlowModel>::empty(),
    {
        Self::new()
    }
}

} // verus!
