//! Error and Flow Control Protocol (EFCP): per-flow sequenced, windowed,
//! optionally reliable delivery.
//!
//! Each flow assigns consecutive sequence numbers to outgoing data, holds
//! unacknowledged PDUs in a bounded send window, delivers in-order data,
//! buffers out-of-order data and drops duplicates; a cumulative
//! acknowledgment clears the window up to its sequence number.

use vstd::prelude::*;
use crate::error::EfcpError;
use crate::pdu::{Pdu, PduModel, PduType, QoSParameters};

verus! {

broadcast use vstd::seq_lib::group_seq_lib_default, vstd::seq::group_seq_axioms, vstd::std_specs::vec::group_vec_axioms;

/// Configuration of one flow.
#[derive(Debug, Clone, Copy, PartialEq, Eq, Structural)]
pub struct FlowConfig {
    /// Largest accepted payload, in bytes.
    pub max_pdu_size: usize,
    /// Most PDUs allowed in flight (send window capacity).
    pub window_size: u64,
    /// Whether delivery is reliable (ACKs and retransmission).
    pub reliable: bool,
    /// Age in milliseconds after which an unacknowledged PDU is retransmitted.
    pub retransmit_timeout_ms: u64,
}

impl Default for FlowConfig {
    /// 1500-byte PDUs, a window of 64, reliable, one-second retransmit.
    fn default() -> (r: Self)
        ensures
            r == (FlowConfig {
                max_pdu_size: 1500usize,
                window_size: 64u64,
                reliable: true,
                retransmit_timeout_ms: 1000u64,
            }),
    {
        FlowConfig { max_pdu_size: 1500, window_size: 64, reliable: true, retransmit_timeout_ms: 1000 }
    }
}

/// One unacknowledged PDU in the send window.
#[derive(Debug)]
pub struct SendWindowEntry {
    /// The PDU's sequence number.
    pub seq: u64,
    /// The PDU itself, kept for retransmission.
    pub pdu: Pdu,
    /// When it was sent, in Unix milliseconds.
    pub sent_at_ms: u64,
}

/// Model of a send-window entry.
pub struct SendWindowEntryModel {
    pub seq: u64,
    pub pdu: PduModel,
    pub sent_at_ms: u64,
}

impl View for SendWindowEntry {
    type V = SendWindowEntryModel;

    open spec fn view(&self) -> SendWindowEntryModel {
        SendWindowEntryModel { seq: self.seq, pdu: self.pdu@, sent_at_ms: self.sent_at_ms }
    }
}

/// Model of a send window.
pub open spec fn window_model(s: Seq<SendWindowEntry>) -> Seq<SendWindowEntryModel> {
    Seq::new(s.len(), |i: int| s[i]@)
}

/// Model of a receive buffer.
pub open spec fn pdus_model(s: Seq<Pdu>) -> Seq<PduModel> {
    Seq::new(s.len(), |i: int| s[i]@)
}

/// Model of a whole flow.
pub struct FlowModel {
    pub flow_id: u32,
    pub local_cep_id: u32,
    pub remote_cep_id: u32,
    pub local_addr: u64,
    pub remote_addr: u64,
    pub config: FlowConfig,
    pub next_seq_num: u64,
    pub expected_seq_num: u64,
    pub send_window: Seq<SendWindowEntryModel>,
    pub receive_buffer: Seq<PduModel>,
}

/// The entries still unacknowledged after a cumulative ACK of `ack`.
pub open spec fn spec_ack_window(w: Seq<SendWindowEntryModel>, ack: u64) -> Seq<
    SendWindowEntryModel,
> {
    w.filter(|e: SendWindowEntryModel| e.seq > ack)
}

/// The entries older than the retransmit timeout at time `now_ms`.
pub open spec fn spec_retransmits(
    w: Seq<SendWindowEntryModel>,
    now_ms: u64,
    timeout_ms: u64,
) -> Seq<PduModel> {
    w.filter(
        |e: SendWindowEntryModel|
            (if now_ms >= e.sent_at_ms {
                now_ms - e.sent_at_ms
            } else {
                0
            }) > timeout_ms,
    ).map_values(|e: SendWindowEntryModel| e.pdu)
}

/// One flow endpoint.
#[derive(Debug)]
pub struct Flow {
    /// Flow identifier (port id).
    pub flow_id: u32,
    /// Local connection endpoint id.
    pub local_cep_id: u32,
    /// Remote connection endpoint id.
    pub remote_cep_id: u32,
    /// Local RINA address.
    pub local_addr: u64,
    /// Remote RINA address.
    pub remote_addr: u64,
    /// Flow configuration.
    pub config: FlowConfig,
    /// Next sequence number to assign to outgoing data.
    pub next_seq_num: u64,
    /// Next sequence number expected from the peer.
    pub expected_seq_num: u64,
    send_window: Vec<SendWindowEntry>,
    /// Out-of-order PDUs waiting for the gap to fill.
    pub receive_buffer: Vec<Pdu>,
}

impl View for Flow {
    type V = FlowModel;

    closed spec fn view(&self) -> FlowModel {
        FlowModel {
            flow_id: self.flow_id,
            local_cep_id: self.local_cep_id,
            remote_cep_id: self.remote_cep_id,
            local_addr: self.local_addr,
            remote_addr: self.remote_addr,
            config: self.config,
            next_seq_num: self.next_seq_num,
            expected_seq_num: self.expected_seq_num,
            send_window: window_model(self.send_window@),
            receive_buffer: pdus_model(self.receive_buffer@),
        }
    }
}

impl Flow {
    /// A fresh flow: sequence numbers start at 0, both buffers empty.
    pub fn new(
        flow_id: u32,
        local_cep_id: u32,
        remote_cep_id: u32,
        local_addr: u64,
        remote_addr: u64,
        config: FlowConfig,
    ) -> (r: Self)
        ensures
            r@ == (FlowModel {
                flow_id,
                local_cep_id,
                remote_cep_id,
                local_addr,
                remote_addr,
                config,
                next_seq_num: 0u64,
                expected_seq_num: 0u64,
                send_window: Seq::<SendWindowEntryModel>::empty(),
                receive_buffer: Seq::<PduModel>::empty(),
            }),
    {
        let r = Flow {
            flow_id,
            local_cep_id,
            remote_cep_id,
            local_addr,
            remote_addr,
            config,
            next_seq_num: 0,
            expected_seq_num: 0,
            send_window: Vec::new(),
            receive_buffer: Vec::new(),
        };
        proof {
            assert(window_model(r.send_window@) =~= Seq::<SendWindowEntryModel>::empty());
            assert(pdus_model(r.receive_buffer@) =~= Seq::<PduModel>::empty());
        }
        r
    }

    /// Emits the next data PDU for `payload`, stamped with `now_ms`.
    ///
    /// Consecutive successful sends emit the sequence numbers 0, 1, 2, ...
    /// in order: each PDU carries exactly the flow's `next_seq_num`, which
    /// then advances by one, and the payload is carried unchanged.  The
    /// payload must fit `max_pdu_size` and the send window must have room;
    /// on a reliable flow the PDU joins the send window.
    pub fn send_data_at(&mut self, payload: Vec<u8>, now_ms: u64) -> (r: Result<Pdu, EfcpError>)
        requires
            old(self)@.next_seq_num < u64::MAX,
        ensures
            match r {
                Ok(pdu) => {
                    &&& old(self)@.send_window.len() < old(self)@.config.window_size
                    &&& payload@.len() <= old(self)@.config.max_pdu_size
                    &&& pdu@.sequence_num == old(self)@.next_seq_num
                    &&& pdu@.pdu_type == PduType::Data
                    &&& pdu@.payload == payload@
                    &&& pdu@.src_addr == old(self)@.local_addr
                    &&& pdu@.dst_addr == old(self)@.remote_addr
                    &&& pdu@.src_cep_id == old(self)@.local_cep_id
                    &&& pdu@.dst_cep_id == old(self)@.remote_cep_id
                    &&& final(self)@.next_seq_num == old(self)@.next_seq_num + 1
                    &&& final(self)@.send_window == (if old(self)@.config.reliable {
                        old(self)@.send_window.push(
                            SendWindowEntryModel {
                                seq: old(self)@.next_seq_num,
                                pdu: pdu@,
                                sent_at_ms: now_ms,
                            },
                        )
                    } else {
                        old(self)@.send_window
                    })
                    &&& final(self)@ == (FlowModel {
                        next_seq_num: final(self)@.next_seq_num,
                        send_window: final(self)@.send_window,
                        ..old(self)@
                    })
                },
                Err(e) => {
                    &&& final(self)@ == old(self)@
                    &&& (e matches EfcpError::InvalidConfig(_) ==> payload@.len() > old(
                        self,
                    )@.config.max_pdu_size)
                    &&& (e matches EfcpError::SendFailed(_) ==> payload@.len() <= old(
                        self,
                    )@.config.max_pdu_size && old(self)@.send_window.len() >= old(
                        self,
                    )@.config.window_size)
                    &&& (e is InvalidConfig || e is SendFailed)
                },
            },
    {
        if payload.len() > self.config.max_pdu_size {
            let mut msg = String::new();
            msg.append("payload exceeds max PDU size");
            return Err(EfcpError::InvalidConfig(msg));
        }
        if self.send_window.len() as u64 >= self.config.window_size {
            let mut msg = String::new();
            msg.append("send window is full");
            return Err(EfcpError::SendFailed(msg));
        }
        let pdu = Pdu::new_data(
            self.local_addr,
            self.remote_addr,
            self.local_cep_id,
            self.remote_cep_id,
            self.next_seq_num,
            payload,
        );
        if self.config.reliable {
            let copy = pdu.clone();
            let ghost pre = window_model(self.send_window@);
            self.send_window.push(
                SendWindowEntry { seq: self.next_seq_num, pdu: copy, sent_at_ms: now_ms },
            );
            proof {
                assert(window_model(self.send_window@) =~= pre.push(
                    SendWindowEntryModel {
                        seq: self.next_seq_num,
                        pdu: pdu@,
                        sent_at_ms: now_ms,
                    },
                ));
            }
        }
        self.next_seq_num = self.next_seq_num + 1;
        Ok(pdu)
    }

    /// Emits the next data PDU, stamped with the current system time.
    pub fn send_data(&mut self, payload: Vec<u8>) -> (r: Result<Pdu, EfcpError>)
        requires
            old(self)@.next_seq_num < u64::MAX,
        ensures
            match r {
                Ok(pdu) => {
                    let pre = old(self)@;
                    let post = final(self)@;
                    &&& pre.send_window.len() < pre.config.window_size
                    &&& payload@.len() <= pre.config.max_pdu_size
                    &&& pdu@.sequence_num == pre.next_seq_num
                    &&& pdu@.pdu_type == PduType::Data
                    &&& pdu@.payload == payload@
                    &&& post.next_seq_num == pre.next_seq_num + 1
                    &&& post.send_window.len() == pre.send_window.len() + (if pre.config.reliable {
                        1int
                    } else {
                        0int
                    })
                    &&& (pre.config.reliable ==> post.send_window.last().seq == pre.next_seq_num
                        && post.send_window.last().pdu == pdu@ && post.send_window.take(
                        pre.send_window.len() as int,
                    ) == pre.send_window)
                    &&& post == (FlowModel {
                        next_seq_num: post.next_seq_num,
                        send_window: post.send_window,
                        ..pre
                    })
                },
                Err(e) => {
                    &&& final(self)@ == old(self)@
                    &&& (e matches EfcpError::InvalidConfig(_) ==> payload@.len() > old(
                        self,
                    )@.config.max_pdu_size)
                    &&& (e matches EfcpError::SendFailed(_) ==> payload@.len() <= old(
                        self,
                    )@.config.max_pdu_size && old(self)@.send_window.len() >= old(
                        self,
                    )@.config.window_size)
                    &&& (e is InvalidConfig || e is SendFailed)
                },
            },
    {
        let now_ms = crate::clock::unix_now_millis();
        let r = self.send_data_at(payload, now_ms);
        proof {
            if r is Ok && old(self)@.config.reliable {
                assert(final(self)@.send_window.take(old(self)@.send_window.len() as int)
                    =~= old(self)@.send_window);
            }
        }
        r
    }

    /// Handles one received PDU.
    ///
    /// In-order data advances `expected_seq_num` and is delivered; data
    /// from the future is buffered; stale data is dropped.  A cumulative
    /// acknowledgment of `k` leaves no send-window entry with a sequence
    /// number at or below `k`.  Control and management PDUs are not
    /// handled here.
    pub fn receive_pdu(&mut self, pdu: Pdu) -> (r: Result<Option<Vec<u8>>, EfcpError>)
        requires
            old(self)@.expected_seq_num < u64::MAX,
        ensures
            r is Ok,
            match pdu@.pdu_type {
                PduType::Data => {
                    if pdu@.sequence_num == old(self)@.expected_seq_num {
                        &&& r matches Ok(Some(data)) && data@ == pdu@.payload
                        &&& final(self)@ == (FlowModel {
                            expected_seq_num: (old(self)@.expected_seq_num + 1) as u64,
                            ..old(self)@
                        })
                    } else if pdu@.sequence_num > old(self)@.expected_seq_num {
                        &&& r matches Ok(None)
                        &&& final(self)@ == (FlowModel {
                            receive_buffer: old(self)@.receive_buffer.push(pdu@),
                            ..old(self)@
                        })
                    } else {
                        r matches Ok(None) && final(self)@ == old(self)@
                    }
                },
                PduType::Ack => {
                    let post = final(self)@;
                    &&& r matches Ok(None)
                    &&& post == (FlowModel {
                        send_window: spec_ack_window(old(self)@.send_window, pdu@.sequence_num),
                        ..old(self)@
                    })
                    &&& forall|i: int|
                        0 <= i < post.send_window.len() ==> (#[trigger] post.send_window[i]).seq
                            > pdu@.sequence_num
                },
                PduType::Control => r matches Ok(None) && final(self)@ == old(self)@,
                PduType::Management => r matches Ok(None) && final(self)@ == old(self)@,
            },
    {
        match pdu.pdu_type {
            PduType::Data => {
                if pdu.sequence_num == self.expected_seq_num {
                    self.expected_seq_num = self.expected_seq_num + 1;
                    Ok(Some(pdu.payload))
                } else if pdu.sequence_num > self.expected_seq_num {
                    let ghost pre = pdus_model(self.receive_buffer@);
                    let ghost gp = pdu@;
                    self.receive_buffer.push(pdu);
                    proof {
                        assert(pdus_model(self.receive_buffer@) =~= pre.push(gp));
                    }
                    Ok(None)
                } else {
                    Ok(None)
                }
            },
            PduType::Ack => {
                self.handle_ack(pdu.sequence_num);
                Ok(None)
            },
            PduType::Control => Ok(None),
            PduType::Management => Ok(None),
        }
    }

    /// Drops every send-window entry acknowledged by the cumulative `ack`.
    #[verifier::loop_isolation(false)]
    fn handle_ack(&mut self, ack: u64)
        ensures
            final(self)@ == (FlowModel {
                send_window: spec_ack_window(old(self)@.send_window, ack),
                ..old(self)@
            }),
            forall|i: int|
                0 <= i < final(self)@.send_window.len() ==> (#[trigger] final(self)@.send_window[i]).seq
                    > ack,
    {
        let mut kept: Vec<SendWindowEntry> = Vec::new();
        let n = self.send_window.len();
        let ghost w = window_model(self.send_window@);
        proof {
            assert(window_model(kept@) =~= w.take(0).filter(
                |e: SendWindowEntryModel| e.seq > ack,
            ));
        }
        let mut i: usize = 0;
        while i < n
            invariant
                i <= n,
                n == self.send_window@.len(),
                window_model(kept@) == w.take(i as int).filter(
                    |e: SendWindowEntryModel| e.seq > ack,
                ),
            decreases n - i,
        {
            let ghost pre = window_model(kept@);
            let ghost taken = w.take(i as int);
            let ghost cur = w[i as int];
            let e = &self.send_window[i];
            if e.seq > ack {
                kept.push(
                    SendWindowEntry { seq: e.seq, pdu: e.pdu.clone(), sent_at_ms: e.sent_at_ms },
                );
                proof {
                    assert(window_model(kept@) =~= pre.push(cur));
                }
            }
            proof {
                let p = |x: SendWindowEntryModel| x.seq > ack;
                reveal_with_fuel(Seq::filter, 2);
                assert(w.take(i as int + 1).drop_last() =~= taken);
                assert(w.take(i as int + 1).last() == cur);
                if p(cur) {
                    assert(w.take(i as int + 1).filter(p) =~= taken.filter(p).push(cur));
                } else {
                    assert(w.take(i as int + 1).filter(p) =~= taken.filter(p));
                }
            }
            i = i + 1;
        }
        self.send_window = kept;
        proof {
            assert(w.take(w.len() as int) =~= w);
            let p = |x: SendWindowEntryModel| x.seq > ack;
            assert(window_model(self.send_window@) == w.filter(p));
            let post_w = window_model(self.send_window@);
            assert forall|k: int| 0 <= k < post_w.len() implies (#[trigger] post_w[k]).seq
                > ack by {
                w.lemma_filter_pred(p, k);
            }
        }
    }

    /// The PDUs whose acknowledgment is overdue at `now_ms` and must be
    /// retransmitted; none on an unreliable flow.
    #[verifier::loop_isolation(false)]
    pub fn check_retransmits_at(&self, now_ms: u64) -> (r: Vec<Pdu>)
        ensures
            self@.config.reliable ==> pdus_model(r@) == spec_retransmits(
                self@.send_window,
                now_ms,
                self@.config.retransmit_timeout_ms,
            ),
            !self@.config.reliable ==> r@.len() == 0,
    {
        let mut out: Vec<Pdu> = Vec::new();
        if !self.config.reliable {
            return out;
        }
        let timeout = self.config.retransmit_timeout_ms;
        let ghost w = self@.send_window;
        let ghost p = |e: SendWindowEntryModel|
            (if now_ms >= e.sent_at_ms {
                now_ms - e.sent_at_ms
            } else {
                0
            }) > timeout;
        let mut i: usize = 0;
        while i < self.send_window.len()
            invariant
                i <= self.send_window@.len(),
                pdus_model(out@) == w.take(i as int).filter(p).map_values(
                    |e: SendWindowEntryModel| e.pdu,
                ),
            decreases self.send_window@.len() - i,
        {
            let ghost pre = pdus_model(out@);
            let ghost taken = w.take(i as int);
            let ghost cur = w[i as int];
            let e = &self.send_window[i];
            let age = if now_ms >= e.sent_at_ms {
                now_ms - e.sent_at_ms
            } else {
                0
            };
            if age > timeout {
                out.push(e.pdu.clone());
                proof {
                    assert(pdus_model(out@) =~= pre.push(cur.pdu));
                }
            }
            proof {
                reveal_with_fuel(Seq::filter, 2);
                assert(w.take(i as int + 1).drop_last() =~= taken);
                assert(w.take(i as int + 1).last() == cur);
                if p(cur) {
                    assert(w.take(i as int + 1).filter(p) =~= taken.filter(p).push(cur));
                    assert(taken.filter(p).push(cur).map_values(|x: SendWindowEntryModel| x.pdu)
                        =~= taken.filter(p).map_values(|x: SendWindowEntryModel| x.pdu).push(
                        cur.pdu,
                    ));
                } else {
                    assert(w.take(i as int + 1).filter(p) =~= taken.filter(p));
                }
            }
            i = i + 1;
        }
        proof {
            assert(w.take(w.len() as int) =~= w);
        }
        out
    }

    /// The overdue PDUs as of the current system time: every returned PDU
    /// sits in the send window, and an unreliable flow returns none.
    pub fn check_retransmits(&self) -> (r: Vec<Pdu>)
        ensures
            self@.config.reliable ==> exists|now_ms: u64|
                pdus_model(r@) == #[trigger] spec_retransmits(
                    self@.send_window,
                    now_ms,
                    self@.config.retransmit_timeout_ms,
                ),
            !self@.config.reliable ==> r@.len() == 0,
    {
        let now_ms = crate::clock::unix_now_millis();
        let r = self.check_retransmits_at(now_ms);
        proof {
            if self@.config.reliable {
                assert(pdus_model(r@) == spec_retransmits(
                    self@.send_window,
                    now_ms,
                    self@.config.retransmit_timeout_ms,
                ));
            }
        }
        r
    }

    /// How many PDUs sit unacknowledged in the send window.
    pub fn send_window_size(&self) -> (r: usize)
        ensures
            r == self@.send_window.len(),
    {
        self.send_window.len()
    }
}

// ---------------------------------------------------------------------------
// The EFCP instance: a table of flows
// ---------------------------------------------------------------------------
/// Model of the flow table.
pub open spec fn flows_model(s: Seq<Flow>) -> Seq<FlowModel> {
    Seq::new(s.len(), |i: int| s[i]@)
}

/// Index of the flow with the given id, or -1.
pub open spec fn spec_flow_index(flows: Seq<FlowModel>, flow_id: u32) -> int
    decreases flows.len(),
{
    if flows.len() == 0 {
        -1
    } else if flows[0].flow_id == flow_id {
        0
    } else {
        let r = spec_flow_index(flows.drop_first(), flow_id);
        if r == -1 {
            -1
        } else {
            r + 1
        }
    }
}

proof fn lemma_flow_index(flows: Seq<FlowModel>, flow_id: u32)
    ensures
        spec_flow_index(flows, flow_id) == -1 <==> (forall|k: int|
            0 <= k < flows.len() ==> (#[trigger] flows[k]).flow_id != flow_id),
        spec_flow_index(flows, flow_id) != -1 ==> 0 <= spec_flow_index(flows, flow_id)
            < flows.len() && flows[spec_flow_index(flows, flow_id)].flow_id == flow_id && (forall|
            k: int,
        |
            0 <= k < spec_flow_index(flows, flow_id) ==> (#[trigger] flows[k]).flow_id != flow_id),
    decreases flows.len(),
{
    if flows.len() > 0 {
        let tail = flows.drop_first();
        lemma_flow_index(tail, flow_id);
        assert(forall|k: int| 0 <= k < tail.len() ==> #[trigger] tail[k] == flows[k + 1]);
        if flows[0].flow_id != flow_id {
            let r = spec_flow_index(tail, flow_id);
            if r == -1 {
                assert forall|k: int| 0 <= k < flows.len() implies (#[trigger] flows[k]).flow_id
                    != flow_id by {
                    if k > 0 {
                        assert(tail[k - 1] == flows[k]);
                    }
                }
            } else {
                assert(flows[r + 1] == tail[r]);
                assert forall|k: int| 0 <= k < r + 1 implies (#[trigger] flows[k]).flow_id
                    != flow_id by {
                    if k > 0 {
                        assert(tail[k - 1] == flows[k]);
                    }
                }
            }
        }
    }
}

/// The EFCP instance: allocates flow identifiers and owns the flows.
#[derive(Debug)]
pub struct Efcp {
    flows: Vec<Flow>,
    next_flow_id: u32,
}

/// Model of the EFCP instance.
pub struct EfcpModel {
    pub flows: Seq<FlowModel>,
    pub next_flow_id: u32,
}

impl View for Efcp {
    type V = EfcpModel;

    closed spec fn view(&self) -> EfcpModel {
        EfcpModel { flows: flows_model(self.flows@), next_flow_id: self.next_flow_id }
    }
}

impl Efcp {
    /// Flow identifiers are unique and below the allocation counter.
    pub open spec fn wf(&self) -> bool {
        &&& forall|i: int|
            0 <= i < self@.flows.len() ==> (#[trigger] self@.flows[i]).flow_id < self@.next_flow_id
        &&& forall|i: int, j: int|
            0 <= i < j < self@.flows.len() ==> (#[trigger] self@.flows[i]).flow_id != (
            #[trigger] self@.flows[j]).flow_id
    }

    /// An instance with no flows; identifiers start at 1.
    pub fn new() -> (r: Self)
        ensures
            r.wf(),
            r@.flows == Seq::<FlowModel>::empty(),
            r@.next_flow_id == 1,
    {
        let r = Efcp { flows: Vec::new(), next_flow_id: 1 };
        proof {
            assert(flows_model(r.flows@) =~= Seq::<FlowModel>::empty());
        }
        r
    }

    /// Allocates a fresh flow between the two addresses.  The returned
    /// identifier was never returned before by this instance; the new flow
    /// uses it as the local CEP id, with sequence numbers starting at 0.
    pub fn allocate_flow(&mut self, local_addr: u64, remote_addr: u64, config: FlowConfig) -> (r:
        u32)
        requires
            old(self).wf(),
            old(self)@.next_flow_id < u32::MAX,
        ensures
            final(self).wf(),
            r == old(self)@.next_flow_id,
            final(self)@.next_flow_id == old(self)@.next_flow_id + 1,
            final(self)@.flows == old(self)@.flows.push(
                FlowModel {
                    flow_id: r,
                    local_cep_id: r,
                    remote_cep_id: 0u32,
                    local_addr,
                    remote_addr,
                    config,
                    next_seq_num: 0u64,
                    expected_seq_num: 0u64,
                    send_window: Seq::<SendWindowEntryModel>::empty(),
                    receive_buffer: Seq::<PduModel>::empty(),
                },
            ),
    {
        let flow_id = self.next_flow_id;
        self.next_flow_id = self.next_flow_id + 1;
        let flow = Flow::new(flow_id, flow_id, 0, local_addr, remote_addr, config);
        let ghost pre = flows_model(self.flows@);
        let ghost fm = flow@;
        self.flows.push(flow);
        proof {
            assert(flows_model(self.flows@) =~= pre.push(fm));
            assert(pre == old(self)@.flows);
            let post = flows_model(self.flows@);
            assert forall|a: int, b: int|
                0 <= a < b < post.len() implies (#[trigger] post[a]).flow_id != (
            #[trigger] post[b]).flow_id by {
                if b < pre.len() {
                    assert(post[a] == old(self)@.flows[a] && post[b] == old(self)@.flows[b]);
                } else {
                    assert(post[b] == fm);
                    assert(post[a] == old(self)@.flows[a]);
                    assert(old(self)@.flows[a].flow_id < old(self)@.next_flow_id);
                }
            }
        }
        flow_id
    }

    /// The flow with this identifier, if any.
    #[verifier::loop_isolation(false)]
    pub fn get_flow(&self, flow_id: u32) -> (r: Option<&Flow>)
        ensures
            match r {
                Some(f) => spec_flow_index(self@.flows, flow_id) != -1 && f@ == self@.flows[
                    spec_flow_index(self@.flows, flow_id)
                ],
                None => spec_flow_index(self@.flows, flow_id) == -1,
            },
    {
        let mut i: usize = 0;
        while i < self.flows.len()
            invariant
                i <= self.flows@.len(),
                forall|k: int| 0 <= k < i ==> (#[trigger] self@.flows[k]).flow_id != flow_id,
            decreases self.flows@.len() - i,
        {
            if self.flows[i].flow_id == flow_id {
                proof {
                    lemma_flow_index(self@.flows, flow_id);
                    assert(self@.flows[i as int].flow_id == flow_id);
                    let idx = spec_flow_index(self@.flows, flow_id);
                    assert(idx != -1);
                    assert(idx == i as int);
                }
                return Some(&self.flows[i]);
            }
            i = i + 1;
        }
        proof {
            lemma_flow_index(self@.flows, flow_id);
        }
        None
    }

    /// Sends `payload` on the flow with this identifier, stamping the send
    /// window with `now_ms`.
    ///
    /// It fails exactly when the flow is unknown (`FlowNotFound`), the
    /// payload is oversized for the flow (`InvalidConfig`) or the flow's
    /// send window is full (`SendFailed`); otherwise the emitted PDU and
    /// the flow's advance are exactly those of the flow's own send.
    #[verifier::loop_isolation(false)]
    pub fn send_data_at(&mut self, flow_id: u32, payload: Vec<u8>, now_ms: u64) -> (r: Result<
        Pdu,
        EfcpError,
    >)
        requires
            old(self).wf(),
            spec_flow_index(old(self)@.flows, flow_id) != -1 ==> old(self)@.flows[spec_flow_index(
                old(self)@.flows,
                flow_id,
            )].next_seq_num < u64::MAX,
        ensures
            final(self).wf(),
            final(self)@.next_flow_id == old(self)@.next_flow_id,
            ({
                let idx = spec_flow_index(old(self)@.flows, flow_id);
                let pre = old(self)@.flows[idx];
                r is Ok <==> idx != -1 && payload@.len() <= pre.config.max_pdu_size
                    && pre.send_window.len() < pre.config.window_size
            }),
            match r {
                Ok(pdu) => {
                    let idx = spec_flow_index(old(self)@.flows, flow_id);
                    let pre = old(self)@.flows[idx];
                    let post = final(self)@.flows[idx];
                    &&& idx != -1
                    &&& final(self)@.flows.len() == old(self)@.flows.len()
                    &&& pdu@.sequence_num == pre.next_seq_num
                    &&& pdu@.pdu_type == PduType::Data
                    &&& pdu@.payload == payload@
                    &&& pdu@.src_addr == pre.local_addr
                    &&& pdu@.dst_addr == pre.remote_addr
                    &&& post.next_seq_num == pre.next_seq_num + 1
                    &&& post.send_window == (if pre.config.reliable {
                        pre.send_window.push(
                            SendWindowEntryModel {
                                seq: pre.next_seq_num,
                                pdu: pdu@,
                                sent_at_ms: now_ms,
                            },
                        )
                    } else {
                        pre.send_window
                    })
                    &&& final(self)@.flows == old(self)@.flows.update(
                        idx,
                        FlowModel {
                            next_seq_num: post.next_seq_num,
                            send_window: post.send_window,
                            ..pre
                        },
                    )
                },
                Err(e) => {
                    let idx = spec_flow_index(old(self)@.flows, flow_id);
                    let pre = old(self)@.flows[idx];
                    &&& final(self)@ == old(self)@
                    &&& (e is FlowNotFound <==> idx == -1)
                    &&& (e matches EfcpError::FlowNotFound(id) ==> id == flow_id as u64)
                    &&& (e is InvalidConfig <==> idx != -1 && payload@.len()
                        > pre.config.max_pdu_size)
                    &&& (e is SendFailed <==> idx != -1 && payload@.len()
                        <= pre.config.max_pdu_size && pre.send_window.len()
                        >= pre.config.window_size)
                    &&& (e is FlowNotFound || e is InvalidConfig || e is SendFailed)
                },
            },
    {
        let n = self.flows.len();
        let mut i: usize = 0;
        while i < n
            invariant
                i <= n,
                self@ == old(self)@,
                n == self.flows@.len(),
                forall|k: int| 0 <= k < i ==> (#[trigger] self@.flows[k]).flow_id != flow_id,
            decreases n - i,
        {
            if self.flows[i].flow_id == flow_id {
                proof {
                    lemma_flow_index(self@.flows, flow_id);
                    assert(old(self)@.flows[i as int].next_seq_num < u64::MAX);
                }
                let ghost pre_flows = flows_model(self.flows@);
                let mut flow = self.flows.remove(i);
                proof {
                    assert(flow@ == pre_flows[i as int]);
                }
                let r = flow.send_data_at(payload, now_ms);
                let ghost fm = flow@;
                self.flows.insert(i, flow);
                proof {
                    assert(flows_model(self.flows@) =~= pre_flows.update(i as int, fm));
                    assert(fm.flow_id == pre_flows[i as int].flow_id);
                    let post = flows_model(self.flows@);
                    assert forall|a: int, b: int|
                        0 <= a < b < post.len() implies (#[trigger] post[a]).flow_id != (
                    #[trigger] post[b]).flow_id by {
                        if a == i as int {
                            assert(post[a] == fm);
                        } else {
                            assert(post[a] == pre_flows[a]);
                        }
                        if b == i as int {
                            assert(post[b] == fm);
                        } else {
                            assert(post[b] == pre_flows[b]);
                        }
                        assert(post[a].flow_id == old(self)@.flows[a].flow_id);
                        assert(post[b].flow_id == old(self)@.flows[b].flow_id);
                        assert(old(self)@.flows[a].flow_id != old(self)@.flows[b].flow_id);
                    }
                    if r is Err {
                        assert(flows_model(self.flows@) =~= pre_flows);
                    }
                }
                return r;
            }
            i = i + 1;
        }
        proof {
            lemma_flow_index(self@.flows, flow_id);
        }
        Err(EfcpError::FlowNotFound(flow_id as u64))
    }

    /// Hands one received PDU to the flow with this identifier, which
    /// handles it exactly as its own receive does: in-order data is
    /// delivered and advances the flow, future data is buffered, stale
    /// data is dropped, an acknowledgment trims the send window, control
    /// and management PDUs are ignored.  It fails exactly when the flow is
    /// unknown.
    #[verifier::loop_isolation(false)]
    pub fn receive_pdu(&mut self, flow_id: u32, pdu: Pdu) -> (r: Result<Option<Vec<u8>>, EfcpError>)
        requires
            old(self).wf(),
            spec_flow_index(old(self)@.flows, flow_id) != -1 ==> old(self)@.flows[spec_flow_index(
                old(self)@.flows,
                flow_id,
            )].expected_seq_num < u64::MAX,
        ensures
            final(self).wf(),
            final(self)@.next_flow_id == old(self)@.next_flow_id,
            r is Err <==> spec_flow_index(old(self)@.flows, flow_id) == -1,
            match r {
                Ok(out) => {
                    let idx = spec_flow_index(old(self)@.flows, flow_id);
                    let pre = old(self)@.flows[idx];
                    &&& idx != -1
                    &&& final(self)@.flows.len() == old(self)@.flows.len()
                    &&& match pdu@.pdu_type {
                        PduType::Data => {
                            if pdu@.sequence_num == pre.expected_seq_num {
                                &&& out matches Some(data) && data@ == pdu@.payload
                                &&& final(self)@.flows == old(self)@.flows.update(
                                    idx,
                                    FlowModel {
                                        expected_seq_num: (pre.expected_seq_num + 1) as u64,
                                        ..pre
                                    },
                                )
                            } else if pdu@.sequence_num > pre.expected_seq_num {
                                &&& out is None
                                &&& final(self)@.flows == old(self)@.flows.update(
                                    idx,
                                    FlowModel {
                                        receive_buffer: pre.receive_buffer.push(pdu@),
                                        ..pre
                                    },
                                )
                            } else {
                                out is None && final(self)@ == old(self)@
                            }
                        },
                        PduType::Ack => {
                            let post = final(self)@.flows[idx];
                            &&& out is None
                            &&& final(self)@.flows == old(self)@.flows.update(
                                idx,
                                FlowModel {
                                    send_window: spec_ack_window(
                                        pre.send_window,
                                        pdu@.sequence_num,
                                    ),
                                    ..pre
                                },
                            )
                            &&& forall|k: int|
                                0 <= k < post.send_window.len() ==> (
                                #[trigger] post.send_window[k]).seq > pdu@.sequence_num
                        },
                        PduType::Control => out is None && final(self)@ == old(self)@,
                        PduType::Management => out is None && final(self)@ == old(self)@,
                    }
                },
                Err(e) => {
                    &&& e matches EfcpError::FlowNotFound(id) && id == flow_id as u64
                    &&& final(self)@ == old(self)@
                },
            },
    {
        let n = self.flows.len();
        let mut i: usize = 0;
        while i < n
            invariant
                i <= n,
                self@ == old(self)@,
                n == self.flows@.len(),
                forall|k: int| 0 <= k < i ==> (#[trigger] self@.flows[k]).flow_id != flow_id,
            decreases n - i,
        {
            if self.flows[i].flow_id == flow_id {
                proof {
                    lemma_flow_index(self@.flows, flow_id);
                    assert(old(self)@.flows[i as int].expected_seq_num < u64::MAX);
                }
                let ghost pre_flows = flows_model(self.flows@);
                let mut flow = self.flows.remove(i);
                proof {
                    assert(flow@ == pre_flows[i as int]);
                }
                let r = flow.receive_pdu(pdu);
                let ghost fm = flow@;
                self.flows.insert(i, flow);
                proof {
                    assert(flows_model(self.flows@) =~= pre_flows.update(i as int, fm));
                    assert(fm.flow_id == pre_flows[i as int].flow_id);
                    let post = flows_model(self.flows@);
                    assert forall|a: int, b: int|
                        0 <= a < b < post.len() implies (#[trigger] post[a]).flow_id != (
                    #[trigger] post[b]).flow_id by {
                        if a == i as int {
                            assert(post[a] == fm);
                        } else {
                            assert(post[a] == pre_flows[a]);
                        }
                        if b == i as int {
                            assert(post[b] == fm);
                        } else {
                            assert(post[b] == pre_flows[b]);
                        }
                        assert(post[a].flow_id == old(self)@.flows[a].flow_id);
                        assert(post[b].flow_id == old(self)@.flows[b].flow_id);
                        assert(old(self)@.flows[a].flow_id != old(self)@.flows[b].flow_id);
                    }
                    if fm == pre_flows[i as int] {
                        assert(flows_model(self.flows@) =~= pre_flows);
                    }
                }
                return r;
            }
            i = i + 1;
        }
        proof {
            lemma_flow_index(self@.flows, flow_id);
        }
        Err(EfcpError::FlowNotFound(flow_id as u64))
    }

    /// Removes the flow with this identifier; fails exactly when unknown.
    #[verifier::loop_isolation(false)]
    pub fn deallocate_flow(&mut self, flow_id: u32) -> (r: Result<(), EfcpError>)
        requires
            old(self).wf(),
        ensures
            final(self).wf(),
            final(self)@.next_flow_id == old(self)@.next_flow_id,
            match r {
                Ok(_) => {
                    let idx = spec_flow_index(old(self)@.flows, flow_id);
                    idx != -1 && final(self)@.flows == old(self)@.flows.remove(idx)
                },
                Err(e) => {
                    &&& e matches EfcpError::FlowNotFound(id) && id == flow_id as u64
                    &&& spec_flow_index(old(self)@.flows, flow_id) == -1
                    &&& final(self)@ == old(self)@
                },
            },
    {
        let n = self.flows.len();
        let mut i: usize = 0;
        while i < n
            invariant
                i <= n,
                self@ == old(self)@,
                n == self.flows@.len(),
                forall|k: int| 0 <= k < i ==> (#[trigger] self@.flows[k]).flow_id != flow_id,
            decreases n - i,
        {
            if self.flows[i].flow_id == flow_id {
                proof {
                    lemma_flow_index(self@.flows, flow_id);
                    assert(self@.flows[i as int].flow_id == flow_id);
                    let idx = spec_flow_index(self@.flows, flow_id);
                    assert(idx != -1);
                    assert(idx == i as int);
                }
                let ghost pre = flows_model(self.flows@);
                self.flows.remove(i);
                proof {
                    assert(flows_model(self.flows@) =~= pre.remove(i as int));
                    let post = flows_model(self.flows@);
                    assert forall|k: int|
                        0 <= k < post.len() implies (#[trigger] post[k]).flow_id
                            < self@.next_flow_id by {
                        let kk = if k < i as int {
                            k
                        } else {
                            k + 1
                        };
                        assert(post[k] == old(self)@.flows[kk]);
                        assert(old(self)@.flows[kk].flow_id < old(self)@.next_flow_id);
                    }
                    assert forall|a: int, b: int|
                        0 <= a < b < post.len() implies (#[trigger] post[a]).flow_id != (
                    #[trigger] post[b]).flow_id by {
                        let aa = if a < i as int {
                            a
                        } else {
                            a + 1
                        };
                        let bb = if b < i as int {
                            b
                        } else {
                            b + 1
                        };
                        assert(post[a] == old(self)@.flows[aa]);
                        assert(post[b] == old(self)@.flows[bb]);
                        assert(old(self)@.flows[aa].flow_id != old(self)@.flows[bb].flow_id);
                    }
                }
                return Ok(());
            }
            i = i + 1;
        }
        proof {
            lemma_flow_index(self@.flows, flow_id);
        }
        Err(EfcpError::FlowNotFound(flow_id as u64))
    }

    /// The number of active flows.
    pub fn flow_count(&self) -> (r: usize)
        ensures
            r == self@.flows.len(),
    {
        self.flows.len()
    }
}

impl Default for Efcp {
    /// An instance with no flows.
    fn default() -> (r: Self)
        ensures
            r.wf(),
            r@.flows == Seq::<FlowModel>::empty(),
            r@.next_flow_id == 1,
    {
        Self::new()
    }
}

} // verus!
