//! Flow Allocator (FAL): tracks flow allocation requests and the flows
//! granted for them.

use vstd::prelude::*;
use crate::efcp::FlowConfig;

verus! {

broadcast use vstd::seq_lib::group_seq_lib_default, vstd::seq::group_seq_axioms, vstd::std_specs::vec::group_vec_axioms;

/// A request to allocate a flow between two applications.
#[derive(Debug)]
pub struct FlowAllocRequest {
    /// Requesting application.
    pub src_app_name: String,
    /// Target application.
    pub dst_app_name: String,
    /// Source address.
    pub src_addr: u64,
    /// Destination address.
    pub dst_addr: u64,
    /// Requested flow parameters.
    pub qos: FlowConfig,
    /// Correlates the response with this request.
    pub request_id: u64,
}

impl Clone for FlowAllocRequest {
    /// Cloning keeps every field's view.
    fn clone(&self) -> (r: Self)
        ensures
            r.src_app_name@ == self.src_app_name@,
            r.dst_app_name@ == self.dst_app_name@,
            r.src_addr == self.src_addr,
            r.dst_addr == self.dst_addr,
            r.qos == self.qos,
            r.request_id == self.request_id,
    {
        FlowAllocRequest {
            src_app_name: self.src_app_name.clone(),
            dst_app_name: self.dst_app_name.clone(),
            src_addr: self.src_addr,
            dst_addr: self.dst_addr,
            qos: self.qos,
            request_id: self.request_id,
        }
    }
}

/// The answer to a flow allocation request.
#[derive(Debug)]
pub struct FlowAllocResponse {
    /// The request this answers.
    pub request_id: u64,
    /// Whether allocation succeeded.
    pub success: bool,
    /// The allocated flow, on success.
    pub flow_id: Option<u32>,
    /// Why allocation failed, on failure.
    pub error: Option<String>,
}

/// Lifecycle of an allocated flow.
#[derive(Debug, Clone, Copy, PartialEq, Eq, Structural)]
pub enum FlowState {
    /// Waiting for the peer's answer.
    Pending,
    /// Granted and usable.
    Allocated,
    /// Being torn down.
    Deallocating,
    /// Torn down.
    Deallocated,
}

/// One granted flow.
#[derive(Debug)]
pub struct AllocatedFlow {
    /// The flow's identifier.
    pub flow_id: u32,
    /// Requesting application.
    pub src_app_name: String,
    /// Target application.
    pub dst_app_name: String,
    /// Source address.
    pub src_addr: u64,
    /// Destination address.
    pub dst_addr: u64,
    /// Flow parameters.
    pub config: FlowConfig,
    /// Current lifecycle state.
    pub state: FlowState,
}

/// Model of an allocated flow.
pub struct AllocatedFlowModel {
    pub flow_id: u32,
    pub src_app_name: Seq<char>,
    pub dst_app_name: Seq<char>,
    pub src_addr: u64,
    pub dst_addr: u64,
    pub config: FlowConfig,
    pub state: FlowState,
}

impl View for AllocatedFlow {
    type V = AllocatedFlowModel;

    open spec fn view(&self) -> AllocatedFlowModel {
        AllocatedFlowModel {
            flow_id: self.flow_id,
            src_app_name: self.src_app_name@,
            dst_app_name: self.dst_app_name@,
            src_addr: self.src_addr,
            dst_addr: self.dst_addr,
            config: self.config,
            state: self.state,
        }
    }
}

impl Clone for AllocatedFlow {
    /// Cloning keeps the flow's model.
    fn clone(&self) -> (r: Self)
        ensures
            r@ == self@,
    {
        AllocatedFlow {
            flow_id: self.flow_id,
            src_app_name: self.src_app_name.clone(),
            dst_app_name: self.dst_app_name.clone(),
            src_addr: self.src_addr,
            dst_addr: self.dst_addr,
            config: self.config,
            state: self.state,
        }
    }
}

/// Model of the flow list.
pub open spec fn alloc_flows_model(s: Seq<AllocatedFlow>) -> Seq<AllocatedFlowModel> {
    Seq::new(s.len(), |i: int| s[i]@)
}

/// Index of the allocated flow with the given id, or -1.
pub open spec fn spec_alloc_index(flows: Seq<AllocatedFlowModel>, flow_id: u32) -> int
    decreases flows.len(),
{
    if flows.len() == 0 {
        -1
    } else if flows[0].flow_id == flow_id {
        0
    } else {
        let r = spec_alloc_index(flows.drop_first(), flow_id);
        if r == -1 {
            -1
        } else {
            r + 1
        }
    }
}

proof fn lemma_alloc_index(flows: Seq<AllocatedFlowModel>, flow_id: u32)
    ensures
        spec_alloc_index(flows, flow_id) == -1 <==> (forall|k: int|
            0 <= k < flows.len() ==> (#[trigger] flows[k]).flow_id != flow_id),
        spec_alloc_index(flows, flow_id) != -1 ==> 0 <= spec_alloc_index(flows, flow_id)
            < flows.len() && flows[spec_alloc_index(flows, flow_id)].flow_id == flow_id && (forall|
            k: int,
        |
            0 <= k < spec_alloc_index(flows, flow_id) ==> (#[trigger] flows[k]).flow_id != flow_id),
    decreases flows.len(),
{
    if flows.len() > 0 {
        let tail = flows.drop_first();
        lemma_alloc_index(tail, flow_id);
        assert(forall|k: int| 0 <= k < tail.len() ==> #[trigger] tail[k] == flows[k + 1]);
        if flows[0].flow_id != flow_id {
            let r = spec_alloc_index(tail, flow_id);
            if r == -1 {
                assert forall|k: int| 0 <= k < flows.len() implies (#[trigger] flows[k]).flow_id
                    != flow_id by {
                    if k > 0 {
                        assert(tail[k - 1] == flows[k]);
                    }
                }
            } else {
                assert(flows[r + 1] == tail[r]);
                assert forall|k: int| 0 <= k < r + 1 implies (#[trigger] flows[k]).flow_id
                    != flow_id by {
                    if k > 0 {
                        assert(tail[k - 1] == flows[k]);
                    }
                }
            }
        }
    }
}

/// Model of the allocator.
pub struct FlowAllocatorModel {
    pub flows: Seq<AllocatedFlowModel>,
    pub pending: nat,
    pub next_flow_id: u32,
    pub next_request_id: u64,
}

/// The flow allocator: pending requests and granted flows.
#[derive(Debug)]
pub struct FlowAllocator {
    flows: Vec<AllocatedFlow>,
    pending_requests: Vec<FlowAllocRequest>,
    next_flow_id: u32,
    next_request_id: u64,
}

impl View for FlowAllocator {
    type V = FlowAllocatorModel;

    closed spec fn view(&self) -> FlowAllocatorModel {
        FlowAllocatorModel {
            flows: alloc_flows_model(self.flows@),
            pending: self.pending_requests@.len() as nat,
            next_flow_id: self.next_flow_id,
            next_request_id: self.next_request_id,
        }
    }
}

impl FlowAllocator {
    /// An allocator with nothing pending; identifiers start at 1.
    pub fn new() -> (r: Self)
        ensures
            r@.flows == Seq::<AllocatedFlowModel>::empty(),
            r@.pending == 0,
            r@.next_flow_id == 1,
            r@.next_request_id == 1,
    {
        let r = FlowAllocator {
            flows: Vec::new(),
            pending_requests: Vec::new(),
            next_flow_id: 1,
            next_request_id: 1,
        };
        proof {
            assert(alloc_flows_model(r.flows@) =~= Seq::<AllocatedFlowModel>::empty());
        }
        r
    }

    /// Builds an allocation request under a fresh request id and remembers
    /// it as pending.
    pub fn create_request(
        &mut self,
        src_app_name: String,
        dst_app_name: String,
        src_addr: u64,
        dst_addr: u64,
        qos: FlowConfig,
    ) -> (r: FlowAllocRequest)
        requires
            old(self)@.next_request_id < u64::MAX,
        ensures
            r.request_id == old(self)@.next_request_id,
            r.src_app_name@ == src_app_name@,
            r.dst_app_name@ == dst_app_name@,
            r.src_addr == src_addr,
            r.dst_addr == dst_addr,
            r.qos == qos,
            final(self)@.next_request_id == old(self)@.next_request_id + 1,
            final(self)@.pending == old(self)@.pending + 1,
            final(self)@.flows == old(self)@.flows,
            final(self)@.next_flow_id == old(self)@.next_flow_id,
    {
        let request_id = self.next_request_id;
        self.next_request_id = self.next_request_id + 1;
        let request = FlowAllocRequest {
            src_app_name,
            dst_app_name,
            src_addr,
            dst_addr,
            qos,
            request_id,
        };
        let copy = request.clone();
        self.pending_requests.push(copy);
        proof {
            assert(alloc_flows_model(self.flows@) =~= alloc_flows_model(old(self).flows@));
        }
        request
    }

    /// Grants a request: a fresh flow id is allocated and the flow is
    /// recorded as `Allocated`.
    pub fn process_request(&mut self, request: FlowAllocRequest) -> (r: FlowAllocResponse)
        requires
            old(self)@.next_flow_id < u32::MAX,
        ensures
            r.success,
            r.request_id == request.request_id,
            r.flow_id == Some(old(self)@.next_flow_id),
            final(self)@.next_flow_id == old(self)@.next_flow_id + 1,
            final(self)@.flows == old(self)@.flows.push(
                AllocatedFlowModel {
                    flow_id: old(self)@.next_flow_id,
                    src_app_name: request.src_app_name@,
                    dst_app_name: request.dst_app_name@,
                    src_addr: request.src_addr,
                    dst_addr: request.dst_addr,
                    config: request.qos,
                    state: FlowState::Allocated,
                },
            ),
            final(self)@.pending == old(self)@.pending,
            final(self)@.next_request_id == old(self)@.next_request_id,
    {
        let flow_id = self.next_flow_id;
        self.next_flow_id = self.next_flow_id + 1;
        let flow = AllocatedFlow {
            flow_id,
            src_app_name: request.src_app_name,
            dst_app_name: request.dst_app_name,
            src_addr: request.src_addr,
            dst_addr: request.dst_addr,
            config: request.qos,
            state: FlowState::Allocated,
        };
        let ghost fm = flow@;
        let ghost pre = alloc_flows_model(self.flows@);
        self.flows.push(flow);
        proof {
            assert(alloc_flows_model(self.flows@) =~= pre.push(fm));
        }
        FlowAllocResponse {
            request_id: request.request_id,
            success: true,
            flow_id: Some(flow_id),
            error: None,
        }
    }

    /// Settles a pending request with its response: the request is
    /// forgotten; a failure response yields its error.
    #[verifier::loop_isolation(false)]
    pub fn complete_request(&mut self, response: FlowAllocResponse) -> (r: Result<(), String>)
        ensures
            final(self)@.flows == old(self)@.flows,
            final(self)@.next_flow_id == old(self)@.next_flow_id,
            final(self)@.next_request_id == old(self)@.next_request_id,
            r is Ok <==> response.success,
    {
        let n = self.pending_requests.len();
        let mut i: usize = 0;
        let mut found: Option<usize> = None;
        while i < n
            invariant
                i <= n,
                self@ == old(self)@,
                n == self.pending_requests@.len(),
                match found {
                    Some(k) => k < n,
                    None => true,
                },
            decreases n - i,
        {
            if self.pending_requests[i].request_id == response.request_id {
                found = Some(i);
            }
            i = i + 1;
        }
        match found {
            Some(k) => {
                self.pending_requests.remove(k);
                proof {
                    assert(alloc_flows_model(self.flows@) =~= alloc_flows_model(
                        old(self).flows@,
                    ));
                }
            },
            None => {},
        }
        if response.success {
            Ok(())
        } else {
            match response.error {
                Some(e) => Err(e),
                None => {
                    let mut msg = String::new();
                    msg.append("Unknown error");
                    Err(msg)
                },
            }
        }
    }

    /// Removes the flow with this identifier; fails exactly when unknown.
    #[verifier::loop_isolation(false)]
    pub fn deallocate_flow(&mut self, flow_id: u32) -> (r: Result<(), String>)
        ensures
            final(self)@.next_flow_id == old(self)@.next_flow_id,
            final(self)@.next_request_id == old(self)@.next_request_id,
            final(self)@.pending == old(self)@.pending,
            match r {
                Ok(_) => {
                    let idx = spec_alloc_index(old(self)@.flows, flow_id);
                    idx != -1 && final(self)@.flows == old(self)@.flows.remove(idx)
                },
                Err(_) => spec_alloc_index(old(self)@.flows, flow_id) == -1 && final(self)@ == old(
                    self,
                )@,
            },
    {
        let n = self.flows.len();
        let mut i: usize = 0;
        while i < n
            invariant
                i <= n,
                self@ == old(self)@,
                n == self.flows@.len(),
                forall|k: int| 0 <= k < i ==> (#[trigger] self@.flows[k]).flow_id != flow_id,
            decreases n - i,
        {
            if self.flows[i].flow_id == flow_id {
                proof {
                    assert(self@.flows[i as int].flow_id == flow_id);
                    lemma_alloc_index(self@.flows, flow_id);
                    let idx = spec_alloc_index(self@.flows, flow_id);
                    assert(idx != -1);
                    assert(idx <= i as int);
                    assert(idx == i as int);
                }
                let ghost pre = alloc_flows_model(self.flows@);
                self.flows.remove(i);
                proof {
                    assert(alloc_flows_model(self.flows@) =~= pre.remove(i as int));
                }
                return Ok(());
            }
            i = i + 1;
        }
        proof {
            lemma_alloc_index(self@.flows, flow_id);
        }
        let mut msg = String::new();
        msg.append("Flow not found");
        Err(msg)
    }

    /// A copy of the flow with this identifier, if any.
    #[verifier::loop_isolation(false)]
    pub fn get_flow(&self, flow_id: u32) -> (r: Option<AllocatedFlow>)
        ensures
            match r {
                Some(f) => spec_alloc_index(self@.flows, flow_id) != -1 && f@ == self@.flows[
                    spec_alloc_index(self@.flows, flow_id)
                ],
                None => spec_alloc_index(self@.flows, flow_id) == -1,
            },
    {
        let n = self.flows.len();
        let mut i: usize = 0;
        while i < n
            invariant
                i <= n,
                n == self.flows@.len(),
                forall|k: int| 0 <= k < i ==> (#[trigger] self@.flows[k]).flow_id != flow_id,
            decreases n - i,
        {
            if self.flows[i].flow_id == flow_id {
                proof {
                    assert(self@.flows[i as int].flow_id == flow_id);
                    lemma_alloc_index(self@.flows, flow_id);
                    let idx = spec_alloc_index(self@.flows, flow_id);
                    assert(idx != -1 && idx <= i as int && idx == i as int);
                }
                return Some(self.flows[i].clone());
            }
            i = i + 1;
        }
        proof {
            lemma_alloc_index(self@.flows, flow_id);
        }
        None
    }

    /// The number of granted flows.
    pub fn flow_count(&self) -> (r: usize)
        ensures
            r == self@.flows.len(),
    {
        self.flows.len()
    }

    /// The number of requests still waiting for an answer.
    pub fn pending_count(&self) -> (r: usize)
        ensures
            r == self@.pending,
    {
        self.pending_requests.len()
    }
}

impl Default for FlowAllocator {
    /// An allocator with nothing pending.
    fn default() -> (r: Self)
        ensures
            r@.flows == Seq::<AllocatedFlowModel>::empty(),
            r@.pending == 0,
            r@.next_flow_id == 1,
            r@.next_request_id == 1,
    {
        Self::new()
    }
}

} // verus!
