//! Common Distributed Application Protocol (CDAP): the request/response
//! envelope of all control-plane operations, including RIB synchronization.
//!
//! A session owns a monotonically increasing invoke identifier; responses
//! echo the request's.  Incoming requests are executed against the local
//! RIB; `Start` and `Stop` exist on the wire but are answered with a
//! negative result.

use vstd::prelude::*;
use crate::codec::{spec_enc_u32, spec_enc_u64, spec_enc_bytes, spec_enc_string, spec_dec_u8,
    spec_dec_u32, spec_dec_u64, spec_dec_bytes, spec_dec_string, enc_u8, enc_u32, enc_u64,
    enc_bytes, enc_string, dec_u8, dec_u32, dec_u64, dec_bytes, dec_string};
use crate::error::CdapError;
use crate::rib::{Rib, RibValue, RibValueModel, RibChange, RibChangeModel, RibObject,
    spec_lookup, spec_index_of, spec_object, changes_model};
use crate::wire::{spec_enc_value, spec_dec_value, spec_enc_object, spec_dec_object, enc_value,
    dec_value, enc_object, dec_object};

verus! {

broadcast use vstd::seq_lib::group_seq_lib_default, vstd::seq::group_seq_axioms, vstd::std_specs::vec::group_vec_axioms;

/// CDAP operation codes.
#[derive(Debug, Clone, Copy, PartialEq, Eq, Structural)]
pub enum CdapOpCode {
    /// Create an object.
    Create,
    /// Delete an object.
    Delete,
    /// Read an object's value.
    Read,
    /// Overwrite an object's value.
    Write,
    /// Start an operation (reserved).
    Start,
    /// Stop an operation (reserved).
    Stop,
}

impl CdapOpCode {
    /// The operation's wire name.
    pub fn to_string(&self) -> (r: String)
        ensures
            match self {
                CdapOpCode::Create => r@ == "CREATE"@,
                CdapOpCode::Delete => r@ == "DELETE"@,
                CdapOpCode::Read => r@ == "READ"@,
                CdapOpCode::Write => r@ == "WRITE"@,
                CdapOpCode::Start => r@ == "START"@,
                CdapOpCode::Stop => r@ == "STOP"@,
            },
    {
        let mut s = String::new();
        match self {
            CdapOpCode::Create => s.append("CREATE"),
            CdapOpCode::Delete => s.append("DELETE"),
            CdapOpCode::Read => s.append("READ"),
            CdapOpCode::Write => s.append("WRITE"),
            CdapOpCode::Start => s.append("START"),
            CdapOpCode::Stop => s.append("STOP"),
        }
        s
    }
}

/// A member's request for the changes since a version it already has.
#[derive(Debug)]
pub struct SyncRequest {
    /// The last version the requester has seen.
    pub last_known_version: u64,
    /// Name of the requesting process.
    pub requester: String,
}

/// Model of a sync request.
pub struct SyncRequestModel {
    pub last_known_version: u64,
    pub requester: Seq<char>,
}

impl View for SyncRequest {
    type V = SyncRequestModel;

    open spec fn view(&self) -> SyncRequestModel {
        SyncRequestModel {
            last_known_version: self.last_known_version,
            requester: self.requester@,
        }
    }
}

/// The bootstrap's answer: incremental changes, or a full snapshot.
#[derive(Debug)]
pub struct SyncResponse {
    /// The bootstrap's current version.
    pub current_version: u64,
    /// The changes since the requested version, oldest first.
    pub changes: Option<Vec<RibChange>>,
    /// A full snapshot when the requested version was too old.
    pub full_snapshot: Option<Vec<u8>>,
    /// Why synchronization failed, if it did.
    pub error: Option<String>,
}

/// Model of a sync response.
pub struct SyncResponseModel {
    pub current_version: u64,
    pub changes: Option<Seq<RibChangeModel>>,
    pub full_snapshot: Option<Seq<u8>>,
    pub error: Option<Seq<char>>,
}

impl View for SyncResponse {
    type V = SyncResponseModel;

    open spec fn view(&self) -> SyncResponseModel {
        SyncResponseModel {
            current_version: self.current_version,
            changes: match self.changes {
                Some(cs) => Some(changes_model(cs@)),
                None => None,
            },
            full_snapshot: match self.full_snapshot {
                Some(bs) => Some(bs@),
                None => None,
            },
            error: match self.error {
                Some(e) => Some(e@),
                None => None,
            },
        }
    }
}

/// One CDAP message: a request or its response.
#[derive(Debug)]
pub struct CdapMessage {
    /// The operation.
    pub op_code: CdapOpCode,
    /// Name of the object operated on (a RIB path).
    pub obj_name: String,
    /// Class of the object, where the operation needs one.
    pub obj_class: Option<String>,
    /// Value carried by `Create` and `Write` requests and `Read` responses.
    pub obj_value: Option<RibValue>,
    /// Chosen by the initiator; the response echoes it.
    pub invoke_id: u64,
    /// 0 on success; anything else reports failure.
    pub result: i32,
    /// Why the operation failed, if it did.
    pub result_reason: Option<String>,
    /// Present on RIB synchronization requests.
    pub sync_request: Option<SyncRequest>,
    /// Present on RIB synchronization responses.
    pub sync_response: Option<SyncResponse>,
}

/// Model of a CDAP message.
pub struct CdapMessageModel {
    pub op_code: CdapOpCode,
    pub obj_name: Seq<char>,
    pub obj_class: Option<Seq<char>>,
    pub obj_value: Option<RibValueModel>,
    pub invoke_id: u64,
    pub result: i32,
    pub result_reason: Option<Seq<char>>,
    pub sync_request: Option<SyncRequestModel>,
    pub sync_response: Option<SyncResponseModel>,
}

impl View for CdapMessage {
    type V = CdapMessageModel;

    open spec fn view(&self) -> CdapMessageModel {
        CdapMessageModel {
            op_code: self.op_code,
            obj_name: self.obj_name@,
            obj_class: match self.obj_class {
                Some(c) => Some(c@),
                None => None,
            },
            obj_value: match self.obj_value {
                Some(v) => Some(v@),
                None => None,
            },
            invoke_id: self.invoke_id,
            result: self.result,
            result_reason: match self.result_reason {
                Some(s) => Some(s@),
                None => None,
            },
            sync_request: match self.sync_request {
                Some(s) => Some(s@),
                None => None,
            },
            sync_response: match self.sync_response {
                Some(s) => Some(s@),
                None => None,
            },
        }
    }
}

impl CdapMessage {
    /// A fresh request.
    pub fn new_request(
        op_code: CdapOpCode,
        obj_name: String,
        obj_class: Option<String>,
        obj_value: Option<RibValue>,
        invoke_id: u64,
    ) -> (r: Self)
        ensures
            r@.op_code == op_code,
            r@.obj_name == obj_name@,
            r@.obj_class == (match obj_class {
                Some(c) => Some(c@),
                None => None::<Seq<char>>,
            }),
            r@.obj_value == (match obj_value {
                Some(v) => Some(v@),
                None => None::<RibValueModel>,
            }),
            r@.invoke_id == invoke_id,
            r@.result == 0,
            r@.result_reason is None,
            r@.sync_request is None,
            r@.sync_response is None,
    {
        CdapMessage {
            op_code,
            obj_name,
            obj_class,
            obj_value,
            invoke_id,
            result: 0,
            result_reason: None,
            sync_request: None,
            sync_response: None,
        }
    }

    /// A response echoing `invoke_id`, carrying only a result.
    pub fn new_response(invoke_id: u64, result: i32, result_reason: Option<String>) -> (r: Self)
        ensures
            r@.op_code == CdapOpCode::Read,
            r@.obj_name == Seq::<char>::empty(),
            r@.obj_class is None,
            r@.obj_value is None,
            r@.invoke_id == invoke_id,
            r@.result == result,
            r@.result_reason == (match result_reason {
                Some(s) => Some(s@),
                None => None::<Seq<char>>,
            }),
            r@.sync_request is None,
            r@.sync_response is None,
    {
        let name = String::new();
        CdapMessage {
            op_code: CdapOpCode::Read,
            obj_name: name,
            obj_class: None,
            obj_value: None,
            invoke_id,
            result,
            result_reason,
            sync_request: None,
            sync_response: None,
        }
    }

    /// A RIB synchronization request: a `Read` of the `rib_sync` object.
    pub fn new_sync_request(invoke_id: u64, last_known_version: u64, requester: String) -> (r: Self)
        ensures
            r@.op_code == CdapOpCode::Read,
            r@.obj_name == "rib_sync"@,
            r@.obj_class == Some("sync"@),
            r@.obj_value is None,
            r@.invoke_id == invoke_id,
            r@.result == 0,
            r@.sync_request == Some(
                SyncRequestModel { last_known_version, requester: requester@ },
            ),
            r@.sync_response is None,
    {
        let mut name = String::new();
        name.append("rib_sync");
        let mut class = String::new();
        class.append("sync");
        CdapMessage {
            op_code: CdapOpCode::Read,
            obj_name: name,
            obj_class: Some(class),
            obj_value: None,
            invoke_id,
            result: 0,
            result_reason: None,
            sync_request: Some(SyncRequest { last_known_version, requester }),
            sync_response: None,
        }
    }

    /// A RIB synchronization response; a present `error` makes the result
    /// nonzero.
    pub fn new_sync_response(
        invoke_id: u64,
        current_version: u64,
        changes: Option<Vec<RibChange>>,
        full_snapshot: Option<Vec<u8>>,
        error: Option<String>,
    ) -> (r: Self)
        ensures
            r@.op_code == CdapOpCode::Read,
            r@.obj_name == "rib_sync"@,
            r@.obj_class == Some("sync"@),
            r@.invoke_id == invoke_id,
            r@.result == (if error is Some {
                1int as i32
            } else {
                0int as i32
            }),
            r@.result_reason == (match error {
                Some(e) => Some(e@),
                None => None::<Seq<char>>,
            }),
            r@.sync_request is None,
            r@.sync_response matches Some(sr) && sr.current_version == current_version
                && sr.changes == (match changes {
                Some(cs) => Some(changes_model(cs@)),
                None => None::<Seq<RibChangeModel>>,
            }) && sr.full_snapshot == (match full_snapshot {
                Some(bs) => Some(bs@),
                None => None::<Seq<u8>>,
            }) && sr.error == (match error {
                Some(e) => Some(e@),
                None => None::<Seq<char>>,
            }),
    {
        let mut name = String::new();
        name.append("rib_sync");
        let mut class = String::new();
        class.append("sync");
        let result: i32 = match &error {
            Some(_) => 1,
            None => 0,
        };
        let result_reason = match &error {
            Some(e) => {
                let mut copy = String::new();
                copy.append(e.as_str());
                Some(copy)
            },
            None => None,
        };
        CdapMessage {
            op_code: CdapOpCode::Read,
            obj_name: name,
            obj_class: Some(class),
            obj_value: None,
            invoke_id,
            result,
            result_reason,
            sync_request: None,
            sync_response: Some(SyncResponse { current_version, changes, full_snapshot, error }),
        }
    }

    /// True exactly when the result reports success.
    pub fn is_success(&self) -> (r: bool)
        ensures
            r == (self@.result == 0),
    {
        self.result == 0
    }
}

// ---------------------------------------------------------------------------
// The session
// ---------------------------------------------------------------------------
/// Model of a CDAP session.
pub struct CdapSessionModel {
    pub rib: crate::rib::RibModel,
    pub next_invoke_id: u64,
}

/// A CDAP session: the local RIB plus the invoke-id counter for requests
/// this node initiates.
#[derive(Debug)]
pub struct CdapSession {
    rib: Rib,
    next_invoke_id: u64,
}

impl View for CdapSession {
    type V = CdapSessionModel;

    closed spec fn view(&self) -> CdapSessionModel {
        CdapSessionModel { rib: self.rib@, next_invoke_id: self.next_invoke_id }
    }
}

impl CdapSession {
    /// The session's RIB and counters are well-formed.
    pub open spec fn wf(&self) -> bool {
        &&& crate::rib::spec_names_unique(self@.rib.objects)
        &&& self@.rib.log.max_size >= 1
    }

    /// A session over the given RIB; invoke identifiers start at 1.
    pub fn new(rib: Rib) -> (r: Self)
        ensures
            r@.rib == rib@,
            r@.next_invoke_id == 1,
            rib.wf() ==> r.rib_wf(),
    {
        CdapSession { rib, next_invoke_id: 1 }
    }

    /// The underlying RIB is well-formed.
    pub closed spec fn rib_wf(&self) -> bool {
        self.rib.wf()
    }

    /// Reads an object from the session's RIB.
    pub fn rib_read(&self, name: &str) -> (r: Option<RibObject>)
        ensures
            match r {
                Some(o) => spec_lookup(self@.rib.objects, name@) == Some(o@),
                None => spec_lookup(self@.rib.objects, name@) is None,
            },
    {
        self.rib.read(name)
    }

    fn take_invoke_id(&mut self) -> (r: u64)
        requires
            old(self)@.next_invoke_id < u64::MAX,
        ensures
            r == old(self)@.next_invoke_id,
            final(self)@.next_invoke_id == old(self)@.next_invoke_id + 1,
            final(self)@.rib == old(self)@.rib,
            old(self).rib_wf() ==> final(self).rib_wf(),
    {
        let id = self.next_invoke_id;
        self.next_invoke_id = self.next_invoke_id + 1;
        id
    }

    /// Builds a `Create` request under a fresh invoke id.
    pub fn create_request(&mut self, obj_name: String, obj_class: String, obj_value: RibValue) -> (r:
        CdapMessage)
        requires
            old(self)@.next_invoke_id < u64::MAX,
        ensures
            r@.op_code == CdapOpCode::Create,
            r@.obj_name == obj_name@,
            r@.obj_class == Some(obj_class@),
            r@.obj_value == Some(obj_value@),
            r@.invoke_id == old(self)@.next_invoke_id,
            r@.result == 0,
            final(self)@.next_invoke_id == old(self)@.next_invoke_id + 1,
            final(self)@.rib == old(self)@.rib,
            old(self).rib_wf() ==> final(self).rib_wf(),
    {
        let id = self.take_invoke_id();
        CdapMessage::new_request(CdapOpCode::Create, obj_name, Some(obj_class), Some(obj_value), id)
    }

    /// Builds a `Read` request under a fresh invoke id.
    pub fn read_request(&mut self, obj_name: String) -> (r: CdapMessage)
        requires
            old(self)@.next_invoke_id < u64::MAX,
        ensures
            r@.op_code == CdapOpCode::Read,
            r@.obj_name == obj_name@,
            r@.obj_class is None,
            r@.obj_value is None,
            r@.invoke_id == old(self)@.next_invoke_id,
            r@.result == 0,
            final(self)@.next_invoke_id == old(self)@.next_invoke_id + 1,
            final(self)@.rib == old(self)@.rib,
            old(self).rib_wf() ==> final(self).rib_wf(),
    {
        let id = self.take_invoke_id();
        CdapMessage::new_request(CdapOpCode::Read, obj_name, None, None, id)
    }

    /// Builds a `Write` request under a fresh invoke id.
    pub fn write_request(&mut self, obj_name: String, obj_value: RibValue) -> (r: CdapMessage)
        requires
            old(self)@.next_invoke_id < u64::MAX,
        ensures
            r@.op_code == CdapOpCode::Write,
            r@.obj_name == obj_name@,
            r@.obj_class is None,
            r@.obj_value == Some(obj_value@),
            r@.invoke_id == old(self)@.next_invoke_id,
            r@.result == 0,
            final(self)@.next_invoke_id == old(self)@.next_invoke_id + 1,
            final(self)@.rib == old(self)@.rib,
            old(self).rib_wf() ==> final(self).rib_wf(),
    {
        let id = self.take_invoke_id();
        CdapMessage::new_request(CdapOpCode::Write, obj_name, None, Some(obj_value), id)
    }

    /// Builds a `Delete` request under a fresh invoke id.
    pub fn delete_request(&mut self, obj_name: String) -> (r: CdapMessage)
        requires
            old(self)@.next_invoke_id < u64::MAX,
        ensures
            r@.op_code == CdapOpCode::Delete,
            r@.obj_name == obj_name@,
            r@.obj_class is None,
            r@.obj_value is None,
            r@.invoke_id == old(self)@.next_invoke_id,
            r@.result == 0,
            final(self)@.next_invoke_id == old(self)@.next_invoke_id + 1,
            final(self)@.rib == old(self)@.rib,
            old(self).rib_wf() ==> final(self).rib_wf(),
    {
        let id = self.take_invoke_id();
        CdapMessage::new_request(CdapOpCode::Delete, obj_name, None, None, id)
    }

    /// Builds a `Start` request under a fresh invoke id.
    pub fn start_request(&mut self, obj_name: String, obj_value: Option<RibValue>) -> (r:
        CdapMessage)
        requires
            old(self)@.next_invoke_id < u64::MAX,
        ensures
            r@.op_code == CdapOpCode::Start,
            r@.obj_name == obj_name@,
            r@.invoke_id == old(self)@.next_invoke_id,
            r@.result == 0,
            final(self)@.next_invoke_id == old(self)@.next_invoke_id + 1,
            final(self)@.rib == old(self)@.rib,
            old(self).rib_wf() ==> final(self).rib_wf(),
    {
        let id = self.take_invoke_id();
        CdapMessage::new_request(CdapOpCode::Start, obj_name, None, obj_value, id)
    }

    /// Executes an incoming request against the local RIB and produces the
    /// response, echoing the request's invoke id.  `Create` requires a
    /// class and a value and fails on a known name; `Write` requires a
    /// value and fails on an unknown name; `Delete` fails on an unknown
    /// name; `Read` returns the object's class and value; `Start` and
    /// `Stop` are answered negatively.
    pub fn process_message(&mut self, msg: &CdapMessage) -> (r: CdapMessage)
        requires
            old(self).rib_wf(),
            old(self)@.rib.version_counter < u64::MAX,
        ensures
            final(self).rib_wf(),
            r@.invoke_id == msg@.invoke_id,
            final(self)@.next_invoke_id == old(self)@.next_invoke_id,
            match msg@.op_code {
                CdapOpCode::Create => {
                    if msg@.obj_class is None || msg@.obj_value is None {
                        r@.result != 0 && final(self)@.rib == old(self)@.rib
                    } else if spec_lookup(old(self)@.rib.objects, msg@.obj_name) is Some {
                        r@.result != 0 && final(self)@.rib == old(self)@.rib
                    } else {
                        &&& r@.result == 0
                        &&& final(self)@.rib.version_counter == old(self)@.rib.version_counter + 1
                        &&& exists|ts: u64|
                            final(self)@.rib.objects == old(self)@.rib.objects.push(
                                #[trigger] spec_object(
                                    msg@.obj_name,
                                    msg@.obj_class.unwrap(),
                                    msg@.obj_value.unwrap(),
                                    (old(self)@.rib.version_counter + 1) as u64,
                                    ts,
                                ),
                            )
                    }
                },
                CdapOpCode::Read => {
                    match spec_lookup(old(self)@.rib.objects, msg@.obj_name) {
                        Some(o) => r@.result == 0 && r@.obj_value == Some(o.value) && r@.obj_class
                            == Some(o.class) && final(self)@.rib == old(self)@.rib,
                        None => r@.result != 0 && final(self)@.rib == old(self)@.rib,
                    }
                },
                CdapOpCode::Write => {
                    if msg@.obj_value is None {
                        r@.result != 0 && final(self)@.rib == old(self)@.rib
                    } else if spec_lookup(old(self)@.rib.objects, msg@.obj_name) is None {
                        r@.result != 0 && final(self)@.rib == old(self)@.rib
                    } else {
                        let i = spec_index_of(old(self)@.rib.objects, msg@.obj_name);
                        let prev = old(self)@.rib.objects[i];
                        &&& r@.result == 0
                        &&& final(self)@.rib.version_counter == old(self)@.rib.version_counter + 1
                        &&& exists|ts: u64|
                            final(self)@.rib.objects == old(self)@.rib.objects.update(
                                i,
                                #[trigger] spec_object(
                                    msg@.obj_name,
                                    prev.class,
                                    msg@.obj_value.unwrap(),
                                    (old(self)@.rib.version_counter + 1) as u64,
                                    ts,
                                ),
                            )
                    }
                },
                CdapOpCode::Delete => {
                    if spec_lookup(old(self)@.rib.objects, msg@.obj_name) is None {
                        r@.result != 0 && final(self)@.rib == old(self)@.rib
                    } else {
                        r@.result == 0 && final(self)@.rib.objects == old(
                            self,
                        )@.rib.objects.remove(spec_index_of(old(self)@.rib.objects, msg@.obj_name))
                    }
                },
                CdapOpCode::Start => r@.result != 0 && final(self)@.rib == old(self)@.rib,
                CdapOpCode::Stop => r@.result != 0 && final(self)@.rib == old(self)@.rib,
            },
    {
        match msg.op_code {
            CdapOpCode::Create => {
                let has_class = match &msg.obj_class {
                    Some(_) => true,
                    None => false,
                };
                let has_value = match &msg.obj_value {
                    Some(_) => true,
                    None => false,
                };
                if !has_class || !has_value {
                    let mut reason = String::new();
                    reason.append("Missing class or value for CREATE");
                    return CdapMessage::new_response(msg.invoke_id, -1, Some(reason));
                }
                let class = match &msg.obj_class {
                    Some(c) => c.clone(),
                    None => String::new(),
                };
                let value = match &msg.obj_value {
                    Some(v) => v.clone(),
                    None => RibValue::Boolean(false),
                };
                let mut name = String::new();
                name.append(msg.obj_name.as_str());
                let ghost gname = name@;
                let ghost gclass = class@;
                let ghost gvalue = value@;
                match self.rib.create(name, class, value) {
                    Ok(_) => {
                        proof {
                            let ts = choose|ts: u64|
                                self@.rib.objects == old(self)@.rib.objects.push(
                                    #[trigger] spec_object(
                                        gname,
                                        gclass,
                                        gvalue,
                                        (old(self)@.rib.version_counter + 1) as u64,
                                        ts,
                                    ),
                                );
                            assert(self@.rib.objects == old(self)@.rib.objects.push(
                                spec_object(
                                    msg@.obj_name,
                                    msg@.obj_class.unwrap(),
                                    msg@.obj_value.unwrap(),
                                    (old(self)@.rib.version_counter + 1) as u64,
                                    ts,
                                ),
                            ));
                        }
                        CdapMessage::new_response(msg.invoke_id, 0, None)
                    },
                    Err(e) => CdapMessage::new_response(msg.invoke_id, -1, Some(e.message())),
                }
            },
            CdapOpCode::Read => {
                match self.rib.read(msg.obj_name.as_str()) {
                    Some(obj) => {
                        let mut response = CdapMessage::new_response(msg.invoke_id, 0, None);
                        response.obj_value = Some(obj.value);
                        response.obj_class = Some(obj.class);
                        response
                    },
                    None => {
                        let mut reason = String::new();
                        reason.append("Object not found: ");
                        reason.append(msg.obj_name.as_str());
                        CdapMessage::new_response(msg.invoke_id, -1, Some(reason))
                    },
                }
            },
            CdapOpCode::Write => {
                let value = match &msg.obj_value {
                    Some(v) => v.clone(),
                    None => {
                        let mut reason = String::new();
                        reason.append("Missing value for WRITE");
                        return CdapMessage::new_response(msg.invoke_id, -1, Some(reason));
                    },
                };
                let ghost gvalue = value@;
                match self.rib.update(msg.obj_name.as_str(), value) {
                    Ok(_) => {
                        proof {
                            let i = spec_index_of(old(self)@.rib.objects, msg@.obj_name);
                            let prev = old(self)@.rib.objects[i];
                            let stamp = choose|stamp: u64|
                                stamp >= prev.last_modified && self@.rib.objects == old(
                                    self,
                                )@.rib.objects.update(
                                    i,
                                    #[trigger] spec_object(
                                        msg@.obj_name,
                                        prev.class,
                                        gvalue,
                                        (old(self)@.rib.version_counter + 1) as u64,
                                        stamp,
                                    ),
                                );
                            assert(self@.rib.objects == old(self)@.rib.objects.update(
                                i,
                                spec_object(
                                    msg@.obj_name,
                                    prev.class,
                                    msg@.obj_value.unwrap(),
                                    (old(self)@.rib.version_counter + 1) as u64,
                                    stamp,
                                ),
                            ));
                        }
                        CdapMessage::new_response(msg.invoke_id, 0, None)
                    },
                    Err(e) => CdapMessage::new_response(msg.invoke_id, -1, Some(e.message())),
                }
            },
            CdapOpCode::Delete => {
                match self.rib.delete(msg.obj_name.as_str()) {
                    Ok(_) => CdapMessage::new_response(msg.invoke_id, 0, None),
                    Err(e) => CdapMessage::new_response(msg.invoke_id, -1, Some(e.message())),
                }
            },
            CdapOpCode::Start => {
                let mut reason = String::new();
                reason.append("Operation not yet implemented");
                CdapMessage::new_response(msg.invoke_id, -1, Some(reason))
            },
            CdapOpCode::Stop => {
                let mut reason = String::new();
                reason.append("Operation not yet implemented");
                CdapMessage::new_response(msg.invoke_id, -1, Some(reason))
            },
        }
    }
}

// ---------------------------------------------------------------------------
// Wire form
// ---------------------------------------------------------------------------
/// The tag byte of an operation code.
pub open spec fn spec_enc_op(op: CdapOpCode) -> Seq<u8> {
    match op {
        CdapOpCode::Create => seq![0u8],
        CdapOpCode::Delete => seq![1u8],
        CdapOpCode::Read => seq![2u8],
        CdapOpCode::Write => seq![3u8],
        CdapOpCode::Start => seq![4u8],
        CdapOpCode::Stop => seq![5u8],
    }
}

pub open spec fn spec_dec_op(s: Seq<u8>) -> Option<(CdapOpCode, Seq<u8>)> {
    match spec_dec_u8(s) {
        None => None,
        Some((tag, r)) => if tag == 0 {
            Some((CdapOpCode::Create, r))
        } else if tag == 1 {
            Some((CdapOpCode::Delete, r))
        } else if tag == 2 {
            Some((CdapOpCode::Read, r))
        } else if tag == 3 {
            Some((CdapOpCode::Write, r))
        } else if tag == 4 {
            Some((CdapOpCode::Start, r))
        } else if tag == 5 {
            Some((CdapOpCode::Stop, r))
        } else {
            None
        },
    }
}

/// The encoding of one logged change.
pub open spec fn spec_enc_change(c: RibChangeModel) -> Seq<u8> {
    match c {
        RibChangeModel::Created(o) => seq![0u8] + spec_enc_object(o),
        RibChangeModel::Updated(o) => seq![1u8] + spec_enc_object(o),
        RibChangeModel::Deleted { name, version, timestamp } => seq![2u8] + spec_enc_string(name)
            + spec_enc_u64(version) + spec_enc_u64(timestamp),
    }
}

pub open spec fn spec_dec_change(s: Seq<u8>) -> Option<(RibChangeModel, Seq<u8>)> {
    match spec_dec_u8(s) {
        None => None,
        Some((tag, r1)) => if tag == 0 {
            match spec_dec_object(r1) {
                Some((o, r2)) => Some((RibChangeModel::Created(o), r2)),
                None => None,
            }
        } else if tag == 1 {
            match spec_dec_object(r1) {
                Some((o, r2)) => Some((RibChangeModel::Updated(o), r2)),
                None => None,
            }
        } else if tag == 2 {
            match spec_dec_string(r1) {
                None => None,
                Some((name, r2)) => match spec_dec_u64(r2) {
                    None => None,
                    Some((version, r3)) => match spec_dec_u64(r3) {
                        None => None,
                        Some((timestamp, r4)) => Some(
                            (RibChangeModel::Deleted { name, version, timestamp }, r4),
                        ),
                    },
                },
            }
        } else {
            None
        },
    }
}

fn enc_change(out: &mut Vec<u8>, c: &RibChange)
    ensures
        final(out)@ == old(out)@ + spec_enc_change(c@),
{
    match c {
        RibChange::Created(o) => {
            enc_u8(out, 0);
            enc_object(out, o);
        },
        RibChange::Updated(o) => {
            enc_u8(out, 1);
            enc_object(out, o);
        },
        RibChange::Deleted { name, version, timestamp } => {
            enc_u8(out, 2);
            enc_string(out, name.as_str());
            enc_u64(out, *version);
            enc_u64(out, *timestamp);
        },
    }
    assert(final(out)@ =~= old(out)@ + spec_enc_change(c@));
}

fn dec_change(data: &Vec<u8>, pos: usize) -> (r: Option<(RibChange, usize)>)
    requires
        pos <= data@.len(),
    ensures
        match r {
            Some(v) => pos < v.1 <= data@.len() && spec_dec_change(data@.skip(pos as int)) == Some(
                (v.0@, data@.skip(v.1 as int)),
            ),
            None => spec_dec_change(data@.skip(pos as int)) is None,
        },
{
    match dec_u8(data, pos) {
        None => None,
        Some((tag, p1)) => {
            if tag == 0 {
                match dec_object(data, p1) {
                    Some((o, p2)) => Some((RibChange::Created(o), p2)),
                    None => None,
                }
            } else if tag == 1 {
                match dec_object(data, p1) {
                    Some((o, p2)) => Some((RibChange::Updated(o), p2)),
                    None => None,
                }
            } else if tag == 2 {
                match dec_string(data, p1) {
                    None => None,
                    Some((name, p2)) => match dec_u64(data, p2) {
                        None => None,
                        Some((version, p3)) => match dec_u64(data, p3) {
                            None => None,
                            Some((timestamp, p4)) => Some(
                                (RibChange::Deleted { name, version, timestamp }, p4),
                            ),
                        },
                    },
                }
            } else {
                None
            }
        },
    }
}


/// The encoding of an optional string.
pub open spec fn spec_enc_opt_string(v: Option<Seq<char>>) -> Seq<u8> {
    match v {
        None => seq![0u8],
        Some(s) => seq![1u8] + spec_enc_string(s),
    }
}

pub open spec fn spec_dec_opt_string(s: Seq<u8>) -> Option<(Option<Seq<char>>, Seq<u8>)> {
    match spec_dec_u8(s) {
        None => None,
        Some((tag, r)) => if tag == 0 {
            Some((None, r))
        } else if tag == 1 {
            match spec_dec_string(r) {
                Some((x, r2)) => Some((Some(x), r2)),
                None => None,
            }
        } else {
            None
        },
    }
}

/// The encoding of a list of changes: a count, then each change.
pub open spec fn spec_enc_changes(cs: Seq<RibChangeModel>) -> Seq<u8>
    decreases cs.len(),
{
    if cs.len() == 0 {
        Seq::empty()
    } else {
        spec_enc_change(cs[0]) + spec_enc_changes(cs.drop_first())
    }
}

pub open spec fn spec_dec_changes(s: Seq<u8>, cnt: nat) -> Option<(Seq<RibChangeModel>, Seq<u8>)>
    decreases s.len(), cnt,
{
    if cnt == 0 {
        Some((Seq::empty(), s))
    } else {
        match spec_dec_change(s) {
            None => None,
            Some((c, r1)) => if r1.len() < s.len() {
                match spec_dec_changes(r1, (cnt - 1) as nat) {
                    Some((cs, r2)) => Some((seq![c] + cs, r2)),
                    None => None,
                }
            } else {
                None
            },
        }
    }
}

/// The encoding of the optional synchronization parts.
pub open spec fn spec_enc_sync_request(v: Option<SyncRequestModel>) -> Seq<u8> {
    match v {
        None => seq![0u8],
        Some(sr) => seq![1u8] + spec_enc_u64(sr.last_known_version) + spec_enc_string(sr.requester),
    }
}

pub open spec fn spec_dec_sync_request(s: Seq<u8>) -> Option<(Option<SyncRequestModel>, Seq<u8>)> {
    match spec_dec_u8(s) {
        None => None,
        Some((tag, r)) => if tag == 0 {
            Some((None, r))
        } else if tag == 1 {
            match spec_dec_u64(r) {
                None => None,
                Some((v, r2)) => match spec_dec_string(r2) {
                    None => None,
                    Some((q, r3)) => Some(
                        (Some(SyncRequestModel { last_known_version: v, requester: q }), r3),
                    ),
                },
            }
        } else {
            None
        },
    }
}

pub open spec fn spec_enc_opt_changes(v: Option<Seq<RibChangeModel>>) -> Seq<u8> {
    match v {
        None => seq![0u8],
        Some(cs) => seq![1u8] + spec_enc_u64(cs.len() as u64) + spec_enc_changes(cs),
    }
}

pub open spec fn spec_dec_opt_changes(s: Seq<u8>) -> Option<
    (Option<Seq<RibChangeModel>>, Seq<u8>),
> {
    match spec_dec_u8(s) {
        None => None,
        Some((tag, r)) => if tag == 0 {
            Some((None, r))
        } else if tag == 1 {
            match spec_dec_u64(r) {
                None => None,
                Some((cnt, r2)) => match spec_dec_changes(r2, cnt as nat) {
                    None => None,
                    Some((cs, r3)) => Some((Some(cs), r3)),
                },
            }
        } else {
            None
        },
    }
}

pub open spec fn spec_enc_opt_bytes(v: Option<Seq<u8>>) -> Seq<u8> {
    match v {
        None => seq![0u8],
        Some(bs) => seq![1u8] + spec_enc_bytes(bs),
    }
}

pub open spec fn spec_dec_opt_bytes(s: Seq<u8>) -> Option<(Option<Seq<u8>>, Seq<u8>)> {
    match spec_dec_u8(s) {
        None => None,
        Some((tag, r)) => if tag == 0 {
            Some((None, r))
        } else if tag == 1 {
            match spec_dec_bytes(r) {
                Some((x, r2)) => Some((Some(x), r2)),
                None => None,
            }
        } else {
            None
        },
    }
}

pub open spec fn spec_enc_sync_response(v: Option<SyncResponseModel>) -> Seq<u8> {
    match v {
        None => seq![0u8],
        Some(sr) => seq![1u8] + spec_enc_u64(sr.current_version) + spec_enc_opt_changes(sr.changes)
            + spec_enc_opt_bytes(sr.full_snapshot) + spec_enc_opt_string(sr.error),
    }
}

pub open spec fn spec_dec_sync_response(s: Seq<u8>) -> Option<
    (Option<SyncResponseModel>, Seq<u8>),
> {
    match spec_dec_u8(s) {
        None => None,
        Some((tag, r)) => if tag == 0 {
            Some((None, r))
        } else if tag == 1 {
            match spec_dec_u64(r) {
                None => None,
                Some((v, r2)) => match spec_dec_opt_changes(r2) {
                    None => None,
                    Some((cs, r3)) => match spec_dec_opt_bytes(r3) {
                        None => None,
                        Some((bs, r4)) => match spec_dec_opt_string(r4) {
                            None => None,
                            Some((e, r5)) => Some(
                                (Some(
                                    SyncResponseModel {
                                        current_version: v,
                                        changes: cs,
                                        full_snapshot: bs,
                                        error: e,
                                    },
                                ), r5),
                            ),
                        },
                    },
                },
            }
        } else {
            None
        },
    }
}

/// The encoding of an optional value.
pub open spec fn spec_enc_opt_value(v: Option<RibValueModel>) -> Seq<u8> {
    match v {
        None => seq![0u8],
        Some(x) => seq![1u8] + spec_enc_value(x),
    }
}

pub open spec fn spec_dec_opt_value(s: Seq<u8>) -> Option<(Option<RibValueModel>, Seq<u8>)> {
    match spec_dec_u8(s) {
        None => None,
        Some((tag, r)) => if tag == 0 {
            Some((None, r))
        } else if tag == 1 {
            match spec_dec_value(r) {
                Some((x, r2)) => Some((Some(x), r2)),
                None => None,
            }
        } else {
            None
        },
    }
}

/// The wire encoding of a whole CDAP message.
pub open spec fn spec_enc_cdap(m: CdapMessageModel) -> Seq<u8> {
    spec_enc_op(m.op_code) + spec_enc_string(m.obj_name) + spec_enc_opt_string(m.obj_class)
        + spec_enc_opt_value(m.obj_value) + spec_enc_u64(m.invoke_id) + spec_enc_u32(
        m.result as u32,
    ) + spec_enc_opt_string(m.result_reason) + spec_enc_sync_request(m.sync_request)
        + spec_enc_sync_response(m.sync_response)
}

pub open spec fn spec_dec_cdap(s: Seq<u8>) -> Option<(CdapMessageModel, Seq<u8>)> {
    match spec_dec_op(s) {
        None => None,
        Some((op_code, r1)) => match spec_dec_string(r1) {
            None => None,
            Some((obj_name, r2)) => match spec_dec_opt_string(r2) {
                None => None,
                Some((obj_class, r3)) => match spec_dec_opt_value(r3) {
                    None => None,
                    Some((obj_value, r4)) => match spec_dec_u64(r4) {
                        None => None,
                        Some((invoke_id, r5)) => match spec_dec_u32(r5) {
                            None => None,
                            Some((result_bits, r6)) => match spec_dec_opt_string(r6) {
                                None => None,
                                Some((result_reason, r7)) => match spec_dec_sync_request(r7) {
                                    None => None,
                                    Some((sync_request, r8)) => match spec_dec_sync_response(r8) {
                                        None => None,
                                        Some((sync_response, r9)) => Some(
                                            (CdapMessageModel {
                                                op_code,
                                                obj_name,
                                                obj_class,
                                                obj_value,
                                                invoke_id,
                                                result: result_bits as i32,
                                                result_reason,
                                                sync_request,
                                                sync_response,
                                            }, r9),
                                        ),
                                    },
                                },
                            },
                        },
                    },
                },
            },
        },
    }
}

fn enc_opt_string(out: &mut Vec<u8>, v: &Option<String>)
    ensures
        final(out)@ == old(out)@ + spec_enc_opt_string(
            match v {
                Some(s) => Some(s@),
                None => None,
            },
        ),
{
    match v {
        None => enc_u8(out, 0),
        Some(s) => {
            enc_u8(out, 1);
            enc_string(out, s.as_str());
        },
    }
    assert(final(out)@ =~= old(out)@ + spec_enc_opt_string(
        match v {
            Some(s) => Some(s@),
            None => None,
        },
    ));
}

fn dec_opt_string(data: &Vec<u8>, pos: usize) -> (r: Option<(Option<String>, usize)>)
    requires
        pos <= data@.len(),
    ensures
        match r {
            Some(v) => pos < v.1 <= data@.len() && spec_dec_opt_string(data@.skip(pos as int))
                == Some(
                (
                    match v.0 {
                        Some(s) => Some(s@),
                        None => None,
                    },
                    data@.skip(v.1 as int),
                ),
            ),
            None => spec_dec_opt_string(data@.skip(pos as int)) is None,
        },
{
    match dec_u8(data, pos) {
        None => None,
        Some((tag, pa)) => {
            if tag == 0 {
                Some((None, pa))
            } else if tag == 1 {
                match dec_string(data, pa) {
                    None => None,
                    Some((s, pb)) => Some((Some(s), pb)),
                }
            } else {
                None
            }
        },
    }
}

fn enc_sync_request_part(out: &mut Vec<u8>, v: &Option<SyncRequest>)
    ensures
        final(out)@ == old(out)@ + spec_enc_sync_request(
            match v {
                Some(s) => Some(s@),
                None => None,
            },
        ),
{
    match v {
        None => enc_u8(out, 0),
        Some(sr) => {
            enc_u8(out, 1);
            enc_u64(out, sr.last_known_version);
            enc_string(out, sr.requester.as_str());
        },
    }
    assert(final(out)@ =~= old(out)@ + spec_enc_sync_request(
        match v {
            Some(s) => Some(s@),
            None => None,
        },
    ));
}

fn dec_sync_request_part(data: &Vec<u8>, pos: usize) -> (r: Option<(Option<SyncRequest>, usize)>)
    requires
        pos <= data@.len(),
    ensures
        match r {
            Some(v) => pos < v.1 <= data@.len() && spec_dec_sync_request(data@.skip(pos as int))
                == Some(
                (
                    match v.0 {
                        Some(s) => Some(s@),
                        None => None,
                    },
                    data@.skip(v.1 as int),
                ),
            ),
            None => spec_dec_sync_request(data@.skip(pos as int)) is None,
        },
{
    match dec_u8(data, pos) {
        None => None,
        Some((tag, pa)) => {
            if tag == 0 {
                Some((None, pa))
            } else if tag == 1 {
                match dec_u64(data, pa) {
                    None => None,
                    Some((v, pb)) => match dec_string(data, pb) {
                        None => None,
                        Some((q, pc)) => Some(
                            (Some(SyncRequest { last_known_version: v, requester: q }), pc),
                        ),
                    },
                }
            } else {
                None
            }
        },
    }
}

#[verifier::loop_isolation(false)]
fn enc_opt_changes_part(out: &mut Vec<u8>, v: &Option<Vec<RibChange>>)
    ensures
        final(out)@ == old(out)@ + spec_enc_opt_changes(
            match v {
                Some(cs) => Some(changes_model(cs@)),
                None => None,
            },
        ),
{
    match v {
        None => enc_u8(out, 0),
        Some(cs) => {
            enc_u8(out, 1);
            enc_u64(out, cs.len() as u64);
            let ghost base = out@;
            let ghost models = changes_model(cs@);
            let mut i: usize = 0;
            while i < cs.len()
                invariant
                    i <= cs@.len(),
                    out@ == base + spec_enc_changes(models.take(i as int)),
                decreases cs@.len() - i,
            {
                let ghost taken = models.take(i as int);
                enc_change(out, &cs[i]);
                proof {
                    lemma_enc_changes_snoc(taken, models[i as int]);
                    assert(models.take(i as int + 1) =~= taken.push(models[i as int]));
                    assert(out@ =~= base + spec_enc_changes(models.take(i as int + 1)));
                }
                i = i + 1;
            }
            proof {
                assert(models.take(models.len() as int) =~= models);
            }
        },
    }
    assert(final(out)@ =~= old(out)@ + spec_enc_opt_changes(
        match v {
            Some(cs) => Some(changes_model(cs@)),
            None => None,
        },
    ));
}

fn dec_opt_changes_part(data: &Vec<u8>, pos: usize) -> (r: Option<
    (Option<Vec<RibChange>>, usize),
>)
    requires
        pos <= data@.len(),
    ensures
        match r {
            Some(v) => pos < v.1 <= data@.len() && spec_dec_opt_changes(data@.skip(pos as int))
                == Some(
                (
                    match v.0 {
                        Some(cs) => Some(changes_model(cs@)),
                        None => None,
                    },
                    data@.skip(v.1 as int),
                ),
            ),
            None => spec_dec_opt_changes(data@.skip(pos as int)) is None,
        },
{
    match dec_u8(data, pos) {
        None => None,
        Some((tag, pa)) => {
            if tag == 0 {
                Some((None, pa))
            } else if tag == 1 {
                match dec_u64(data, pa) {
                    None => None,
                    Some((cnt, pb)) => match dec_changes(data, pb, cnt) {
                        None => None,
                        Some((cs, pc)) => {
                            if pc > pos {
                                Some((Some(cs), pc))
                            } else {
                                proof {
                                    assert(false);
                                }
                                None
                            }
                        },
                    },
                }
            } else {
                None
            }
        },
    }
}

fn enc_sync_response_part(out: &mut Vec<u8>, v: &Option<SyncResponse>)
    ensures
        final(out)@ == old(out)@ + spec_enc_sync_response(
            match v {
                Some(s) => Some(s@),
                None => None,
            },
        ),
{
    match v {
        None => enc_u8(out, 0),
        Some(sr) => {
            enc_u8(out, 1);
            enc_u64(out, sr.current_version);
            enc_opt_changes_part(out, &sr.changes);
            match &sr.full_snapshot {
                None => enc_u8(out, 0),
                Some(bs) => {
                    enc_u8(out, 1);
                    enc_bytes(out, bs);
                },
            }
            enc_opt_string(out, &sr.error);
        },
    }
    assert(final(out)@ =~= old(out)@ + spec_enc_sync_response(
        match v {
            Some(s) => Some(s@),
            None => None,
        },
    ));
}

fn dec_sync_response_part(data: &Vec<u8>, pos: usize) -> (r: Option<
    (Option<SyncResponse>, usize),
>)
    requires
        pos <= data@.len(),
    ensures
        match r {
            Some(v) => pos < v.1 <= data@.len() && spec_dec_sync_response(data@.skip(pos as int))
                == Some(
                (
                    match v.0 {
                        Some(s) => Some(s@),
                        None => None,
                    },
                    data@.skip(v.1 as int),
                ),
            ),
            None => spec_dec_sync_response(data@.skip(pos as int)) is None,
        },
{
    match dec_u8(data, pos) {
        None => None,
        Some((tag, pa)) => {
            if tag == 0 {
                Some((None, pa))
            } else if tag == 1 {
                match dec_u64(data, pa) {
                    None => None,
                    Some((current_version, pb)) => match dec_opt_changes_part(data, pb) {
                        None => None,
                        Some((changes, pc)) => {
                            let full_and_pos: (Option<Vec<u8>>, usize) = match dec_u8(data, pc) {
                                None => {
                                    return None;
                                },
                                Some((t2, px)) => {
                                    if t2 == 0 {
                                        (None, px)
                                    } else if t2 == 1 {
                                        match dec_bytes(data, px) {
                                            None => {
                                                return None;
                                            },
                                            Some((bs, py)) => (Some(bs), py),
                                        }
                                    } else {
                                        return None;
                                    }
                                },
                            };
                            let full_snapshot = full_and_pos.0;
                            let pd = full_and_pos.1;
                            match dec_opt_string(data, pd) {
                                None => None,
                                Some((error, pe)) => Some(
                                    (
                                        Some(
                                            SyncResponse {
                                                current_version,
                                                changes,
                                                full_snapshot,
                                                error,
                                            },
                                        ),
                                        pe,
                                    ),
                                ),
                            }
                        },
                    },
                }
            } else {
                None
            }
        },
    }
}

fn enc_op(out: &mut Vec<u8>, op: CdapOpCode)
    ensures
        final(out)@ == old(out)@ + spec_enc_op(op),
{
    match op {
        CdapOpCode::Create => enc_u8(out, 0),
        CdapOpCode::Delete => enc_u8(out, 1),
        CdapOpCode::Read => enc_u8(out, 2),
        CdapOpCode::Write => enc_u8(out, 3),
        CdapOpCode::Start => enc_u8(out, 4),
        CdapOpCode::Stop => enc_u8(out, 5),
    }
}

fn dec_op(data: &Vec<u8>, pos: usize) -> (r: Option<(CdapOpCode, usize)>)
    requires
        pos <= data@.len(),
    ensures
        match r {
            Some(v) => pos < v.1 <= data@.len() && spec_dec_op(data@.skip(pos as int)) == Some(
                (v.0, data@.skip(v.1 as int)),
            ),
            None => spec_dec_op(data@.skip(pos as int)) is None,
        },
{
    match dec_u8(data, pos) {
        None => None,
        Some((tag, p)) => {
            if tag == 0 {
                Some((CdapOpCode::Create, p))
            } else if tag == 1 {
                Some((CdapOpCode::Delete, p))
            } else if tag == 2 {
                Some((CdapOpCode::Read, p))
            } else if tag == 3 {
                Some((CdapOpCode::Write, p))
            } else if tag == 4 {
                Some((CdapOpCode::Start, p))
            } else if tag == 5 {
                Some((CdapOpCode::Stop, p))
            } else {
                None
            }
        },
    }
}

fn dec_opt_value_part(data: &Vec<u8>, pos: usize) -> (r: Option<(Option<RibValue>, usize)>)
    requires
        pos <= data@.len(),
    ensures
        match r {
            Some(v) => pos < v.1 <= data@.len() && spec_dec_opt_value(data@.skip(pos as int))
                == Some(
                (
                    match v.0 {
                        Some(x) => Some(x@),
                        None => None,
                    },
                    data@.skip(v.1 as int),
                ),
            ),
            None => spec_dec_opt_value(data@.skip(pos as int)) is None,
        },
{
    match dec_u8(data, pos) {
        None => None,
        Some((tag, pa)) => {
            if tag == 0 {
                Some((None, pa))
            } else if tag == 1 {
                match dec_value(data, pa) {
                    None => None,
                    Some((x, pb)) => Some((Some(x), pb)),
                }
            } else {
                None
            }
        },
    }
}

impl CdapMessage {
    /// Encodes this message for the wire.
    pub fn serialize(&self) -> (r: Result<Vec<u8>, CdapError>)
        ensures
            r matches Ok(bytes) && bytes@ == spec_enc_cdap(self@),
    {
        let mut out: Vec<u8> = Vec::new();
        enc_op(&mut out, self.op_code);
        enc_string(&mut out, self.obj_name.as_str());
        enc_opt_string(&mut out, &self.obj_class);
        match &self.obj_value {
            None => enc_u8(&mut out, 0),
            Some(v) => {
                enc_u8(&mut out, 1);
                enc_value(&mut out, v);
            },
        }
        enc_u64(&mut out, self.invoke_id);
        enc_u32(&mut out, self.result as u32);
        enc_opt_string(&mut out, &self.result_reason);
        enc_sync_request_part(&mut out, &self.sync_request);
        enc_sync_response_part(&mut out, &self.sync_response);
        proof {
            assert(out@ =~= spec_enc_cdap(self@));
        }
        Ok(out)
    }

    /// Decodes a message from the wire; fails exactly on malformed or
    /// trailing bytes.
    pub fn deserialize(data: &Vec<u8>) -> (r: Result<CdapMessage, CdapError>)
        ensures
            match r {
                Ok(m) => spec_dec_cdap(data@) == Some((m@, Seq::<u8>::empty())),
                Err(_) => match spec_dec_cdap(data@) {
                    Some((m, rest)) => rest.len() > 0,
                    None => true,
                },
            },
    {
        proof {
            assert(data@.skip(0) =~= data@);
        }
        let (op_code, p1) = match dec_op(data, 0) {
            None => {
                return Err(cdap_malformed());
            },
            Some(v) => v,
        };
        let (obj_name, p2) = match dec_string(data, p1) {
            None => {
                return Err(cdap_malformed());
            },
            Some(v) => v,
        };
        let (obj_class, p3) = match dec_opt_string(data, p2) {
            None => {
                return Err(cdap_malformed());
            },
            Some(v) => v,
        };
        let (obj_value, p4) = match dec_opt_value_part(data, p3) {
            None => {
                return Err(cdap_malformed());
            },
            Some(v) => v,
        };
        let (invoke_id, p5) = match dec_u64(data, p4) {
            None => {
                return Err(cdap_malformed());
            },
            Some(v) => v,
        };
        let (result_bits, p6) = match dec_u32(data, p5) {
            None => {
                return Err(cdap_malformed());
            },
            Some(v) => v,
        };
        let (result_reason, p7) = match dec_opt_string(data, p6) {
            None => {
                return Err(cdap_malformed());
            },
            Some(v) => v,
        };
        let (sync_request, p8) = match dec_sync_request_part(data, p7) {
            None => {
                return Err(cdap_malformed());
            },
            Some(v) => v,
        };
        let (sync_response, p9) = match dec_sync_response_part(data, p8) {
            None => {
                return Err(cdap_malformed());
            },
            Some(v) => v,
        };
        if p9 != data.len() {
            return Err(cdap_malformed());
        }
        proof {
            assert(data@.skip(p9 as int) =~= Seq::<u8>::empty());
        }
        Ok(
            CdapMessage {
                op_code,
                obj_name,
                obj_class,
                obj_value,
                invoke_id,
                result: result_bits as i32,
                result_reason,
                sync_request,
                sync_response,
            },
        )
    }
}

/// The error returned for any malformed CDAP bytes.
fn cdap_malformed() -> (e: CdapError)
    ensures
        e matches CdapError::InvalidFormat(_),
{
    let mut msg = String::new();
    msg.append("malformed CDAP message");
    CdapError::InvalidFormat(msg)
}

/// Encoding one more change at the end of the list.
proof fn lemma_enc_changes_snoc(cs: Seq<RibChangeModel>, c: RibChangeModel)
    ensures
        spec_enc_changes(cs.push(c)) == spec_enc_changes(cs) + spec_enc_change(c),
    decreases cs.len(),
{
    reveal_with_fuel(spec_enc_changes, 3);
    if cs.len() == 0 {
        assert(cs.push(c)[0] == c);
        assert(cs.push(c).drop_first() =~= Seq::<RibChangeModel>::empty());
        assert(spec_enc_changes(cs.push(c)) =~= spec_enc_changes(cs) + spec_enc_change(c));
    } else {
        assert(cs.push(c)[0] == cs[0]);
        assert(cs.push(c).drop_first() =~= cs.drop_first().push(c));
        lemma_enc_changes_snoc(cs.drop_first(), c);
        assert(spec_enc_changes(cs.push(c)) =~= spec_enc_changes(cs) + spec_enc_change(c));
    }
}

/// Decodes `cnt` changes at `pos`, agreeing with `spec_dec_changes`.
#[verifier::loop_isolation(false)]
fn dec_changes(data: &Vec<u8>, pos: usize, cnt: u64) -> (r: Option<(Vec<RibChange>, usize)>)
    requires
        pos <= data@.len(),
    ensures
        match r {
            Some(v) => pos <= v.1 <= data@.len() && spec_dec_changes(
                data@.skip(pos as int),
                cnt as nat,
            ) == Some((changes_model(v.0@), data@.skip(v.1 as int))),
            None => spec_dec_changes(data@.skip(pos as int), cnt as nat) is None,
        },
{
    let mut out: Vec<RibChange> = Vec::new();
    let mut j: u64 = 0;
    let mut cur: usize = pos;
    proof {
        assert(changes_model(out@) =~= Seq::<RibChangeModel>::empty());
    }
    while j < cnt
        invariant
            pos <= cur <= data@.len(),
            j <= cnt,
            forall|fs: Seq<RibChangeModel>, rr: Seq<u8>|
                spec_dec_changes(data@.skip(cur as int), (cnt - j) as nat) == Some::<
                    (Seq<RibChangeModel>, Seq<u8>),
                >((fs, rr)) ==> spec_dec_changes(data@.skip(pos as int), cnt as nat) == Some::<
                    (Seq<RibChangeModel>, Seq<u8>),
                >((changes_model(out@) + fs, rr)),
            spec_dec_changes(data@.skip(cur as int), (cnt - j) as nat) is None ==> spec_dec_changes(
                data@.skip(pos as int),
                cnt as nat,
            ) is None,
        decreases cnt - j,
    {
        let ghost pre_out = changes_model(out@);
        let ghost s_cur = data@.skip(cur as int);
        match dec_change(data, cur) {
            None => {
                proof {
                    assert(spec_dec_changes(s_cur, (cnt - j) as nat) is None);
                }
                return None;
            },
            Some((c, p2)) => {
                let ghost gc = c@;
                out.push(c);
                proof {
                    assert(changes_model(out@) =~= pre_out.push(gc));
                    assert(data@.skip(p2 as int).len() < s_cur.len());
                    assert forall|fs: Seq<RibChangeModel>, rr: Seq<u8>|
                        spec_dec_changes(data@.skip(p2 as int), (cnt - j - 1) as nat) == Some::<
                            (Seq<RibChangeModel>, Seq<u8>),
                        >((fs, rr)) implies spec_dec_changes(data@.skip(pos as int), cnt as nat)
                        == Some::<(Seq<RibChangeModel>, Seq<u8>)>(
                        (changes_model(out@) + fs, rr),
                    ) by {
                        assert(spec_dec_changes(s_cur, (cnt - j) as nat) == Some::<
                            (Seq<RibChangeModel>, Seq<u8>),
                        >((seq![gc] + fs, rr)));
                        assert(pre_out + (seq![gc] + fs) =~= changes_model(out@) + fs);
                    }
                    if spec_dec_changes(data@.skip(p2 as int), (cnt - j - 1) as nat) is None {
                        assert(spec_dec_changes(s_cur, (cnt - j) as nat) is None);
                    }
                }
                cur = p2;
                j = j + 1;
            },
        }
    }
    proof {
        assert(spec_dec_changes(data@.skip(cur as int), 0nat) == Some::<
            (Seq<RibChangeModel>, Seq<u8>),
        >((Seq::empty(), data@.skip(cur as int))));
        assert(changes_model(out@) + Seq::<RibChangeModel>::empty() =~= changes_model(out@));
    }
    Some((out, cur))
}

} // verus!
