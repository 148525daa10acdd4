//! Protocol Data Units: the packets exchanged on the wire.
//!
//! A PDU carries addresses, connection endpoint identifiers, a sequence
//! number, a type tag, a payload and QoS parameters.  Its wire form uses
//! the length-prefixed binary codec, and decoding inverts encoding.

use vstd::prelude::*;
use crate::codec::{spec_enc_u8, spec_enc_u32, spec_enc_u64, spec_enc_bytes, spec_dec_u8,
    spec_dec_u32, spec_dec_u64, spec_dec_bytes, lemma_dec_enc_u8, lemma_dec_enc_u32,
    lemma_dec_enc_u64, lemma_dec_enc_bytes, enc_u8, enc_u32, enc_u64, enc_bytes, dec_u8, dec_u32,
    dec_u64, dec_bytes};
use crate::error::RmtError;

verus! {

broadcast use vstd::seq_lib::group_seq_lib_default, vstd::seq::group_seq_axioms, vstd::std_specs::vec::group_vec_axioms;

/// The kind of a PDU.
#[derive(Debug, Clone, Copy, PartialEq, Eq, Structural)]
pub enum PduType {
    /// Data transfer.
    Data,
    /// Acknowledgment; `sequence_num` is the cumulatively acknowledged one.
    Ack,
    /// Flow control and similar in-band control.
    Control,
    /// Management: carries a CDAP message, both CEP ids are 0.
    Management,
}

/// Quality-of-service parameters carried by each PDU.
#[derive(Debug, Clone, Copy, PartialEq, Eq, Structural)]
pub struct QoSParameters {
    /// Priority, 0-255, higher is more important.
    pub priority: u8,
    /// Maximum tolerated delay in milliseconds.
    pub max_delay_ms: Option<u32>,
    /// Minimum required bandwidth in bytes per second.
    pub min_bandwidth_bps: Option<u64>,
    /// Maximum tolerated loss rate, 0-100.
    pub max_loss_rate: Option<u8>,
}

impl Default for QoSParameters {
    /// Medium priority, no other constraints.
    fn default() -> (r: Self)
        ensures
            r == (QoSParameters {
                priority: 128u8,
                max_delay_ms: None::<u32>,
                min_bandwidth_bps: None::<u64>,
                max_loss_rate: None::<u8>,
            }),
    {
        QoSParameters { priority: 128, max_delay_ms: None, min_bandwidth_bps: None, max_loss_rate: None }
    }
}

/// Mathematical model of a PDU: the payload becomes a byte sequence.
pub struct PduModel {
    pub src_addr: u64,
    pub dst_addr: u64,
    pub src_cep_id: u32,
    pub dst_cep_id: u32,
    pub sequence_num: u64,
    pub pdu_type: PduType,
    pub payload: Seq<u8>,
    pub qos: QoSParameters,
}

/// A protocol data unit.
#[derive(Debug)]
pub struct Pdu {
    /// Source RINA address.
    pub src_addr: u64,
    /// Destination RINA address.
    pub dst_addr: u64,
    /// Source connection endpoint id; 0 means management.
    pub src_cep_id: u32,
    /// Destination connection endpoint id; 0 means management.
    pub dst_cep_id: u32,
    /// Sequence number for ordering and flow control.
    pub sequence_num: u64,
    /// The kind of this PDU.
    pub pdu_type: PduType,
    /// Payload bytes.
    pub payload: Vec<u8>,
    /// Quality-of-service parameters.
    pub qos: QoSParameters,
}

impl View for Pdu {
    type V = PduModel;

    open spec fn view(&self) -> PduModel {
        PduModel {
            src_addr: self.src_addr,
            dst_addr: self.dst_addr,
            src_cep_id: self.src_cep_id,
            dst_cep_id: self.dst_cep_id,
            sequence_num: self.sequence_num,
            pdu_type: self.pdu_type,
            payload: self.payload@,
            qos: self.qos,
        }
    }
}

impl Clone for Pdu {
    /// Cloning keeps the PDU's model.
    fn clone(&self) -> (r: Self)
        ensures
            r@ == self@,
    {
        let payload = self.payload.clone();
        assert(payload@ =~= self.payload@);
        Pdu {
            src_addr: self.src_addr,
            dst_addr: self.dst_addr,
            src_cep_id: self.src_cep_id,
            dst_cep_id: self.dst_cep_id,
            sequence_num: self.sequence_num,
            pdu_type: self.pdu_type,
            payload,
            qos: self.qos,
        }
    }
}

impl Pdu {
    /// A data PDU with default QoS.
    pub fn new_data(
        src_addr: u64,
        dst_addr: u64,
        src_cep_id: u32,
        dst_cep_id: u32,
        sequence_num: u64,
        payload: Vec<u8>,
    ) -> (r: Self)
        ensures
            r@ == (PduModel {
                src_addr,
                dst_addr,
                src_cep_id,
                dst_cep_id,
                sequence_num,
                pdu_type: PduType::Data,
                payload: payload@,
                qos: QoSParameters {
                    priority: 128u8,
                    max_delay_ms: None::<u32>,
                    min_bandwidth_bps: None::<u64>,
                    max_loss_rate: None::<u8>,
                },
            }),
    {
        Pdu {
            src_addr,
            dst_addr,
            src_cep_id,
            dst_cep_id,
            sequence_num,
            pdu_type: PduType::Data,
            payload,
            qos: QoSParameters::default(),
        }
    }

    /// A data PDU with explicit QoS.
    pub fn new_data_with_qos(
        src_addr: u64,
        dst_addr: u64,
        src_cep_id: u32,
        dst_cep_id: u32,
        sequence_num: u64,
        payload: Vec<u8>,
        qos: QoSParameters,
    ) -> (r: Self)
        ensures
            r@ == (PduModel {
                src_addr,
                dst_addr,
                src_cep_id,
                dst_cep_id,
                sequence_num,
                pdu_type: PduType::Data,
                payload: payload@,
                qos,
            }),
    {
        Pdu { src_addr, dst_addr, src_cep_id, dst_cep_id, sequence_num, pdu_type: PduType::Data, payload, qos }
    }

    /// An acknowledgment for everything up to and including `ack_num`.
    pub fn new_ack(src_addr: u64, dst_addr: u64, src_cep_id: u32, dst_cep_id: u32, ack_num: u64) -> (r:
        Self)
        ensures
            r@.pdu_type == PduType::Ack,
            r@.sequence_num == ack_num,
            r@.src_addr == src_addr,
            r@.dst_addr == dst_addr,
            r@.src_cep_id == src_cep_id,
            r@.dst_cep_id == dst_cep_id,
            r@.payload == Seq::<u8>::empty(),
            r@.qos == (QoSParameters {
                priority: 128u8,
                max_delay_ms: None::<u32>,
                min_bandwidth_bps: None::<u64>,
                max_loss_rate: None::<u8>,
            }),
    {
        let payload: Vec<u8> = Vec::new();
        proof {
            assert(payload@ =~= Seq::<u8>::empty());
        }
        Pdu {
            src_addr,
            dst_addr,
            src_cep_id,
            dst_cep_id,
            sequence_num: ack_num,
            pdu_type: PduType::Ack,
            payload,
            qos: QoSParameters::default(),
        }
    }

    /// A management PDU: both CEP ids 0, sequence 0, CDAP payload.
    pub fn new_management(src_addr: u64, dst_addr: u64, payload: Vec<u8>) -> (r: Self)
        ensures
            r@.pdu_type == PduType::Management,
            r@.src_cep_id == 0,
            r@.dst_cep_id == 0,
            r@.sequence_num == 0,
            r@.src_addr == src_addr,
            r@.dst_addr == dst_addr,
            r@.payload == payload@,
            r@.qos == (QoSParameters {
                priority: 128u8,
                max_delay_ms: None::<u32>,
                min_bandwidth_bps: None::<u64>,
                max_loss_rate: None::<u8>,
            }),
    {
        Pdu {
            src_addr,
            dst_addr,
            src_cep_id: 0,
            dst_cep_id: 0,
            sequence_num: 0,
            pdu_type: PduType::Management,
            payload,
            qos: QoSParameters::default(),
        }
    }

    /// Nominal size: the 33-byte fixed header plus the payload.
    pub fn size(&self) -> (r: usize)
        requires
            self.payload@.len() + 33 <= usize::MAX,
        ensures
            r == 33 + self.payload@.len(),
    {
        33 + self.payload.len()
    }

    /// True exactly for data PDUs.
    pub fn is_data(&self) -> (r: bool)
        ensures
            r == (self.pdu_type == PduType::Data),
    {
        self.pdu_type == PduType::Data
    }

    /// True exactly for acknowledgment PDUs.
    pub fn is_ack(&self) -> (r: bool)
        ensures
            r == (self.pdu_type == PduType::Ack),
    {
        self.pdu_type == PduType::Ack
    }

    /// True exactly for management PDUs.
    pub fn is_management(&self) -> (r: bool)
        ensures
            r == (self.pdu_type == PduType::Management),
    {
        self.pdu_type == PduType::Management
    }
}

// ---------------------------------------------------------------------------
// Wire form
// ---------------------------------------------------------------------------
/// The tag byte of a PDU type.
pub open spec fn spec_enc_pdu_type(t: PduType) -> Seq<u8> {
    match t {
        PduType::Data => seq![0u8],
        PduType::Ack => seq![1u8],
        PduType::Control => seq![2u8],
        PduType::Management => seq![3u8],
    }
}

pub open spec fn spec_dec_pdu_type(s: Seq<u8>) -> Option<(PduType, Seq<u8>)> {
    match spec_dec_u8(s) {
        None => None,
        Some((tag, r)) => if tag == 0 {
            Some((PduType::Data, r))
        } else if tag == 1 {
            Some((PduType::Ack, r))
        } else if tag == 2 {
            Some((PduType::Control, r))
        } else if tag == 3 {
            Some((PduType::Management, r))
        } else {
            None
        },
    }
}

/// The encoding of an optional value: a presence byte, then the value.
pub open spec fn spec_enc_opt_u32(v: Option<u32>) -> Seq<u8> {
    match v {
        None => seq![0u8],
        Some(x) => seq![1u8] + spec_enc_u32(x),
    }
}

pub open spec fn spec_dec_opt_u32(s: Seq<u8>) -> Option<(Option<u32>, Seq<u8>)> {
    match spec_dec_u8(s) {
        None => None,
        Some((tag, r)) => if tag == 0 {
            Some((None, r))
        } else if tag == 1 {
            match spec_dec_u32(r) {
                Some((x, r2)) => Some((Some(x), r2)),
                None => None,
            }
        } else {
            None
        },
    }
}

pub open spec fn spec_enc_opt_u64(v: Option<u64>) -> Seq<u8> {
    match v {
        None => seq![0u8],
        Some(x) => seq![1u8] + spec_enc_u64(x),
    }
}

pub open spec fn spec_dec_opt_u64(s: Seq<u8>) -> Option<(Option<u64>, Seq<u8>)> {
    match spec_dec_u8(s) {
        None => None,
        Some((tag, r)) => if tag == 0 {
            Some((None, r))
        } else if tag == 1 {
            match spec_dec_u64(r) {
                Some((x, r2)) => Some((Some(x), r2)),
                None => None,
            }
        } else {
            None
        },
    }
}

pub open spec fn spec_enc_opt_u8(v: Option<u8>) -> Seq<u8> {
    match v {
        None => seq![0u8],
        Some(x) => seq![1u8] + spec_enc_u8(x),
    }
}

pub open spec fn spec_dec_opt_u8(s: Seq<u8>) -> Option<(Option<u8>, Seq<u8>)> {
    match spec_dec_u8(s) {
        None => None,
        Some((tag, r)) => if tag == 0 {
            Some((None, r))
        } else if tag == 1 {
            match spec_dec_u8(r) {
                Some((x, r2)) => Some((Some(x), r2)),
                None => None,
            }
        } else {
            None
        },
    }
}

/// The encoding of the QoS parameters.
pub open spec fn spec_enc_qos(q: QoSParameters) -> Seq<u8> {
    spec_enc_u8(q.priority) + spec_enc_opt_u32(q.max_delay_ms) + spec_enc_opt_u64(
        q.min_bandwidth_bps,
    ) + spec_enc_opt_u8(q.max_loss_rate)
}

pub open spec fn spec_dec_qos(s: Seq<u8>) -> Option<(QoSParameters, Seq<u8>)> {
    match spec_dec_u8(s) {
        None => None,
        Some((priority, r1)) => match spec_dec_opt_u32(r1) {
            None => None,
            Some((max_delay_ms, r2)) => match spec_dec_opt_u64(r2) {
                None => None,
                Some((min_bandwidth_bps, r3)) => match spec_dec_opt_u8(r3) {
                    None => None,
                    Some((max_loss_rate, r4)) => Some(
                        (QoSParameters { priority, max_delay_ms, min_bandwidth_bps, max_loss_rate }, r4),
                    ),
                },
            },
        },
    }
}

/// The wire encoding of a whole PDU.
pub open spec fn spec_enc_pdu(p: PduModel) -> Seq<u8> {
    spec_enc_u64(p.src_addr) + spec_enc_u64(p.dst_addr) + spec_enc_u32(p.src_cep_id) + spec_enc_u32(
        p.dst_cep_id,
    ) + spec_enc_u64(p.sequence_num) + spec_enc_pdu_type(p.pdu_type) + spec_enc_bytes(p.payload)
        + spec_enc_qos(p.qos)
}

pub open spec fn spec_dec_pdu(s: Seq<u8>) -> Option<(PduModel, Seq<u8>)> {
    match spec_dec_u64(s) {
        None => None,
        Some((src_addr, r1)) => match spec_dec_u64(r1) {
            None => None,
            Some((dst_addr, r2)) => match spec_dec_u32(r2) {
                None => None,
                Some((src_cep_id, r3)) => match spec_dec_u32(r3) {
                    None => None,
                    Some((dst_cep_id, r4)) => match spec_dec_u64(r4) {
                        None => None,
                        Some((sequence_num, r5)) => match spec_dec_pdu_type(r5) {
                            None => None,
                            Some((pdu_type, r6)) => match spec_dec_bytes(r6) {
                                None => None,
                                Some((payload, r7)) => match spec_dec_qos(r7) {
                                    None => None,
                                    Some((qos, r8)) => Some(
                                        (PduModel {
                                            src_addr,
                                            dst_addr,
                                            src_cep_id,
                                            dst_cep_id,
                                            sequence_num,
                                            pdu_type,
                                            payload,
                                            qos,
                                        }, r8),
                                    ),
                                },
                            },
                        },
                    },
                },
            },
        },
    }
}

/// Decoding the encoding of a PDU, followed by anything, yields the PDU
/// back and leaves exactly the trailing bytes.
#[verifier::rlimit(60)]
pub proof fn lemma_dec_enc_pdu(p: PduModel, rest: Seq<u8>)
    requires
        p.payload.len() <= u64::MAX,
    ensures
        spec_dec_pdu(spec_enc_pdu(p) + rest) == Some((p, rest)),
{
    let t7 = spec_enc_qos(p.qos) + rest;
    let t6 = spec_enc_bytes(p.payload) + t7;
    let t5 = spec_enc_pdu_type(p.pdu_type) + t6;
    let t4 = spec_enc_u64(p.sequence_num) + t5;
    let t3 = spec_enc_u32(p.dst_cep_id) + t4;
    let t2 = spec_enc_u32(p.src_cep_id) + t3;
    let t1 = spec_enc_u64(p.dst_addr) + t2;
    let s = spec_enc_pdu(p) + rest;
    assert(s =~= spec_enc_u64(p.src_addr) + t1);
    lemma_dec_enc_u64(p.src_addr, t1);
    lemma_dec_enc_u64(p.dst_addr, t2);
    lemma_dec_enc_u32(p.src_cep_id, t3);
    lemma_dec_enc_u32(p.dst_cep_id, t4);
    lemma_dec_enc_u64(p.sequence_num, t5);
    lemma_dec_enc_pdu_type(p.pdu_type, t6);
    lemma_dec_enc_bytes(p.payload, t7);
    lemma_dec_enc_qos(p.qos, rest);
}

proof fn lemma_dec_enc_pdu_type(t: PduType, rest: Seq<u8>)
    ensures
        spec_dec_pdu_type(spec_enc_pdu_type(t) + rest) == Some((t, rest)),
{
    match t {
        PduType::Data => lemma_dec_enc_u8(0u8, rest),
        PduType::Ack => lemma_dec_enc_u8(1u8, rest),
        PduType::Control => lemma_dec_enc_u8(2u8, rest),
        PduType::Management => lemma_dec_enc_u8(3u8, rest),
    }
    assert(spec_enc_pdu_type(t) + rest =~= spec_enc_u8(spec_enc_pdu_type(t)[0]) + rest);
}

proof fn lemma_dec_enc_qos(q: QoSParameters, rest: Seq<u8>)
    ensures
        spec_dec_qos(spec_enc_qos(q) + rest) == Some((q, rest)),
{
    let t3 = spec_enc_opt_u8(q.max_loss_rate) + rest;
    let t2 = spec_enc_opt_u64(q.min_bandwidth_bps) + t3;
    let t1 = spec_enc_opt_u32(q.max_delay_ms) + t2;
    assert(spec_enc_qos(q) + rest =~= spec_enc_u8(q.priority) + t1);
    lemma_dec_enc_u8(q.priority, t1);
    match q.max_delay_ms {
        None => {
            assert(t1 =~= spec_enc_u8(0u8) + t2);
            lemma_dec_enc_u8(0u8, t2);
        },
        Some(x) => {
            assert(t1 =~= spec_enc_u8(1u8) + (spec_enc_u32(x) + t2));
            lemma_dec_enc_u8(1u8, spec_enc_u32(x) + t2);
            lemma_dec_enc_u32(x, t2);
        },
    }
    match q.min_bandwidth_bps {
        None => {
            assert(t2 =~= spec_enc_u8(0u8) + t3);
            lemma_dec_enc_u8(0u8, t3);
        },
        Some(x) => {
            assert(t2 =~= spec_enc_u8(1u8) + (spec_enc_u64(x) + t3));
            lemma_dec_enc_u8(1u8, spec_enc_u64(x) + t3);
            lemma_dec_enc_u64(x, t3);
        },
    }
    match q.max_loss_rate {
        None => {
            assert(t3 =~= spec_enc_u8(0u8) + rest);
            lemma_dec_enc_u8(0u8, rest);
        },
        Some(x) => {
            assert(t3 =~= spec_enc_u8(1u8) + (spec_enc_u8(x) + rest));
            lemma_dec_enc_u8(1u8, spec_enc_u8(x) + rest);
            lemma_dec_enc_u8(x, rest);
        },
    }
}

fn enc_pdu_type(out: &mut Vec<u8>, t: PduType)
    ensures
        final(out)@ == old(out)@ + spec_enc_pdu_type(t),
{
    match t {
        PduType::Data => enc_u8(out, 0),
        PduType::Ack => enc_u8(out, 1),
        PduType::Control => enc_u8(out, 2),
        PduType::Management => enc_u8(out, 3),
    }
}

fn dec_pdu_type(data: &Vec<u8>, pos: usize) -> (r: Option<(PduType, usize)>)
    requires
        pos <= data@.len(),
    ensures
        match r {
            Some(v) => pos < v.1 <= data@.len() && spec_dec_pdu_type(data@.skip(pos as int))
                == Some((v.0, data@.skip(v.1 as int))),
            None => spec_dec_pdu_type(data@.skip(pos as int)) is None,
        },
{
    match dec_u8(data, pos) {
        None => None,
        Some((tag, p1)) => {
            if tag == 0 {
                Some((PduType::Data, p1))
            } else if tag == 1 {
                Some((PduType::Ack, p1))
            } else if tag == 2 {
                Some((PduType::Control, p1))
            } else if tag == 3 {
                Some((PduType::Management, p1))
            } else {
                None
            }
        },
    }
}

fn enc_qos(out: &mut Vec<u8>, q: &QoSParameters)
    ensures
        final(out)@ == old(out)@ + spec_enc_qos(*q),
{
    enc_u8(out, q.priority);
    match q.max_delay_ms {
        None => enc_u8(out, 0),
        Some(x) => {
            enc_u8(out, 1);
            enc_u32(out, x);
        },
    }
    match q.min_bandwidth_bps {
        None => enc_u8(out, 0),
        Some(x) => {
            enc_u8(out, 1);
            enc_u64(out, x);
        },
    }
    match q.max_loss_rate {
        None => enc_u8(out, 0),
        Some(x) => {
            enc_u8(out, 1);
            enc_u8(out, x);
        },
    }
    assert(final(out)@ =~= old(out)@ + spec_enc_qos(*q));
}

fn dec_qos(data: &Vec<u8>, pos: usize) -> (r: Option<(QoSParameters, usize)>)
    requires
        pos <= data@.len(),
    ensures
        match r {
            Some(v) => pos < v.1 <= data@.len() && spec_dec_qos(data@.skip(pos as int)) == Some(
                (v.0, data@.skip(v.1 as int)),
            ),
            None => spec_dec_qos(data@.skip(pos as int)) is None,
        },
{
    match dec_u8(data, pos) {
        None => None,
        Some((priority, p1)) => {
            let max_delay_ms: Option<u32>;
            let p2: usize;
            match dec_u8(data, p1) {
                None => {
                    return None;
                },
                Some((tag, pa)) => {
                    if tag == 0 {
                        max_delay_ms = None;
                        p2 = pa;
                    } else if tag == 1 {
                        match dec_u32(data, pa) {
                            None => {
                                return None;
                            },
                            Some((x, pb)) => {
                                max_delay_ms = Some(x);
                                p2 = pb;
                            },
                        }
                    } else {
                        return None;
                    }
                },
            }
            let min_bandwidth_bps: Option<u64>;
            let p3: usize;
            match dec_u8(data, p2) {
                None => {
                    return None;
                },
                Some((tag, pa)) => {
                    if tag == 0 {
                        min_bandwidth_bps = None;
                        p3 = pa;
                    } else if tag == 1 {
                        match dec_u64(data, pa) {
                            None => {
                                return None;
                            },
                            Some((x, pb)) => {
                                min_bandwidth_bps = Some(x);
                                p3 = pb;
                            },
                        }
                    } else {
                        return None;
                    }
                },
            }
            let max_loss_rate: Option<u8>;
            let p4: usize;
            match dec_u8(data, p3) {
                None => {
                    return None;
                },
                Some((tag, pa)) => {
                    if tag == 0 {
                        max_loss_rate = None;
                        p4 = pa;
                    } else if tag == 1 {
                        match dec_u8(data, pa) {
                            None => {
                                return None;
                            },
                            Some((x, pb)) => {
                                max_loss_rate = Some(x);
                                p4 = pb;
                            },
                        }
                    } else {
                        return None;
                    }
                },
            }
            Some((QoSParameters { priority, max_delay_ms, min_bandwidth_bps, max_loss_rate }, p4))
        },
    }
}

impl Pdu {
    /// Encodes this PDU for the wire.
    pub fn serialize(&self) -> (r: Result<Vec<u8>, RmtError>)
        ensures
            r matches Ok(bytes) && bytes@ == spec_enc_pdu(self@),
    {
        let mut out: Vec<u8> = Vec::new();
        enc_u64(&mut out, self.src_addr);
        enc_u64(&mut out, self.dst_addr);
        enc_u32(&mut out, self.src_cep_id);
        enc_u32(&mut out, self.dst_cep_id);
        enc_u64(&mut out, self.sequence_num);
        enc_pdu_type(&mut out, self.pdu_type);
        enc_bytes(&mut out, &self.payload);
        enc_qos(&mut out, &self.qos);
        proof {
            assert(out@ =~= spec_enc_pdu(self@));
        }
        Ok(out)
    }

    /// Decodes a PDU from the wire; fails exactly on malformed or trailing
    /// bytes.
    pub fn deserialize(data: &Vec<u8>) -> (r: Result<Pdu, RmtError>)
        ensures
            match r {
                Ok(p) => spec_dec_pdu(data@) == Some((p@, Seq::<u8>::empty())),
                Err(_) => match spec_dec_pdu(data@) {
                    Some((p, rest)) => rest.len() > 0,
                    None => true,
                },
            },
    {
        proof {
            assert(data@.skip(0) =~= data@);
        }
        let malformed = || -> (e: RmtError)
            ensures
                e matches RmtError::InvalidPdu(_),
            {
                let mut msg = String::new();
                msg.append("malformed PDU");
                RmtError::InvalidPdu(msg)
            };
        match dec_u64(data, 0) {
            None => Err(malformed()),
            Some((src_addr, p1)) => match dec_u64(data, p1) {
                None => Err(malformed()),
                Some((dst_addr, p2)) => match dec_u32(data, p2) {
                    None => Err(malformed()),
                    Some((src_cep_id, p3)) => match dec_u32(data, p3) {
                        None => Err(malformed()),
                        Some((dst_cep_id, p4)) => match dec_u64(data, p4) {
                            None => Err(malformed()),
                            Some((sequence_num, p5)) => match dec_pdu_type(data, p5) {
                                None => Err(malformed()),
                                Some((pdu_type, p6)) => match dec_bytes(data, p6) {
                                    None => Err(malformed()),
                                    Some((payload, p7)) => match dec_qos(data, p7) {
                                        None => Err(malformed()),
                                        Some((qos, p8)) => {
                                            if p8 == data.len() {
                                                proof {
                                                    assert(data@.skip(p8 as int) =~= Seq::<
                                                        u8,
                                                    >::empty());
                                                }
                                                Ok(
                                                    Pdu {
                                                        src_addr,
                                                        dst_addr,
                                                        src_cep_id,
                                                        dst_cep_id,
                                                        sequence_num,
                                                        pdu_type,
                                                        payload,
                                                        qos,
                                                    },
                                                )
                                            } else {
                                                Err(malformed())
                                            }
                                        },
                                    },
                                },
                            },
                        },
                    },
                },
            },
        }
    }
}

} // verus!
