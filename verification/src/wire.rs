//! Wire encoding of RIB values, objects and snapshots.
//!
//! Everything on the wire uses the length-prefixed binary codec of
//! [`crate::codec`].  A value is a tag byte followed by its payload; a
//! struct value carries a field count and then each field as a
//! length-prefixed name and a nested value.  Decoding inverts encoding
//! exactly, which is what makes full RIB synchronization lossless.

use vstd::prelude::*;
use crate::codec::{spec_enc_string, spec_enc_i64, spec_enc_bool, spec_enc_bytes, spec_enc_u64,
    spec_dec_string, spec_dec_i64, spec_dec_bool, spec_dec_bytes, spec_dec_u64, spec_dec_u8,
    lemma_dec_enc_u8, lemma_dec_enc_string, lemma_dec_enc_i64, lemma_dec_enc_bool,
    lemma_dec_enc_bytes, lemma_dec_enc_u64, enc_u8, enc_string, enc_i64, enc_bool, enc_bytes,
    enc_u64, dec_u8, dec_string, dec_i64, dec_bool, dec_bytes, dec_u64};
use crate::error::RibError;
use crate::rib::{RibValue, RibValueModel, fields_model, lemma_fields_model, Rib, RibObject,
    RibObjectModel, objects_model, spec_merge, spec_merge_count, spec_merge_one,
    spec_max_u64, spec_max_version, spec_names_unique, spec_index_of, lemma_index_of,
    spec_current_version};

verus! {

broadcast use vstd::seq_lib::group_seq_lib_default, vstd::seq::group_seq_axioms, vstd::std_specs::vec::group_vec_axioms;

pub const TAG_STRING: u8 = 0;

pub const TAG_INTEGER: u8 = 1;

pub const TAG_BOOLEAN: u8 = 2;

pub const TAG_BYTES: u8 = 3;

pub const TAG_STRUCT: u8 = 4;

// ---------------------------------------------------------------------------
// Specification: encoding
// ---------------------------------------------------------------------------
/// The byte encoding of a value.
pub open spec fn spec_enc_value(v: RibValueModel) -> Seq<u8>
    decreases v,
{
    match v {
        RibValueModel::String(s) => seq![TAG_STRING] + spec_enc_string(s),
        RibValueModel::Integer(i) => seq![TAG_INTEGER] + spec_enc_i64(i),
        RibValueModel::Boolean(b) => seq![TAG_BOOLEAN] + spec_enc_bool(b),
        RibValueModel::Bytes(bs) => seq![TAG_BYTES] + spec_enc_bytes(bs),
        RibValueModel::Struct(fields) => seq![TAG_STRUCT] + spec_enc_u64(fields.len() as u64)
            + spec_enc_fields(fields),
    }
}

/// The byte encoding of a struct's fields, in order.
pub open spec fn spec_enc_fields(fields: Seq<(Seq<char>, RibValueModel)>) -> Seq<u8>
    decreases fields,
{
    if fields.len() == 0 {
        Seq::empty()
    } else {
        spec_enc_string(fields[0].0) + spec_enc_value(fields[0].1) + spec_enc_fields(
            fields.drop_first(),
        )
    }
}

/// Every encoded value starts with its tag byte.
pub proof fn lemma_enc_value_len(v: RibValueModel)
    ensures
        spec_enc_value(v).len() >= 1,
{
}

// ---------------------------------------------------------------------------
// Specification: decoding (value, remaining bytes)
// ---------------------------------------------------------------------------
/// Decodes one value from the front of `s`.
pub open spec fn spec_dec_value(s: Seq<u8>) -> Option<(RibValueModel, Seq<u8>)>
    decreases s.len(),
{
    match spec_dec_u8(s) {
        None => None,
        Some((tag, r1)) => if tag == TAG_STRING {
            match spec_dec_string(r1) {
                Some((x, r2)) => Some((RibValueModel::String(x), r2)),
                None => None,
            }
        } else if tag == TAG_INTEGER {
            match spec_dec_i64(r1) {
                Some((x, r2)) => Some((RibValueModel::Integer(x), r2)),
                None => None,
            }
        } else if tag == TAG_BOOLEAN {
            match spec_dec_bool(r1) {
                Some((x, r2)) => Some((RibValueModel::Boolean(x), r2)),
                None => None,
            }
        } else if tag == TAG_BYTES {
            match spec_dec_bytes(r1) {
                Some((x, r2)) => Some((RibValueModel::Bytes(x), r2)),
                None => None,
            }
        } else if tag == TAG_STRUCT {
            match spec_dec_u64(r1) {
                Some((cnt, r2)) => if r2.len() < s.len() {
                    match spec_dec_fields(r2, cnt as nat) {
                        Some((fields, r3)) => Some((RibValueModel::Struct(fields), r3)),
                        None => None,
                    }
                } else {
                    None
                },
                None => None,
            }
        } else {
            None
        },
    }
}

/// Decodes `cnt` struct fields from the front of `s`.
pub open spec fn spec_dec_fields(s: Seq<u8>, cnt: nat) -> Option<
    (Seq<(Seq<char>, RibValueModel)>, Seq<u8>),
>
    decreases s.len(), cnt,
{
    if cnt == 0 {
        Some((Seq::empty(), s))
    } else {
        match spec_dec_string(s) {
            None => None,
            Some((name, r1)) => if r1.len() < s.len() {
                match spec_dec_value(r1) {
                    None => None,
                    Some((v, r2)) => if r2.len() < s.len() {
                        match spec_dec_fields(r2, (cnt - 1) as nat) {
                            Some((fields, r3)) => Some((seq![(name, v)] + fields, r3)),
                            None => None,
                        }
                    } else {
                        None
                    },
                }
            } else {
                None
            },
        }
    }
}

// ---------------------------------------------------------------------------
// Length bounds: the 64-bit length prefixes must fit
// ---------------------------------------------------------------------------
/// Every length-prefixed part of the value fits its 64-bit prefix.
pub open spec fn spec_value_fits(v: RibValueModel) -> bool
    decreases v,
{
    match v {
        RibValueModel::String(s) => vstd::utf8::encode_utf8(s).len() <= u64::MAX,
        RibValueModel::Integer(_) => true,
        RibValueModel::Boolean(_) => true,
        RibValueModel::Bytes(bs) => bs.len() <= u64::MAX,
        RibValueModel::Struct(fields) => fields.len() <= u64::MAX && spec_fields_fit(fields),
    }
}

pub open spec fn spec_fields_fit(fields: Seq<(Seq<char>, RibValueModel)>) -> bool
    decreases fields,
{
    if fields.len() == 0 {
        true
    } else {
        vstd::utf8::encode_utf8(fields[0].0).len() <= u64::MAX && spec_value_fits(fields[0].1)
            && spec_fields_fit(fields.drop_first())
    }
}

// ---------------------------------------------------------------------------
// Round trip: decoding inverts encoding
// ---------------------------------------------------------------------------
/// Decoding the encoding of a value, followed by anything, yields the value
/// back and leaves exactly the trailing bytes.
pub proof fn lemma_dec_enc_value(v: RibValueModel, rest: Seq<u8>)
    requires
        spec_value_fits(v),
    ensures
        spec_dec_value(spec_enc_value(v) + rest) == Some((v, rest)),
    decreases v,
{
    let s = spec_enc_value(v) + rest;
    match v {
        RibValueModel::String(x) => {
            assert(s =~= seq![TAG_STRING] + (spec_enc_string(x) + rest));
            lemma_dec_enc_u8(TAG_STRING, spec_enc_string(x) + rest);
            lemma_dec_enc_string(x, rest);
        },
        RibValueModel::Integer(x) => {
            assert(s =~= seq![TAG_INTEGER] + (spec_enc_i64(x) + rest));
            lemma_dec_enc_u8(TAG_INTEGER, spec_enc_i64(x) + rest);
            lemma_dec_enc_i64(x, rest);
        },
        RibValueModel::Boolean(x) => {
            assert(s =~= seq![TAG_BOOLEAN] + (spec_enc_bool(x) + rest));
            lemma_dec_enc_u8(TAG_BOOLEAN, spec_enc_bool(x) + rest);
            lemma_dec_enc_bool(x, rest);
        },
        RibValueModel::Bytes(x) => {
            assert(s =~= seq![TAG_BYTES] + (spec_enc_bytes(x) + rest));
            lemma_dec_enc_u8(TAG_BYTES, spec_enc_bytes(x) + rest);
            lemma_dec_enc_bytes(x, rest);
        },
        RibValueModel::Struct(fields) => {
            let cnt = fields.len() as u64;
            let tail2 = spec_enc_fields(fields) + rest;
            let tail1 = spec_enc_u64(cnt) + tail2;
            assert(s =~= seq![TAG_STRUCT] + tail1);
            lemma_dec_enc_u8(TAG_STRUCT, tail1);
            lemma_dec_enc_u64(cnt, tail2);
            assert(tail2.len() < s.len());
            lemma_dec_enc_fields(fields, rest);
            assert(spec_dec_fields(tail2, cnt as nat) == Some((fields, rest)));
        },
    }
}

/// Decoding the encoding of a field list, followed by anything, yields the
/// fields back and leaves exactly the trailing bytes.
pub proof fn lemma_dec_enc_fields(fields: Seq<(Seq<char>, RibValueModel)>, rest: Seq<u8>)
    requires
        spec_fields_fit(fields),
    ensures
        spec_dec_fields(spec_enc_fields(fields) + rest, fields.len() as nat) == Some(
            (fields, rest),
        ),
    decreases fields,
{
    let s = spec_enc_fields(fields) + rest;
    if fields.len() == 0 {
        assert(s =~= rest);
        assert(fields =~= Seq::<(Seq<char>, RibValueModel)>::empty());
    } else {
        let name = fields[0].0;
        let v = fields[0].1;
        let tail2 = spec_enc_fields(fields.drop_first()) + rest;
        let tail1 = spec_enc_value(v) + tail2;
        assert(s =~= spec_enc_string(name) + tail1);
        lemma_dec_enc_string(name, tail1);
        vstd::bytes::lemma_auto_spec_u64_to_from_le_bytes();
        assert(spec_enc_string(name).len() >= 8);
        assert(tail1.len() < s.len());
        lemma_dec_enc_value(v, tail2);
        lemma_enc_value_len(v);
        assert(tail2.len() < s.len());
        lemma_dec_enc_fields(fields.drop_first(), rest);
        assert(seq![(name, v)] + fields.drop_first() =~= fields);
    }
}

// ---------------------------------------------------------------------------
// Executable encoder
// ---------------------------------------------------------------------------
/// Encoding one more field at the end of the list.
proof fn lemma_enc_fields_snoc(
    fields: Seq<(Seq<char>, RibValueModel)>,
    p: (Seq<char>, RibValueModel),
)
    ensures
        spec_enc_fields(fields.push(p)) == spec_enc_fields(fields) + spec_enc_string(p.0)
            + spec_enc_value(p.1),
    decreases fields,
{
    reveal_with_fuel(spec_enc_fields, 3);
    if fields.len() == 0 {
        assert(fields.push(p)[0] == p);
        assert(fields.push(p).drop_first() =~= Seq::<(Seq<char>, RibValueModel)>::empty());
        assert(spec_enc_fields(fields.push(p)) =~= spec_enc_fields(fields) + spec_enc_string(p.0)
            + spec_enc_value(p.1));
    } else {
        assert(fields.push(p)[0] == fields[0]);
        assert(fields.push(p).drop_first() =~= fields.drop_first().push(p));
        lemma_enc_fields_snoc(fields.drop_first(), p);
        assert(spec_enc_fields(fields.push(p)) =~= spec_enc_fields(fields) + spec_enc_string(p.0)
            + spec_enc_value(p.1));
    }
}

/// Appends the encoding of a value to the output buffer.
#[verifier::loop_isolation(false)]
pub fn enc_value(out: &mut Vec<u8>, v: &RibValue)
    ensures
        final(out)@ == old(out)@ + spec_enc_value(v@),
    decreases *v,
{
    match v {
        RibValue::String(s) => {
            enc_u8(out, TAG_STRING);
            enc_string(out, s.as_str());
            assert(final(out)@ =~= old(out)@ + spec_enc_value(v@));
        },
        RibValue::Integer(x) => {
            enc_u8(out, TAG_INTEGER);
            enc_i64(out, *x);
            assert(final(out)@ =~= old(out)@ + spec_enc_value(v@));
        },
        RibValue::Boolean(b) => {
            enc_u8(out, TAG_BOOLEAN);
            enc_bool(out, *b);
            assert(final(out)@ =~= old(out)@ + spec_enc_value(v@));
        },
        RibValue::Bytes(bs) => {
            enc_u8(out, TAG_BYTES);
            enc_bytes(out, bs);
            assert(final(out)@ =~= old(out)@ + spec_enc_value(v@));
        },
        RibValue::Struct(fields) => {
            proof {
                lemma_fields_model(fields@);
            }
            enc_u8(out, TAG_STRUCT);
            enc_u64(out, fields.len() as u64);
            let ghost base = out@;
            let mut i: usize = 0;
            while i < fields.len()
                invariant
                    i <= fields@.len(),
                    out@ == base + spec_enc_fields(fields_model(fields@).take(i as int)),
                decreases fields@.len() - i,
            {
                let ghost taken = fields_model(fields@).take(i as int);
                let ghost pair = fields_model(fields@)[i as int];
                proof {
                    assert(v is Struct && *fields == v->Struct_0);
                    assert(decreases_to!(*fields => fields@));
                    assert(decreases_to!(fields@ => fields@[i as int]));
                    assert(decreases_to!(*v => fields@[i as int].1));
                }
                enc_string(out, fields[i].0.as_str());
                enc_value(out, &fields[i].1);
                proof {
                    lemma_enc_fields_snoc(taken, pair);
                    assert(fields_model(fields@).take(i as int + 1) =~= taken.push(pair));
                    assert(out@ =~= base + spec_enc_fields(
                        fields_model(fields@).take(i as int + 1),
                    ));
                }
                i = i + 1;
            }
            proof {
                assert(fields_model(fields@).take(fields@.len() as int) =~= fields_model(fields@));
                assert(final(out)@ =~= old(out)@ + spec_enc_value(v@));
            }
        },
    }
}

// ---------------------------------------------------------------------------
// Executable decoder
// ---------------------------------------------------------------------------
/// Decodes one value at `pos`, agreeing exactly with `spec_dec_value`.
#[verifier::loop_isolation(false)]
pub fn dec_value(data: &Vec<u8>, pos: usize) -> (r: Option<(RibValue, usize)>)
    requires
        pos <= data@.len(),
    ensures
        match r {
            Some(v) => pos < v.1 <= data@.len() && spec_dec_value(data@.skip(pos as int)) == Some(
                (v.0@, data@.skip(v.1 as int)),
            ),
            None => spec_dec_value(data@.skip(pos as int)) is None,
        },
    decreases data@.len() - pos, 1int,
{
    let s0 = Ghost(data@.skip(pos as int));
    match dec_u8(data, pos) {
        None => None,
        Some((tag, p1)) => {
            if tag == TAG_STRING {
                match dec_string(data, p1) {
                    Some((x, p2)) => Some((RibValue::String(x), p2)),
                    None => None,
                }
            } else if tag == TAG_INTEGER {
                match dec_i64(data, p1) {
                    Some((x, p2)) => Some((RibValue::Integer(x), p2)),
                    None => None,
                }
            } else if tag == TAG_BOOLEAN {
                match dec_bool(data, p1) {
                    Some((x, p2)) => Some((RibValue::Boolean(x), p2)),
                    None => None,
                }
            } else if tag == TAG_BYTES {
                match dec_bytes(data, p1) {
                    Some((x, p2)) => Some((RibValue::Bytes(x), p2)),
                    None => None,
                }
            } else if tag == TAG_STRUCT {
                match dec_u64(data, p1) {
                    Some((cnt, p2)) => {
                        match dec_fields(data, p2, cnt) {
                            Some((fields, p3)) => Some((RibValue::Struct(fields), p3)),
                            None => None,
                        }
                    },
                    None => None,
                }
            } else {
                None
            }
        },
    }
}

/// Decodes `cnt` struct fields at `pos`, agreeing with `spec_dec_fields`.
#[verifier::loop_isolation(false)]
fn dec_fields(data: &Vec<u8>, pos: usize, cnt: u64) -> (r: Option<(Vec<(String, RibValue)>, usize)>)
    requires
        pos <= data@.len(),
    ensures
        match r {
            Some(v) => pos <= v.1 <= data@.len() && spec_dec_fields(
                data@.skip(pos as int),
                cnt as nat,
            ) == Some((fields_model(v.0@), data@.skip(v.1 as int))),
            None => spec_dec_fields(data@.skip(pos as int), cnt as nat) is None,
        },
    decreases data@.len() - pos, 0int,
{
    let mut out: Vec<(String, RibValue)> = Vec::new();
    let mut j: u64 = 0;
    let mut cur: usize = pos;
    proof {
        lemma_fields_model(out@);
        assert(fields_model(out@) =~= Seq::<(Seq<char>, RibValueModel)>::empty());
    }
    while j < cnt
        invariant
            pos <= cur <= data@.len(),
            j <= cnt,
            forall|fs: Seq<(Seq<char>, RibValueModel)>, rr: Seq<u8>|
                spec_dec_fields(data@.skip(cur as int), (cnt - j) as nat) == Some::<
                    (Seq<(Seq<char>, RibValueModel)>, Seq<u8>),
                >((fs, rr)) ==> spec_dec_fields(data@.skip(pos as int), cnt as nat) == Some::<
                    (Seq<(Seq<char>, RibValueModel)>, Seq<u8>),
                >((fields_model(out@) + fs, rr)),
            spec_dec_fields(data@.skip(cur as int), (cnt - j) as nat) is None ==> spec_dec_fields(
                data@.skip(pos as int),
                cnt as nat,
            ) is None,
        decreases cnt - j,
    {
        let ghost pre_view = out@;
        let ghost pre_out = fields_model(out@);
        let ghost s_cur = data@.skip(cur as int);
        let ghost rem = (cnt - j) as nat;
        match dec_string(data, cur) {
            None => {
                proof {
                    assert(spec_dec_fields(s_cur, rem) is None);
                }
                return None;
            },
            Some((name, p1)) => {
                let ghost gname = name@;
                match dec_value(data, p1) {
                    None => {
                        proof {
                            assert(data@.skip(p1 as int).len() < s_cur.len());
                            assert(spec_dec_fields(s_cur, rem) is None);
                        }
                        return None;
                    },
                    Some((v, p2)) => {
                        let ghost gv = v@;
                        out.push((name, v));
                        proof {
                            lemma_fields_model(pre_view);
                            lemma_fields_model(out@);
                            assert(fields_model(out@) =~= pre_out.push((gname, gv)));
                            // One step of the specification decoder.
                            assert(data@.skip(p1 as int).len() < s_cur.len());
                            assert(data@.skip(p2 as int).len() < s_cur.len());
                            assert forall|fs: Seq<(Seq<char>, RibValueModel)>, rr: Seq<u8>|
                                spec_dec_fields(data@.skip(p2 as int), (cnt - j - 1) as nat)
                                    == Some::<(Seq<(Seq<char>, RibValueModel)>, Seq<u8>)>(
                                    (fs, rr),
                                ) implies spec_dec_fields(data@.skip(pos as int), cnt as nat)
                                == Some::<(Seq<(Seq<char>, RibValueModel)>, Seq<u8>)>(
                                (fields_model(out@) + fs, rr),
                            ) by {
                                assert(spec_dec_fields(s_cur, rem) == Some::<
                                    (Seq<(Seq<char>, RibValueModel)>, Seq<u8>),
                                >((seq![(gname, gv)] + fs, rr)));
                                assert(pre_out + (seq![(gname, gv)] + fs) =~= fields_model(out@)
                                    + fs);
                            }
                            if spec_dec_fields(data@.skip(p2 as int), (cnt - j - 1) as nat)
                                is None {
                                assert(spec_dec_fields(s_cur, rem) is None);
                            }
                        }
                        cur = p2;
                        j = j + 1;
                    },
                }
            },
        }
    }
    proof {
        assert(spec_dec_fields(data@.skip(cur as int), 0nat) == Some::<
            (Seq<(Seq<char>, RibValueModel)>, Seq<u8>),
        >((Seq::empty(), data@.skip(cur as int))));
        assert(fields_model(out@) + Seq::<(Seq<char>, RibValueModel)>::empty() =~= fields_model(
            out@,
        ));
    }
    Some((out, cur))
}


// ---------------------------------------------------------------------------
// Objects and snapshots
// ---------------------------------------------------------------------------
/// The byte encoding of one stored object.
pub open spec fn spec_enc_object(o: RibObjectModel) -> Seq<u8> {
    spec_enc_string(o.name) + spec_enc_string(o.class) + spec_enc_value(o.value) + spec_enc_u64(
        o.version,
    ) + spec_enc_u64(o.last_modified)
}

/// Decodes one object from the front of `s`.
pub open spec fn spec_dec_object(s: Seq<u8>) -> Option<(RibObjectModel, Seq<u8>)> {
    match spec_dec_string(s) {
        None => None,
        Some((name, r1)) => match spec_dec_string(r1) {
            None => None,
            Some((class, r2)) => if r2.len() < s.len() {
                match spec_dec_value(r2) {
                    None => None,
                    Some((value, r3)) => match spec_dec_u64(r3) {
                        None => None,
                        Some((version, r4)) => match spec_dec_u64(r4) {
                            None => None,
                            Some((last_modified, r5)) => Some(
                                (RibObjectModel { name, class, value, version, last_modified }, r5),
                            ),
                        },
                    },
                }
            } else {
                None
            },
        },
    }
}

/// The byte encoding of a list of objects, in order.
pub open spec fn spec_enc_objects(objs: Seq<RibObjectModel>) -> Seq<u8>
    decreases objs.len(),
{
    if objs.len() == 0 {
        Seq::empty()
    } else {
        spec_enc_object(objs[0]) + spec_enc_objects(objs.drop_first())
    }
}

/// Decodes `cnt` objects from the front of `s`.
pub open spec fn spec_dec_objects(s: Seq<u8>, cnt: nat) -> Option<(Seq<RibObjectModel>, Seq<u8>)>
    decreases s.len(), cnt,
{
    if cnt == 0 {
        Some((Seq::empty(), s))
    } else {
        match spec_dec_object(s) {
            None => None,
            Some((o, r1)) => if r1.len() < s.len() {
                match spec_dec_objects(r1, (cnt - 1) as nat) {
                    Some((objs, r2)) => Some((seq![o] + objs, r2)),
                    None => None,
                }
            } else {
                None
            },
        }
    }
}

/// The byte encoding of a full RIB snapshot: an object count, then the
/// objects.
pub open spec fn spec_enc_snapshot(objs: Seq<RibObjectModel>) -> Seq<u8> {
    spec_enc_u64(objs.len() as u64) + spec_enc_objects(objs)
}

/// Decodes a full snapshot from the front of `s`.
pub open spec fn spec_dec_snapshot(s: Seq<u8>) -> Option<(Seq<RibObjectModel>, Seq<u8>)> {
    match spec_dec_u64(s) {
        None => None,
        Some((cnt, r1)) => spec_dec_objects(r1, cnt as nat),
    }
}

/// Every length-prefixed part of the object fits its 64-bit prefix.
pub open spec fn spec_object_fits(o: RibObjectModel) -> bool {
    &&& vstd::utf8::encode_utf8(o.name).len() <= u64::MAX
    &&& vstd::utf8::encode_utf8(o.class).len() <= u64::MAX
    &&& spec_value_fits(o.value)
}

/// Every length-prefixed part of the snapshot fits its 64-bit prefix.
pub open spec fn spec_snapshot_fits(objs: Seq<RibObjectModel>) -> bool {
    objs.len() <= u64::MAX && forall|i: int|
        0 <= i < objs.len() ==> spec_object_fits(#[trigger] objs[i])
}

/// Decoding the encoding of one object, followed by anything, yields the
/// object back and leaves exactly the trailing bytes.
pub proof fn lemma_dec_enc_object(o: RibObjectModel, rest: Seq<u8>)
    requires
        spec_object_fits(o),
    ensures
        spec_dec_object(spec_enc_object(o) + rest) == Some((o, rest)),
{
    let s = spec_enc_object(o) + rest;
    vstd::bytes::lemma_auto_spec_u64_to_from_le_bytes();
    let t4 = spec_enc_u64(o.last_modified) + rest;
    let t3 = spec_enc_u64(o.version) + t4;
    let t2 = spec_enc_value(o.value) + t3;
    let t1 = spec_enc_string(o.class) + t2;
    assert(s =~= spec_enc_string(o.name) + t1);
    lemma_dec_enc_string(o.name, t1);
    lemma_dec_enc_string(o.class, t2);
    assert(t2.len() < s.len());
    lemma_dec_enc_value(o.value, t3);
    lemma_dec_enc_u64(o.version, t4);
    lemma_dec_enc_u64(o.last_modified, rest);
}

/// Decoding the encoding of an object list, followed by anything, yields
/// the objects back and leaves exactly the trailing bytes.
pub proof fn lemma_dec_enc_objects(objs: Seq<RibObjectModel>, rest: Seq<u8>)
    requires
        forall|i: int| 0 <= i < objs.len() ==> spec_object_fits(#[trigger] objs[i]),
    ensures
        spec_dec_objects(spec_enc_objects(objs) + rest, objs.len() as nat) == Some((objs, rest)),
    decreases objs.len(),
{
    let s = spec_enc_objects(objs) + rest;
    if objs.len() == 0 {
        assert(s =~= rest);
        assert(objs =~= Seq::<RibObjectModel>::empty());
    } else {
        let tail = spec_enc_objects(objs.drop_first()) + rest;
        assert(s =~= spec_enc_object(objs[0]) + tail);
        lemma_dec_enc_object(objs[0], tail);
        vstd::bytes::lemma_auto_spec_u64_to_from_le_bytes();
        assert(spec_enc_object(objs[0]).len() >= 8);
        assert(tail.len() < s.len());
        assert(forall|i: int|
            0 <= i < objs.drop_first().len() ==> #[trigger] objs.drop_first()[i] == objs[i + 1]);
        lemma_dec_enc_objects(objs.drop_first(), rest);
        assert(seq![objs[0]] + objs.drop_first() =~= objs);
    }
}

/// A snapshot decodes to exactly the objects it was made from, with no
/// bytes left over.
pub proof fn lemma_dec_enc_snapshot(objs: Seq<RibObjectModel>)
    requires
        spec_snapshot_fits(objs),
    ensures
        spec_dec_snapshot(spec_enc_snapshot(objs)) == Some((objs, Seq::<u8>::empty())),
{
    let cnt = objs.len() as u64;
    let tail = spec_enc_objects(objs) + Seq::<u8>::empty();
    assert(spec_enc_snapshot(objs) =~= spec_enc_u64(cnt) + tail);
    lemma_dec_enc_u64(cnt, tail);
    lemma_dec_enc_objects(objs, Seq::<u8>::empty());
    assert(tail =~= spec_enc_objects(objs) + Seq::<u8>::empty());
}

/// Merging a batch of new names into a store appends them in order.
pub proof fn lemma_merge_all_new(m: Seq<RibObjectModel>, s: Seq<RibObjectModel>)
    requires
        forall|i: int, k: int|
            0 <= i < s.len() && 0 <= k < m.len() ==> (#[trigger] s[i]).name != (
            #[trigger] m[k]).name,
        spec_names_unique(s),
    ensures
        spec_merge(m, s) == m + s,
    decreases s.len(),
{
    if s.len() == 0 {
        assert(m + s =~= m);
    } else {
        lemma_index_of(m, s[0].name);
        assert(spec_index_of(m, s[0].name) == -1);
        assert(spec_merge_one(m, s[0]) == m.push(s[0]));
        assert(forall|i: int|
            0 <= i < s.drop_first().len() ==> #[trigger] s.drop_first()[i] == s[i + 1]);
        lemma_merge_all_new(m.push(s[0]), s.drop_first());
        assert(m + s =~= m.push(s[0]) + s.drop_first());
    }
}

/// Full synchronization is lossless: serializing a store's objects and
/// merging the decoded snapshot into an empty RIB reproduces exactly the
/// same objects, name, class, value, version and modification stamp alike.
pub proof fn lemma_snapshot_sync_identity(objs: Seq<RibObjectModel>)
    requires
        spec_snapshot_fits(objs),
        spec_names_unique(objs),
    ensures
        spec_dec_snapshot(spec_enc_snapshot(objs)) == Some((objs, Seq::<u8>::empty())),
        spec_merge(Seq::<RibObjectModel>::empty(), objs) == objs,
{
    lemma_dec_enc_snapshot(objs);
    lemma_merge_all_new(Seq::<RibObjectModel>::empty(), objs);
    assert(Seq::<RibObjectModel>::empty() + objs =~= objs);
}

// ---------------------------------------------------------------------------
// Executable object and snapshot codec
// ---------------------------------------------------------------------------
/// Appends the encoding of one object to the output buffer.
pub fn enc_object(out: &mut Vec<u8>, o: &RibObject)
    ensures
        final(out)@ == old(out)@ + spec_enc_object(o@),
{
    enc_string(out, o.name.as_str());
    enc_string(out, o.class.as_str());
    enc_value(out, &o.value);
    enc_u64(out, o.version);
    enc_u64(out, o.last_modified);
    assert(final(out)@ =~= old(out)@ + spec_enc_object(o@));
}

/// Decodes one object at `pos`, agreeing exactly with `spec_dec_object`.
pub fn dec_object(data: &Vec<u8>, pos: usize) -> (r: Option<(RibObject, usize)>)
    requires
        pos <= data@.len(),
    ensures
        match r {
            Some(v) => pos < v.1 <= data@.len() && spec_dec_object(data@.skip(pos as int)) == Some(
                (v.0@, data@.skip(v.1 as int)),
            ),
            None => spec_dec_object(data@.skip(pos as int)) is None,
        },
{
    match dec_string(data, pos) {
        None => None,
        Some((name, p1)) => match dec_string(data, p1) {
            None => None,
            Some((class, p2)) => match dec_value(data, p2) {
                None => None,
                Some((value, p3)) => match dec_u64(data, p3) {
                    None => None,
                    Some((version, p4)) => match dec_u64(data, p4) {
                        None => None,
                        Some((last_modified, p5)) => Some(
                            (RibObject { name, class, value, version, last_modified }, p5),
                        ),
                    },
                },
            },
        },
    }
}

/// Encoding one more object at the end of the list.
proof fn lemma_enc_objects_snoc(objs: Seq<RibObjectModel>, o: RibObjectModel)
    ensures
        spec_enc_objects(objs.push(o)) == spec_enc_objects(objs) + spec_enc_object(o),
    decreases objs.len(),
{
    reveal_with_fuel(spec_enc_objects, 3);
    if objs.len() == 0 {
        assert(objs.push(o)[0] == o);
        assert(objs.push(o).drop_first() =~= Seq::<RibObjectModel>::empty());
        assert(spec_enc_objects(objs.push(o)) =~= spec_enc_objects(objs) + spec_enc_object(o));
    } else {
        assert(objs.push(o)[0] == objs[0]);
        assert(objs.push(o).drop_first() =~= objs.drop_first().push(o));
        lemma_enc_objects_snoc(objs.drop_first(), o);
        assert(spec_enc_objects(objs.push(o)) =~= spec_enc_objects(objs) + spec_enc_object(o));
    }
}

impl Rib {
    /// Serializes the complete object set into the snapshot encoding, for
    /// bulk synchronization or on-disk snapshots.
    #[verifier::loop_isolation(false)]
    pub fn serialize(&self) -> (r: Vec<u8>)
        ensures
            r@ == spec_enc_snapshot(self@.objects),
    {
        let objs = self.get_all_objects();
        let mut out: Vec<u8> = Vec::new();
        enc_u64(&mut out, objs.len() as u64);
        let ghost base = out@;
        let ghost models = objects_model(objs@);
        let mut i: usize = 0;
        while i < objs.len()
            invariant
                i <= objs@.len(),
                out@ == base + spec_enc_objects(models.take(i as int)),
            decreases objs@.len() - i,
        {
            let ghost taken = models.take(i as int);
            enc_object(&mut out, &objs[i]);
            proof {
                lemma_enc_objects_snoc(taken, models[i as int]);
                assert(models.take(i as int + 1) =~= taken.push(models[i as int]));
                assert(out@ =~= base + spec_enc_objects(models.take(i as int + 1)));
            }
            i = i + 1;
        }
        proof {
            assert(models.take(models.len() as int) =~= models);
            assert(out@ =~= spec_enc_snapshot(self@.objects));
        }
        out
    }

    /// Decodes a snapshot and merges its objects into this RIB under the
    /// "highest version wins" rule; the synchronization marker is stamped
    /// with `now`.  Empty input is accepted and merges nothing.  Trailing
    /// or malformed bytes are rejected and leave the RIB unchanged.
    pub fn deserialize_at(&mut self, data: &Vec<u8>, now: u64) -> (r: Result<usize, RibError>)
        requires
            old(self).wf(),
        ensures
            final(self).wf(),
            final(self)@.log.max_size == old(self)@.log.max_size,
            data@.len() == 0 ==> (r matches Ok(n) && n == 0 && final(self)@ == old(self)@),
            data@.len() > 0 ==> match spec_dec_snapshot(data@) {
                Some((objs, rest)) => if rest.len() == 0 {
                    &&& r matches Ok(n) && n as nat == spec_merge_count(old(self)@.objects, objs)
                    &&& final(self)@.objects == spec_merge(old(self)@.objects, objs)
                    &&& final(self)@.version_counter == spec_max_u64(
                        old(self)@.version_counter,
                        spec_max_version(objs),
                    )
                    &&& spec_current_version(final(self)@.log.changes) >= spec_max_version(objs)
                    &&& final(self)@.log == crate::rib::spec_log_after_sync(
                        old(self)@.log,
                        spec_max_version(objs),
                        now,
                    )
                } else {
                    r is Err && final(self)@ == old(self)@
                },
                None => r is Err && final(self)@ == old(self)@,
            },
    {
        if data.len() == 0 {
            return Ok(0);
        }
        match self.decode_snapshot(data) {
            None => {
                let mut msg = String::new();
                msg.append("malformed snapshot");
                Err(RibError::DeserializationFailed(msg))
            },
            Some(objs) => {
                let n = self.merge_objects_at(objs, now);
                Ok(n)
            },
        }
    }

    /// Decodes a snapshot and merges it, stamping the marker with the
    /// current system time.
    pub fn deserialize(&mut self, data: &Vec<u8>) -> (r: Result<usize, RibError>)
        requires
            old(self).wf(),
        ensures
            final(self).wf(),
            final(self)@.log.max_size == old(self)@.log.max_size,
            data@.len() == 0 ==> (r matches Ok(n) && n == 0 && final(self)@ == old(self)@),
            data@.len() > 0 ==> match spec_dec_snapshot(data@) {
                Some((objs, rest)) => if rest.len() == 0 {
                    &&& r matches Ok(n) && n as nat == spec_merge_count(old(self)@.objects, objs)
                    &&& final(self)@.objects == spec_merge(old(self)@.objects, objs)
                    &&& final(self)@.version_counter == spec_max_u64(
                        old(self)@.version_counter,
                        spec_max_version(objs),
                    )
                    &&& spec_current_version(final(self)@.log.changes) >= spec_max_version(objs)
                    &&& exists|ts: u64|
                        final(self)@.log == #[trigger] crate::rib::spec_log_after_sync(
                            old(self)@.log,
                            spec_max_version(objs),
                            ts,
                        )
                } else {
                    r is Err && final(self)@ == old(self)@
                },
                None => r is Err && final(self)@ == old(self)@,
            },
    {
        let now = crate::clock::unix_now_secs();
        let r = self.deserialize_at(data, now);
        proof {
            if data@.len() > 0 {
                if let Some((objs, rest)) = spec_dec_snapshot(data@) {
                    if rest.len() == 0 {
                        assert(final(self)@.log == crate::rib::spec_log_after_sync(
                            old(self)@.log,
                            spec_max_version(objs),
                            now,
                        ));
                    }
                }
            }
        }
        r
    }

    /// Decodes a whole snapshot buffer, or nothing if any byte is wrong.
    #[verifier::loop_isolation(false)]
    fn decode_snapshot(&self, data: &Vec<u8>) -> (r: Option<Vec<RibObject>>)
        ensures
            match r {
                Some(objs) => spec_dec_snapshot(data@) == Some(
                    (objects_model(objs@), Seq::<u8>::empty()),
                ),
                None => match spec_dec_snapshot(data@) {
                    Some((objs, rest)) => rest.len() > 0,
                    None => true,
                },
            },
    {
        proof {
            assert(data@.skip(0) =~= data@);
        }
        match dec_u64(data, 0) {
            None => None,
            Some((cnt, p1)) => {
                let mut out: Vec<RibObject> = Vec::new();
                let mut j: u64 = 0;
                let mut cur: usize = p1;
                proof {
                    assert(objects_model(out@) =~= Seq::<RibObjectModel>::empty());
                }
                while j < cnt
                    invariant
                        cur <= data@.len(),
                        j <= cnt,
                        forall|fs: Seq<RibObjectModel>, rr: Seq<u8>|
                            spec_dec_objects(data@.skip(cur as int), (cnt - j) as nat) == Some::<
                                (Seq<RibObjectModel>, Seq<u8>),
                            >((fs, rr)) ==> spec_dec_objects(
                                data@.skip(p1 as int),
                                cnt as nat,
                            ) == Some::<(Seq<RibObjectModel>, Seq<u8>)>(
                                (objects_model(out@) + fs, rr),
                            ),
                        spec_dec_objects(data@.skip(cur as int), (cnt - j) as nat) is None
                            ==> spec_dec_objects(data@.skip(p1 as int), cnt as nat) is None,
                    decreases cnt - j,
                {
                    let ghost pre_out = objects_model(out@);
                    let ghost s_cur = data@.skip(cur as int);
                    match dec_object(data, cur) {
                        None => {
                            proof {
                                assert(spec_dec_objects(s_cur, (cnt - j) as nat) is None);
                                assert(spec_dec_objects(data@.skip(p1 as int), cnt as nat) is None);
                                assert(spec_dec_u64(data@) == Some((cnt, data@.skip(p1 as int))));
                                assert(spec_dec_snapshot(data@) is None);
                            }
                            return None;
                        },
                        Some((o, p2)) => {
                            let ghost go = o@;
                            out.push(o);
                            proof {
                                assert(objects_model(out@) =~= pre_out.push(go));
                                assert(data@.skip(p2 as int).len() < s_cur.len());
                                assert forall|fs: Seq<RibObjectModel>, rr: Seq<u8>|
                                    spec_dec_objects(data@.skip(p2 as int), (cnt - j - 1) as nat)
                                        == Some::<(Seq<RibObjectModel>, Seq<u8>)>(
                                        (fs, rr),
                                    ) implies spec_dec_objects(data@.skip(p1 as int), cnt as nat)
                                    == Some::<(Seq<RibObjectModel>, Seq<u8>)>(
                                    (objects_model(out@) + fs, rr),
                                ) by {
                                    assert(spec_dec_objects(s_cur, (cnt - j) as nat) == Some::<
                                        (Seq<RibObjectModel>, Seq<u8>),
                                    >((seq![go] + fs, rr)));
                                    assert(pre_out + (seq![go] + fs) =~= objects_model(out@) + fs);
                                }
                                if spec_dec_objects(data@.skip(p2 as int), (cnt - j - 1) as nat)
                                    is None {
                                    assert(spec_dec_objects(s_cur, (cnt - j) as nat) is None);
                                }
                            }
                            cur = p2;
                            j = j + 1;
                        },
                    }
                }
                if cur != data.len() {
                    proof {
                        assert(spec_dec_objects(data@.skip(cur as int), 0nat) == Some::<
                            (Seq<RibObjectModel>, Seq<u8>),
                        >((Seq::empty(), data@.skip(cur as int))));
                        assert(spec_dec_objects(data@.skip(p1 as int), cnt as nat) == Some::<
                            (Seq<RibObjectModel>, Seq<u8>),
                        >((
                            objects_model(out@) + Seq::<RibObjectModel>::empty(),
                            data@.skip(cur as int),
                        )));
                        assert(spec_dec_u64(data@) == Some((cnt, data@.skip(p1 as int))));
                        assert(spec_dec_snapshot(data@) matches Some((o2, r2)) && r2
                            == data@.skip(cur as int));
                        assert(data@.skip(cur as int).len() > 0);
                    }
                    return None;
                }
                proof {
                    assert(spec_dec_objects(data@.skip(cur as int), 0nat) == Some::<
                        (Seq<RibObjectModel>, Seq<u8>),
                    >((Seq::empty(), data@.skip(cur as int))));
                    assert(data@.skip(cur as int) =~= Seq::<u8>::empty());
                    assert(objects_model(out@) + Seq::<RibObjectModel>::empty() =~= objects_model(
                        out@,
                    ));
                }
                Some(out)
            },
        }
    }
}

} // verus!
