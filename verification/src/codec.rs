//! Length-prefixed binary codec primitives.
//!
//! All wire records of this crate (PDUs, CDAP messages, RIB snapshots,
//! enrollment payloads) are encoded with the little-endian, length-prefixed
//! encoding defined here.  Each `spec_enc_*` function gives the exact byte
//! sequence of a value; each `spec_dec_*` function consumes a prefix of a
//! byte sequence and yields the value plus the remaining bytes.  The
//! `lemma_dec_enc_*` lemmas prove that decoding inverts encoding.

use vstd::prelude::*;
use vstd::bytes::*;
use vstd::utf8::*;

verus! {

// ---------------------------------------------------------------------------
// Specification: encoders
// ---------------------------------------------------------------------------
pub open spec fn spec_enc_u8(x: u8) -> Seq<u8> {
    seq![x]
}

pub open spec fn spec_enc_bool(b: bool) -> Seq<u8> {
    seq![if b { 1u8 } else { 0u8 }]
}

pub open spec fn spec_enc_u32(x: u32) -> Seq<u8> {
    spec_u32_to_le_bytes(x)
}

pub open spec fn spec_enc_u64(x: u64) -> Seq<u8> {
    spec_u64_to_le_bytes(x)
}

pub open spec fn spec_enc_i64(x: i64) -> Seq<u8> {
    spec_enc_u64(x as u64)
}

pub open spec fn spec_enc_bytes(s: Seq<u8>) -> Seq<u8> {
    spec_enc_u64(s.len() as u64) + s
}

pub open spec fn spec_enc_string(s: Seq<char>) -> Seq<u8> {
    spec_enc_bytes(encode_utf8(s))
}

// ---------------------------------------------------------------------------
// Specification: decoders (value, remaining bytes)
// ---------------------------------------------------------------------------
pub open spec fn spec_dec_u8(s: Seq<u8>) -> Option<(u8, Seq<u8>)> {
    if s.len() >= 1 {
        Some((s[0], s.skip(1)))
    } else {
        None
    }
}

pub open spec fn spec_dec_bool(s: Seq<u8>) -> Option<(bool, Seq<u8>)> {
    if s.len() >= 1 && (s[0] == 0 || s[0] == 1) {
        Some((s[0] == 1, s.skip(1)))
    } else {
        None
    }
}

pub open spec fn spec_dec_u32(s: Seq<u8>) -> Option<(u32, Seq<u8>)> {
    if s.len() >= 4 {
        Some((spec_u32_from_le_bytes(s.subrange(0, 4)), s.skip(4)))
    } else {
        None
    }
}

pub open spec fn spec_dec_u64(s: Seq<u8>) -> Option<(u64, Seq<u8>)> {
    if s.len() >= 8 {
        Some((spec_u64_from_le_bytes(s.subrange(0, 8)), s.skip(8)))
    } else {
        None
    }
}

pub open spec fn spec_dec_i64(s: Seq<u8>) -> Option<(i64, Seq<u8>)> {
    match spec_dec_u64(s) {
        Some((x, rest)) => Some((x as i64, rest)),
        None => None,
    }
}

pub open spec fn spec_dec_bytes(s: Seq<u8>) -> Option<(Seq<u8>, Seq<u8>)> {
    match spec_dec_u64(s) {
        Some((n, rest)) => if n <= rest.len() {
            Some((rest.take(n as int), rest.skip(n as int)))
        } else {
            None
        },
        None => None,
    }
}

pub open spec fn spec_dec_string(s: Seq<u8>) -> Option<(Seq<char>, Seq<u8>)> {
    match spec_dec_bytes(s) {
        Some((bs, rest)) => if valid_utf8(bs) {
            Some((decode_utf8(bs), rest))
        } else {
            None
        },
        None => None,
    }
}

// ---------------------------------------------------------------------------
// Round-trip lemmas: decoding a value's encoding, followed by anything,
// yields the value back and leaves exactly the trailing bytes.
// ---------------------------------------------------------------------------
pub proof fn lemma_dec_enc_u8(x: u8, rest: Seq<u8>)
    ensures
        spec_dec_u8(spec_enc_u8(x) + rest) == Some((x, rest)),
{
    assert((spec_enc_u8(x) + rest).skip(1) =~= rest);
}

pub proof fn lemma_dec_enc_bool(b: bool, rest: Seq<u8>)
    ensures
        spec_dec_bool(spec_enc_bool(b) + rest) == Some((b, rest)),
{
    assert((spec_enc_bool(b) + rest).skip(1) =~= rest);
}

pub proof fn lemma_dec_enc_u32(x: u32, rest: Seq<u8>)
    ensures
        spec_dec_u32(spec_enc_u32(x) + rest) == Some((x, rest)),
{
    lemma_auto_spec_u32_to_from_le_bytes();
    assert((spec_enc_u32(x) + rest).subrange(0, 4) =~= spec_enc_u32(x));
    assert((spec_enc_u32(x) + rest).skip(4) =~= rest);
}

pub proof fn lemma_dec_enc_u64(x: u64, rest: Seq<u8>)
    ensures
        spec_dec_u64(spec_enc_u64(x) + rest) == Some((x, rest)),
{
    lemma_auto_spec_u64_to_from_le_bytes();
    assert((spec_enc_u64(x) + rest).subrange(0, 8) =~= spec_enc_u64(x));
    assert((spec_enc_u64(x) + rest).skip(8) =~= rest);
}

pub proof fn lemma_dec_enc_i64(x: i64, rest: Seq<u8>)
    ensures
        spec_dec_i64(spec_enc_i64(x) + rest) == Some((x, rest)),
{
    lemma_dec_enc_u64(x as u64, rest);
    assert((x as u64) as i64 == x) by (bit_vector);
}

pub proof fn lemma_dec_enc_bytes(s: Seq<u8>, rest: Seq<u8>)
    requires
        s.len() <= u64::MAX,
    ensures
        spec_dec_bytes(spec_enc_bytes(s) + rest) == Some((s, rest)),
{
    let n = s.len() as u64;
    assert(spec_enc_bytes(s) + rest =~= spec_enc_u64(n) + (s + rest));
    lemma_dec_enc_u64(n, s + rest);
    assert((s + rest).take(n as int) =~= s);
    assert((s + rest).skip(n as int) =~= rest);
}

pub proof fn lemma_dec_enc_string(s: Seq<char>, rest: Seq<u8>)
    requires
        encode_utf8(s).len() <= u64::MAX,
    ensures
        spec_dec_string(spec_enc_string(s) + rest) == Some((s, rest)),
{
    lemma_dec_enc_bytes(encode_utf8(s), rest);
    encode_utf8_valid_utf8(s);
    encode_utf8_decode_utf8(s);
}

// ---------------------------------------------------------------------------
// Executable encoders: append the encoding of a value to an output buffer.
// ---------------------------------------------------------------------------
pub fn enc_u8(out: &mut Vec<u8>, x: u8)
    ensures
        final(out)@ == old(out)@ + spec_enc_u8(x),
{
    out.push(x);
    assert(final(out)@ =~= old(out)@ + spec_enc_u8(x));
}

pub fn enc_bool(out: &mut Vec<u8>, b: bool)
    ensures
        final(out)@ == old(out)@ + spec_enc_bool(b),
{
    if b {
        out.push(1u8);
    } else {
        out.push(0u8);
    }
    assert(final(out)@ =~= old(out)@ + spec_enc_bool(b));
}

pub fn enc_u32(out: &mut Vec<u8>, x: u32)
    ensures
        final(out)@ == old(out)@ + spec_enc_u32(x),
{
    let mut b = u32_to_le_bytes(x);
    out.append(&mut b);
}

pub fn enc_u64(out: &mut Vec<u8>, x: u64)
    ensures
        final(out)@ == old(out)@ + spec_enc_u64(x),
{
    let mut b = u64_to_le_bytes(x);
    out.append(&mut b);
}

pub fn enc_i64(out: &mut Vec<u8>, x: i64)
    ensures
        final(out)@ == old(out)@ + spec_enc_i64(x),
{
    enc_u64(out, x as u64);
}

pub fn enc_bytes(out: &mut Vec<u8>, s: &Vec<u8>)
    ensures
        final(out)@ == old(out)@ + spec_enc_bytes(s@),
{
    enc_u64(out, s.len() as u64);
    let mut copy = s.clone();
    out.append(&mut copy);
    assert(final(out)@ =~= old(out)@ + spec_enc_bytes(s@));
}

pub fn enc_string(out: &mut Vec<u8>, s: &str)
    ensures
        final(out)@ == old(out)@ + spec_enc_string(s@),
{
    let mut bs = s.as_bytes_vec();
    enc_u64(out, bs.len() as u64);
    out.append(&mut bs);
    assert(final(out)@ =~= old(out)@ + spec_enc_string(s@));
}

// ---------------------------------------------------------------------------
// Executable decoders: read a value at a position of a buffer.  On success
// they return the value and the position just past it, agreeing exactly with
// the specification decoder applied to the bytes from `pos` on.
// ---------------------------------------------------------------------------
pub fn dec_u8(data: &Vec<u8>, pos: usize) -> (r: Option<(u8, usize)>)
    requires
        pos <= data@.len(),
    ensures
        match r {
            Some(v) => pos < v.1 <= data@.len() && spec_dec_u8(data@.skip(pos as int)) == Some(
                (v.0, data@.skip(v.1 as int)),
            ),
            None => spec_dec_u8(data@.skip(pos as int)) is None,
        },
{
    if pos < data.len() {
        let x = data[pos];
        assert(data@.skip(pos as int)[0] == x);
        assert(data@.skip(pos as int).skip(1) =~= data@.skip(pos as int + 1));
        Some((x, pos + 1))
    } else {
        None
    }
}

pub fn dec_bool(data: &Vec<u8>, pos: usize) -> (r: Option<(bool, usize)>)
    requires
        pos <= data@.len(),
    ensures
        match r {
            Some(v) => pos < v.1 <= data@.len() && spec_dec_bool(data@.skip(pos as int)) == Some(
                (v.0, data@.skip(v.1 as int)),
            ),
            None => spec_dec_bool(data@.skip(pos as int)) is None,
        },
{
    if pos < data.len() {
        let x = data[pos];
        if x == 0 || x == 1 {
            assert(data@.skip(pos as int)[0] == x);
            assert(data@.skip(pos as int).skip(1) =~= data@.skip(pos as int + 1));
            Some((x == 1, pos + 1))
        } else {
            None
        }
    } else {
        None
    }
}

pub fn dec_u32(data: &Vec<u8>, pos: usize) -> (r: Option<(u32, usize)>)
    requires
        pos <= data@.len(),
    ensures
        match r {
            Some(v) => pos < v.1 <= data@.len() && spec_dec_u32(data@.skip(pos as int)) == Some(
                (v.0, data@.skip(v.1 as int)),
            ),
            None => spec_dec_u32(data@.skip(pos as int)) is None,
        },
{
    if data.len() - pos >= 4 {
        let part = vstd::slice::slice_subrange(data.as_slice(), pos, pos + 4);
        let x = u32_from_le_bytes(part);
        assert(data@.skip(pos as int).subrange(0, 4) =~= data@.subrange(
            pos as int,
            pos as int + 4,
        ));
        assert(data@.skip(pos as int).skip(4) =~= data@.skip(pos as int + 4));
        Some((x, pos + 4))
    } else {
        None
    }
}

pub fn dec_u64(data: &Vec<u8>, pos: usize) -> (r: Option<(u64, usize)>)
    requires
        pos <= data@.len(),
    ensures
        match r {
            Some(v) => pos < v.1 <= data@.len() && spec_dec_u64(data@.skip(pos as int)) == Some(
                (v.0, data@.skip(v.1 as int)),
            ),
            None => spec_dec_u64(data@.skip(pos as int)) is None,
        },
{
    if data.len() - pos >= 8 {
        let part = vstd::slice::slice_subrange(data.as_slice(), pos, pos + 8);
        let x = u64_from_le_bytes(part);
        assert(data@.skip(pos as int).subrange(0, 8) =~= data@.subrange(
            pos as int,
            pos as int + 8,
        ));
        assert(data@.skip(pos as int).skip(8) =~= data@.skip(pos as int + 8));
        Some((x, pos + 8))
    } else {
        None
    }
}

pub fn dec_i64(data: &Vec<u8>, pos: usize) -> (r: Option<(i64, usize)>)
    requires
        pos <= data@.len(),
    ensures
        match r {
            Some(v) => pos < v.1 <= data@.len() && spec_dec_i64(data@.skip(pos as int)) == Some(
                (v.0, data@.skip(v.1 as int)),
            ),
            None => spec_dec_i64(data@.skip(pos as int)) is None,
        },
{
    match dec_u64(data, pos) {
        Some((x, p2)) => Some((x as i64, p2)),
        None => None,
    }
}

pub fn dec_bytes(data: &Vec<u8>, pos: usize) -> (r: Option<(Vec<u8>, usize)>)
    requires
        pos <= data@.len(),
    ensures
        match r {
            Some(v) => pos < v.1 <= data@.len() && spec_dec_bytes(data@.skip(pos as int)) == Some(
                (v.0@, data@.skip(v.1 as int)),
            ),
            None => spec_dec_bytes(data@.skip(pos as int)) is None,
        },
{
    match dec_u64(data, pos) {
        Some((n, p2)) => {
            if n <= (data.len() - p2) as u64 {
                let end = p2 + n as usize;
                let part = vstd::slice::slice_subrange(data.as_slice(), p2, end);
                let bs = vstd::slice::slice_to_vec(part);
                proof {
                    let s = data@.skip(pos as int);
                    let rest = data@.skip(p2 as int);
                    assert(rest.take(n as int) =~= data@.subrange(p2 as int, end as int));
                    assert(rest.skip(n as int) =~= data@.skip(end as int));
                }
                Some((bs, end))
            } else {
                None
            }
        },
        None => None,
    }
}

pub fn dec_string(data: &Vec<u8>, pos: usize) -> (r: Option<(String, usize)>)
    requires
        pos <= data@.len(),
    ensures
        match r {
            Some(v) => pos < v.1 <= data@.len() && spec_dec_string(data@.skip(pos as int)) == Some(
                (v.0@, data@.skip(v.1 as int)),
            ),
            None => spec_dec_string(data@.skip(pos as int)) is None,
        },
{
    match dec_bytes(data, pos) {
        Some((bs, p2)) => {
            match crate::strutil::bytes_to_string(bs) {
                Some(s) => Some((s, p2)),
                None => None,
            }
        },
        None => None,
    }
}

} // verus!
