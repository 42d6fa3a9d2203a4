//! Executable encoder and decoder for the wire messages, proved against the
//! specification functions in `wire`, plus the 4-byte big-endian frame
//! length prefix.

use vstd::prelude::*;

verus! {

use vstd::bytes::{u32_to_le_bytes, u32_from_le_bytes, u64_to_le_bytes, u64_from_le_bytes};
use vstd::utf8::{encode_utf8, decode_utf8, valid_utf8};
use vstd::slice::{slice_subrange, slice_to_vec};
use crate::token::labels_view;
use vstd::assert_by_contradiction;
use crate::wire::{
    InstrumentKind,
    Value,
    Metadata,
    MetaView,
    meta_view,
    metas_view,
    Query,
    QueryResult,
    result_view,
    WireError,
    enc_u64,
    enc_u32,
    enc_str,
    enc_labels,
    enc_meta,
    enc_metas,
    enc_values,
    enc_query,
    enc_result,
    str_fits,
    meta_fits,
    result_fits,
    dec_u64,
    dec_u32,
    dec_kind,
    dec_str,
    dec_labels,
    dec_meta,
    dec_metas,
    dec_values,
    dec_query,
    dec_result,
};

/// Relies on `String::from_utf8`: it returns the string whose UTF-8 encoding
/// is the given bytes exactly when those bytes are valid UTF-8.
#[verifier::external_body]
fn string_from_utf8(v: Vec<u8>) -> (r: Option<String>)
    ensures
        r is Some <==> valid_utf8(v@),
        r matches Some(s) ==> s@ == decode_utf8(v@),
{
    String::from_utf8(v).ok()
}

// ---------------------------------------------------------------------------
// Encoding
// ---------------------------------------------------------------------------

fn push_u64(out: &mut Vec<u8>, x: u64)
    ensures
        final(out)@ == old(out)@ + enc_u64(x),
{
    let mut b = u64_to_le_bytes(x);
    out.append(&mut b);
}

fn push_u32(out: &mut Vec<u8>, x: u32)
    ensures
        final(out)@ == old(out)@ + enc_u32(x),
{
    let mut b = u32_to_le_bytes(x);
    out.append(&mut b);
}

/// Append a length-prefixed string; fails when its UTF-8 form cannot fit a
/// 32-bit length prefix.
fn push_str(out: &mut Vec<u8>, s: &String) -> (r: Result<(), WireError>)
    ensures
        r is Ok <==> str_fits(s@),
        r matches Err(e) ==> e == WireError::TooLarge,
        r is Ok ==> final(out)@ == old(out)@ + enc_str(s@),
        r is Err ==> final(out)@ == old(out)@,
{
    let bytes = s.as_str().as_bytes();
    if bytes.len() > u32::MAX as usize {
        return Err(WireError::TooLarge);
    }
    push_u32(out, bytes.len() as u32);
    let mut b = slice_to_vec(bytes);
    out.append(&mut b);
    proof {
        assert(out@ =~= old(out)@ + enc_str(s@));
    }
    Ok(())
}

#[verifier::rlimit(50)]
fn push_labels(out: &mut Vec<u8>, labels: &[(String, String)]) -> (r: Result<(), WireError>)
    ensures
        r is Ok <==> (forall|i: int|
            0 <= i < labels@.len() ==> str_fits((#[trigger] labels@[i]).0@) && str_fits(
                labels@[i].1@,
            )),
        r matches Err(e) ==> e == WireError::TooLarge,
        r is Ok ==> final(out)@ == old(out)@ + enc_labels(labels_view(labels@)),
    decreases labels@.len(),
{
    if labels.len() == 0 {
        proof {
            assert(out@ =~= old(out)@ + enc_labels(labels_view(labels@)));
        }
        return Ok(());
    }
    let before: Ghost<Seq<u8>> = Ghost(out@);
    if let Err(e) = push_str(out, &labels[0].0) {
        // nothing of this label was written
        return Err(e);
    }
    if let Err(e) = push_str(out, &labels[0].1) {
        // a half-written label is fine: on any error the whole message is dropped
        return Err(e);
    }
    let rest = slice_subrange(labels, 1, labels.len());
    let r = push_labels(out, rest);
    proof {
        let lv = labels_view(labels@);
        assert(labels_view(rest@) =~= lv.drop_first());
        if r is Ok {
            assert(out@ =~= before@ + enc_labels(lv));
            assert forall|i: int| 0 <= i < labels@.len() implies str_fits(
                (#[trigger] labels@[i]).0@,
            ) && str_fits(labels@[i].1@) by {
                if i > 0 {
                    assert(rest@[i - 1] == labels@[i]);
                }
            }
        } else {
            assert_by_contradiction!(!(forall|i: int|
                0 <= i < labels@.len() ==> str_fits((#[trigger] labels@[i]).0@) && str_fits(
                    labels@[i].1@,
                )), {
                assert forall|i: int| 0 <= i < rest@.len() implies str_fits(
                    (#[trigger] rest@[i]).0@,
                ) && str_fits(rest@[i].1@) by {
                    assert(rest@[i] == labels@[i + 1]);
                }
            });
        }
    }
    r
}

fn push_meta(out: &mut Vec<u8>, m: &Metadata) -> (r: Result<(), WireError>)
    ensures
        r is Ok <==> meta_fits(meta_view(*m)),
        r matches Err(e) ==> e == WireError::TooLarge,
        r is Ok ==> final(out)@ == old(out)@ + enc_meta(meta_view(*m)),
    decreases 0int,
{
    push_u64(out, m.hash);
    let kb: u8 = match m.kind {
        InstrumentKind::Counter => 0,
        InstrumentKind::Gauge => 1,
        InstrumentKind::Histogram => 2,
    };
    out.push(kb);
    if let Err(e) = push_str(out, &m.name) {
        return Err(e);
    }
    if m.labels.len() > u32::MAX as usize {
        proof {
            assert(labels_view(m.labels@).len() == m.labels@.len());
        }
        return Err(WireError::TooLarge);
    }
    push_u32(out, m.labels.len() as u32);
    let r = push_labels(out, m.labels.as_slice());
    proof {
        let lv = labels_view(m.labels@);
        assert(lv.len() == m.labels@.len());
        if r is Ok {
            assert(out@ =~= old(out)@ + enc_meta(meta_view(*m)));
            assert forall|i: int| 0 <= i < lv.len() implies str_fits(#[trigger] lv[i].0)
                && str_fits(lv[i].1) by {
                assert(lv[i] == (m.labels@[i].0@, m.labels@[i].1@));
            }
        } else {
            assert_by_contradiction!(!meta_fits(meta_view(*m)), {
                assert forall|i: int| 0 <= i < m.labels@.len() implies str_fits(
                    (#[trigger] m.labels@[i]).0@,
                ) && str_fits(m.labels@[i].1@) by {
                    assert(lv[i] == (m.labels@[i].0@, m.labels@[i].1@));
                    assert(str_fits(lv[i].0) && str_fits(lv[i].1));
                }
            });
        }
    }
    r
}

fn push_metas(out: &mut Vec<u8>, ms: &[Metadata]) -> (r: Result<(), WireError>)
    ensures
        r is Ok <==> (forall|i: int| 0 <= i < ms@.len() ==> meta_fits(metas_view(ms@)[i])),
        r matches Err(e) ==> e == WireError::TooLarge,
        r is Ok ==> final(out)@ == old(out)@ + enc_metas(metas_view(ms@)),
    decreases ms@.len(),
{
    if ms.len() == 0 {
        proof {
            assert(out@ =~= old(out)@ + enc_metas(metas_view(ms@)));
        }
        return Ok(());
    }
    let before: Ghost<Seq<u8>> = Ghost(out@);
    if let Err(e) = push_meta(out, &ms[0]) {
        proof {
            assert(metas_view(ms@)[0] == meta_view(ms@[0]));
        }
        return Err(e);
    }
    let rest = slice_subrange(ms, 1, ms.len());
    let r = push_metas(out, rest);
    proof {
        let mv = metas_view(ms@);
        assert(metas_view(rest@) =~= mv.drop_first());
        assert(mv[0] == meta_view(ms@[0]));
        if r is Ok {
            assert(out@ =~= before@ + enc_metas(mv));
            assert forall|i: int| 0 <= i < ms@.len() implies meta_fits(mv[i]) by {
                if i > 0 {
                    assert(metas_view(rest@)[i - 1] == mv[i]);
                }
            }
        } else {
            assert_by_contradiction!(!(forall|i: int| 0 <= i < ms@.len() ==> meta_fits(mv[i])), {
                assert forall|i: int| 0 <= i < rest@.len() implies meta_fits(
                    #[trigger] metas_view(rest@)[i],
                ) by {
                    assert(metas_view(rest@)[i] == mv[i + 1]);
                }
            });
        }
    }
    r
}

fn push_values(out: &mut Vec<u8>, vs: &[Value])
    ensures
        final(out)@ == old(out)@ + enc_values(vs@),
    decreases vs@.len(),
{
    if vs.len() == 0 {
        proof {
            assert(out@ =~= old(out)@ + enc_values(vs@));
        }
        return ;
    }
    let v = vs[0];
    push_u64(out, v.hash);
    push_u64(out, v.value);
    let rest = slice_subrange(vs, 1, vs.len());
    push_values(out, rest);
    proof {
        assert(rest@ =~= vs@.drop_first());
        assert(out@ =~= old(out)@ + enc_values(vs@));
    }
}

/// Encode a query body: its version, little-endian.
pub fn encode_query(q: &Query) -> (out: Vec<u8>)
    ensures
        out@ == enc_query(q.version),
{
    let mut out: Vec<u8> = Vec::new();
    push_u64(&mut out, q.version);
    proof {
        assert(out@ =~= enc_query(q.version));
    }
    out
}

/// Encode a result body. Fails exactly when a list or string is too large
/// for its 32-bit length prefix.
pub fn encode_result(r: &QueryResult) -> (out: Result<Vec<u8>, WireError>)
    ensures
        out is Ok <==> result_fits(result_view(*r)),
        out matches Err(e) ==> e == WireError::TooLarge,
        out matches Ok(b) ==> b@ == enc_result(result_view(*r)),
{
    let mut out: Vec<u8> = Vec::new();
    if r.values.len() > u32::MAX as usize {
        return Err(WireError::TooLarge);
    }
    push_u32(&mut out, r.values.len() as u32);
    push_values(&mut out, r.values.as_slice());
    if r.metadatas.len() > u32::MAX as usize {
        return Err(WireError::TooLarge);
    }
    push_u32(&mut out, r.metadatas.len() as u32);
    if let Err(e) = push_metas(&mut out, r.metadatas.as_slice()) {
        return Err(e);
    }
    push_u64(&mut out, r.version);
    proof {
        assert(out@ =~= enc_result(result_view(*r)));
    }
    Ok(out)
}

// ---------------------------------------------------------------------------
// Decoding
// ---------------------------------------------------------------------------

fn read_u64(b: &[u8], pos: usize) -> (r: Option<(u64, usize)>)
    requires
        pos <= b@.len(),
    ensures
        match r {
            Some((x, p2)) => pos <= p2 <= b@.len() && dec_u64(b@.skip(pos as int)) == Some(
                (x, b@.skip(p2 as int)),
            ),
            None => dec_u64(b@.skip(pos as int)) is None,
        },
{
    if b.len() - pos >= 8 {
        let x = u64_from_le_bytes(slice_subrange(b, pos, pos + 8));
        proof {
            assert(b@.skip(pos as int).take(8) =~= b@.subrange(pos as int, pos + 8));
            assert(b@.skip(pos as int).skip(8) =~= b@.skip(pos + 8));
        }
        Some((x, pos + 8))
    } else {
        None
    }
}

fn read_u32(b: &[u8], pos: usize) -> (r: Option<(u32, usize)>)
    requires
        pos <= b@.len(),
    ensures
        match r {
            Some((x, p2)) => pos <= p2 <= b@.len() && dec_u32(b@.skip(pos as int)) == Some(
                (x, b@.skip(p2 as int)),
            ),
            None => dec_u32(b@.skip(pos as int)) is None,
        },
{
    if b.len() - pos >= 4 {
        let x = u32_from_le_bytes(slice_subrange(b, pos, pos + 4));
        proof {
            assert(b@.skip(pos as int).take(4) =~= b@.subrange(pos as int, pos + 4));
            assert(b@.skip(pos as int).skip(4) =~= b@.skip(pos + 4));
        }
        Some((x, pos + 4))
    } else {
        None
    }
}

fn read_kind(b: &[u8], pos: usize) -> (r: Option<(InstrumentKind, usize)>)
    requires
        pos <= b@.len(),
    ensures
        match r {
            Some((k, p2)) => pos <= p2 <= b@.len() && dec_kind(b@.skip(pos as int)) == Some(
                (k, b@.skip(p2 as int)),
            ),
            None => dec_kind(b@.skip(pos as int)) is None,
        },
{
    if b.len() - pos >= 1 {
        proof {
            assert(b@.skip(pos as int)[0] == b@[pos as int]);
            assert(b@.skip(pos as int).skip(1) =~= b@.skip(pos + 1));
        }
        let kb = b[pos];
        if kb == 0 {
            Some((InstrumentKind::Counter, pos + 1))
        } else if kb == 1 {
            Some((InstrumentKind::Gauge, pos + 1))
        } else if kb == 2 {
            Some((InstrumentKind::Histogram, pos + 1))
        } else {
            None
        }
    } else {
        None
    }
}

fn read_str(b: &[u8], pos: usize) -> (r: Option<(String, usize)>)
    requires
        pos <= b@.len(),
    ensures
        match r {
            Some((s, p2)) => pos <= p2 <= b@.len() && dec_str(b@.skip(pos as int)) == Some(
                (s@, b@.skip(p2 as int)),
            ),
            None => dec_str(b@.skip(pos as int)) is None,
        },
{
    let (n, p1) = match read_u32(b, pos) {
        Some(x) => x,
        None => {
            return None;
        },
    };
    if b.len() - p1 < n as usize {
        proof {
            assert(b@.skip(p1 as int).len() < n);
        }
        return None;
    }
    let chunk = slice_subrange(b, p1, p1 + n as usize);
    proof {
        assert(chunk@ =~= b@.skip(p1 as int).take(n as int));
    }
    match string_from_utf8(slice_to_vec(chunk)) {
        Some(s) => {
            proof {
                assert(b@.skip(p1 as int).skip(n as int) =~= b@.skip(p1 + n as usize));
            }
            Some((s, p1 + n as usize))
        },
        None => None,
    }
}

fn read_labels(b: &[u8], pos: usize, n: u32) -> (r: Option<(Vec<(String, String)>, usize)>)
    requires
        pos <= b@.len(),
    ensures
        match r {
            Some((ls, p2)) => pos <= p2 <= b@.len() && dec_labels(b@.skip(pos as int), n as nat)
                == Some((labels_view(ls@), b@.skip(p2 as int))),
            None => dec_labels(b@.skip(pos as int), n as nat) is None,
        },
    decreases n,
{
    if n == 0 {
        let ls: Vec<(String, String)> = Vec::new();
        proof {
            assert(labels_view(ls@) =~= Seq::<(Seq<char>, Seq<char>)>::empty());
        }
        return Some((ls, pos));
    }
    let (k, p1) = match read_str(b, pos) {
        Some(x) => x,
        None => {
            return None;
        },
    };
    let (v, p2) = match read_str(b, p1) {
        Some(x) => x,
        None => {
            return None;
        },
    };
    let (mut rest, p3) = match read_labels(b, p2, n - 1) {
        Some(x) => x,
        None => {
            return None;
        },
    };
    let rest_view: Ghost<Seq<(String, String)>> = Ghost(rest@);
    let mut ls: Vec<(String, String)> = Vec::new();
    ls.push((k, v));
    ls.append(&mut rest);
    proof {
        assert(labels_view(ls@) =~= seq![(k@, v@)] + labels_view(rest_view@));
    }
    Some((ls, p3))
}

fn read_meta(b: &[u8], pos: usize) -> (r: Option<(Metadata, usize)>)
    requires
        pos <= b@.len(),
    ensures
        match r {
            Some((m, p2)) => pos <= p2 <= b@.len() && dec_meta(b@.skip(pos as int)) == Some(
                (meta_view(m), b@.skip(p2 as int)),
            ),
            None => dec_meta(b@.skip(pos as int)) is None,
        },
{
    let (hash, p1) = match read_u64(b, pos) {
        Some(x) => x,
        None => {
            return None;
        },
    };
    let (kind, p2) = match read_kind(b, p1) {
        Some(x) => x,
        None => {
            return None;
        },
    };
    let (name, p3) = match read_str(b, p2) {
        Some(x) => x,
        None => {
            return None;
        },
    };
    let (n, p4) = match read_u32(b, p3) {
        Some(x) => x,
        None => {
            return None;
        },
    };
    let (labels, p5) = match read_labels(b, p4, n) {
        Some(x) => x,
        None => {
            return None;
        },
    };
    Some((Metadata { hash, kind, name, labels }, p5))
}

fn read_metas(b: &[u8], pos: usize, n: u32) -> (r: Option<(Vec<Metadata>, usize)>)
    requires
        pos <= b@.len(),
    ensures
        match r {
            Some((ms, p2)) => pos <= p2 <= b@.len() && dec_metas(b@.skip(pos as int), n as nat)
                == Some((metas_view(ms@), b@.skip(p2 as int))),
            None => dec_metas(b@.skip(pos as int), n as nat) is None,
        },
    decreases n,
{
    if n == 0 {
        let ms: Vec<Metadata> = Vec::new();
        proof {
            assert(metas_view(ms@) =~= Seq::<MetaView>::empty());
        }
        return Some((ms, pos));
    }
    let (m, p1) = match read_meta(b, pos) {
        Some(x) => x,
        None => {
            return None;
        },
    };
    let (mut rest, p2) = match read_metas(b, p1, n - 1) {
        Some(x) => x,
        None => {
            return None;
        },
    };
    let rest_view: Ghost<Seq<Metadata>> = Ghost(rest@);
    let mut ms: Vec<Metadata> = Vec::new();
    let m_view: Ghost<MetaView> = Ghost(meta_view(m));
    ms.push(m);
    ms.append(&mut rest);
    proof {
        assert(metas_view(ms@) =~= seq![m_view@] + metas_view(rest_view@));
    }
    Some((ms, p2))
}

fn read_values(b: &[u8], pos: usize, n: u32) -> (r: Option<(Vec<Value>, usize)>)
    requires
        pos <= b@.len(),
    ensures
        match r {
            Some((vs, p2)) => pos <= p2 <= b@.len() && dec_values(b@.skip(pos as int), n as nat)
                == Some((vs@, b@.skip(p2 as int))),
            None => dec_values(b@.skip(pos as int), n as nat) is None,
        },
    decreases n,
{
    if n == 0 {
        let vs: Vec<Value> = Vec::new();
        proof {
            assert(vs@ =~= Seq::<Value>::empty());
        }
        return Some((vs, pos));
    }
    let (hash, p1) = match read_u64(b, pos) {
        Some(x) => x,
        None => {
            return None;
        },
    };
    let (value, p2) = match read_u64(b, p1) {
        Some(x) => x,
        None => {
            return None;
        },
    };
    let (mut rest, p3) = match read_values(b, p2, n - 1) {
        Some(x) => x,
        None => {
            return None;
        },
    };
    let rest_view: Ghost<Seq<Value>> = Ghost(rest@);
    let mut vs: Vec<Value> = Vec::new();
    vs.push(Value { hash, value });
    vs.append(&mut rest);
    proof {
        assert(vs@ =~= seq![Value { hash, value }] + rest_view@);
    }
    Some((vs, p3))
}

/// Decode a query body. Succeeds exactly on the bytes that spell one
/// version number and nothing more.
pub fn decode_query(b: &[u8]) -> (r: Result<Query, WireError>)
    ensures
        r is Ok <==> dec_query(b@) is Some,
        r matches Ok(q) ==> dec_query(b@) == Some(q.version),
        r matches Err(e) ==> e == WireError::Malformed,
{
    proof {
        assert(b@.skip(0) =~= b@);
    }
    match read_u64(b, 0) {
        Some((version, p)) => {
            if p == b.len() {
                proof {
                    assert(b@.skip(p as int).len() == 0);
                }
                Ok(Query { version })
            } else {
                proof {
                    assert(b@.skip(p as int).len() > 0);
                }
                Err(WireError::Malformed)
            }
        },
        None => Err(WireError::Malformed),
    }
}

/// Decode a result body. Succeeds exactly on the bytes that spell one
/// whole `QueryResult` and nothing more.
pub fn decode_result(b: &[u8]) -> (r: Result<QueryResult, WireError>)
    ensures
        r matches Ok(q) ==> dec_result(b@) == Some(result_view(q)),
        r is Err <==> dec_result(b@) is None,
        r matches Err(e) ==> e == WireError::Malformed,
{
    proof {
        assert(b@.skip(0) =~= b@);
    }
    let (nv, p1) = match read_u32(b, 0) {
        Some(x) => x,
        None => {
            return Err(WireError::Malformed);
        },
    };
    let (values, p2) = match read_values(b, p1, nv) {
        Some(x) => x,
        None => {
            return Err(WireError::Malformed);
        },
    };
    let (nm, p3) = match read_u32(b, p2) {
        Some(x) => x,
        None => {
            return Err(WireError::Malformed);
        },
    };
    let (metadatas, p4) = match read_metas(b, p3, nm) {
        Some(x) => x,
        None => {
            return Err(WireError::Malformed);
        },
    };
    let (version, p5) = match read_u64(b, p4) {
        Some(x) => x,
        None => {
            return Err(WireError::Malformed);
        },
    };
    if p5 != b.len() {
        proof {
            assert(b@.skip(p5 as int).len() > 0);
        }
        return Err(WireError::Malformed);
    }
    proof {
        assert(b@.skip(p5 as int).len() == 0);
    }
    Ok(QueryResult { values, metadatas, version })
}

// ---------------------------------------------------------------------------
// Framing: a 4-byte big-endian length prefix before every message body.
// ---------------------------------------------------------------------------

/// The big-endian bytes of a 32-bit length.
pub open spec fn spec_u32_be(x: u32) -> Seq<u8> {
    seq![
        ((x >> 24) & 0xff) as u8,
        ((x >> 16) & 0xff) as u8,
        ((x >> 8) & 0xff) as u8,
        (x & 0xff) as u8,
    ]
}

/// A framed message: the body's length as 4 big-endian bytes, then the body.
pub open spec fn spec_frame(body: Seq<u8>) -> Seq<u8> {
    spec_u32_be(body.len() as u32) + body
}

/// Prefix a message body with its 4-byte big-endian length. Fails exactly
/// when the body is too long for the prefix.
pub fn frame(body: &Vec<u8>) -> (r: Result<Vec<u8>, WireError>)
    ensures
        r is Ok <==> body@.len() <= u32::MAX,
        r matches Err(e) ==> e == WireError::TooLarge,
        r matches Ok(f) ==> f@ == spec_frame(body@),
{
    if body.len() > u32::MAX as usize {
        return Err(WireError::TooLarge);
    }
    let n = body.len() as u32;
    let mut out: Vec<u8> = Vec::new();
    out.push((n >> 24) as u8);
    out.push(((n >> 16) & 0xff) as u8);
    out.push(((n >> 8) & 0xff) as u8);
    out.push((n & 0xff) as u8);
    proof {
        assert((n >> 24) & 0xff == n >> 24) by (bit_vector);
        assert(out@ =~= spec_u32_be(n));
    }
    let mut b = slice_to_vec(body.as_slice());
    out.append(&mut b);
    proof {
        assert(out@ =~= spec_frame(body@));
    }
    Ok(out)
}

/// One framed query, ready to send: the 4-byte length prefix and the
/// 8-byte query body.
pub fn build_query(q: &Query) -> (out: Vec<u8>)
    ensures
        out@ == spec_frame(enc_query(q.version)),
{
    let body = encode_query(q);
    proof {
        vstd::bytes::lemma_auto_spec_u64_to_from_le_bytes();
    }
    match frame(&body) {
        Ok(f) => f,
        Err(_) => unreached(),
    }
}

/// Read the body length out of a 4-byte big-endian frame header.
pub fn frame_len(h: &[u8]) -> (n: u32)
    requires
        h@.len() == 4,
    ensures
        spec_u32_be(n) == h@,
        forall|body: Seq<u8>|
            body.len() <= u32::MAX ==> ((#[trigger] spec_frame(body)).take(4) == h@ ==> body.len()
                == n),
{
    let n = ((h[0] as u32) << 24) | ((h[1] as u32) << 16) | ((h[2] as u32) << 8) | (h[3] as u32);
    proof {
        let b0 = h@[0];
        let b1 = h@[1];
        let b2 = h@[2];
        let b3 = h@[3];
        assert(((((b0 as u32) << 24) | ((b1 as u32) << 16) | ((b2 as u32) << 8) | (b3 as u32))
            >> 24) & 0xff == b0 as u32 && ((((b0 as u32) << 24) | ((b1 as u32) << 16) | ((
        b2 as u32) << 8) | (b3 as u32)) >> 16) & 0xff == b1 as u32 && ((((b0 as u32) << 24) | ((
        b1 as u32) << 16) | ((b2 as u32) << 8) | (b3 as u32)) >> 8) & 0xff == b2 as u32 && (((
        b0 as u32) << 24) | ((b1 as u32) << 16) | ((b2 as u32) << 8) | (b3 as u32)) & 0xff
            == b3 as u32) by (bit_vector);
        assert(spec_u32_be(n) =~= h@);
        assert forall|body: Seq<u8>|
            body.len() <= u32::MAX && (#[trigger] spec_frame(body)).take(4) == h@ implies body.len()
            == n by {
            let c = body.len() as u32;
            assert(spec_frame(body).take(4) =~= spec_u32_be(c));
            assert(spec_u32_be(c)[0] == ((c >> 24) & 0xff) as u8);
            let d = n;
            assert(((c >> 24) & 0xff) as u8 == ((d >> 24) & 0xff) as u8 && ((c >> 16) & 0xff) as u8
                == ((d >> 16) & 0xff) as u8 && ((c >> 8) & 0xff) as u8 == ((d >> 8) & 0xff) as u8
                && (c & 0xff) as u8 == (d & 0xff) as u8 ==> c == d) by (bit_vector);
        }
    }
    n
}

} // verus!
