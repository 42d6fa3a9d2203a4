//! The collector wire protocol: message schema, a deterministic binary
//! encoding, and its decoder. Every message travels as a 4-byte big-endian
//! length prefix followed by exactly that many body bytes.

use vstd::prelude::*;

verus! {

use vstd::bytes::{
    spec_u32_to_le_bytes,
    spec_u32_from_le_bytes,
    spec_u64_to_le_bytes,
    spec_u64_from_le_bytes,
    lemma_auto_spec_u32_to_from_le_bytes,
    lemma_auto_spec_u64_to_from_le_bytes,
};
use vstd::utf8::{encode_utf8, decode_utf8, valid_utf8, encode_utf8_valid_utf8,
    encode_utf8_decode_utf8};
use crate::token::labels_view;

/// Kind of a measuring instrument, stored per token in metadata.
#[derive(Clone, Copy, Debug, PartialEq, Eq, Structural)]
pub enum InstrumentKind {
    Counter,
    Gauge,
    Histogram,
}

/// One instrument's current value on the wire: its token hash and the raw
/// 64 bits held by its cell.
#[derive(Clone, Copy, Debug, PartialEq, Eq, Structural)]
pub struct Value {
    pub hash: u64,
    pub value: u64,
}

/// Descriptive record of one registered instrument: immutable once written
/// for a given hash.
#[derive(Debug, Clone, PartialEq, Eq)]
pub struct Metadata {
    pub hash: u64,
    pub kind: InstrumentKind,
    pub name: String,
    pub labels: Vec<(String, String)>,
}

/// The mathematical content of a `Metadata`.
pub ghost struct MetaView {
    pub hash: u64,
    pub kind: InstrumentKind,
    pub name: Seq<char>,
    pub labels: Seq<(Seq<char>, Seq<char>)>,
}

pub open spec fn meta_view(m: Metadata) -> MetaView {
    MetaView { hash: m.hash, kind: m.kind, name: m.name@, labels: labels_view(m.labels@) }
}

pub open spec fn metas_view(s: Seq<Metadata>) -> Seq<MetaView> {
    Seq::new(s.len(), |i: int| meta_view(s[i]))
}

/// A client's poll request: the registration version it last observed.
#[derive(Clone, Copy, Debug, PartialEq, Eq, Structural)]
pub struct Query {
    pub version: u64,
}

/// The server's answer: every instrument's current value, the metadata
/// snapshot when the client's version is stale, and the current version.
#[derive(Debug, PartialEq, Eq)]
pub struct QueryResult {
    pub values: Vec<Value>,
    pub metadatas: Vec<Metadata>,
    pub version: u64,
}

/// The mathematical content of a `QueryResult`.
pub ghost struct QueryResultView {
    pub values: Seq<Value>,
    pub metadatas: Seq<MetaView>,
    pub version: u64,
}

pub open spec fn result_view(r: QueryResult) -> QueryResultView {
    QueryResultView {
        values: r.values@,
        metadatas: metas_view(r.metadatas@),
        version: r.version,
    }
}

/// Why a message could not be encoded or decoded.
#[derive(Clone, Copy, Debug, PartialEq, Eq, Structural)]
pub enum WireError {
    /// The bytes do not spell a well-formed message.
    Malformed,
    /// A field or the whole body is too large for its length prefix.
    TooLarge,
}

// ---------------------------------------------------------------------------
// Encoding, as specification functions. Body integers are little-endian;
// byte strings and repeated fields carry a 32-bit element count up front.
// ---------------------------------------------------------------------------

pub open spec fn enc_u64(x: u64) -> Seq<u8> {
    spec_u64_to_le_bytes(x)
}

pub open spec fn enc_u32(x: u32) -> Seq<u8> {
    spec_u32_to_le_bytes(x)
}

pub open spec fn enc_bytes(b: Seq<u8>) -> Seq<u8> {
    enc_u32(b.len() as u32) + b
}

pub open spec fn enc_str(s: Seq<char>) -> Seq<u8> {
    enc_bytes(encode_utf8(s))
}

pub open spec fn enc_label(l: (Seq<char>, Seq<char>)) -> Seq<u8> {
    enc_str(l.0) + enc_str(l.1)
}

pub open spec fn enc_labels(ls: Seq<(Seq<char>, Seq<char>)>) -> Seq<u8>
    decreases ls.len(),
{
    if ls.len() == 0 {
        seq![]
    } else {
        enc_label(ls.first()) + enc_labels(ls.drop_first())
    }
}

pub open spec fn kind_byte(k: InstrumentKind) -> u8 {
    match k {
        InstrumentKind::Counter => 0,
        InstrumentKind::Gauge => 1,
        InstrumentKind::Histogram => 2,
    }
}

pub open spec fn enc_meta(m: MetaView) -> Seq<u8> {
    enc_u64(m.hash) + seq![kind_byte(m.kind)] + enc_str(m.name) + enc_u32(m.labels.len() as u32)
        + enc_labels(m.labels)
}

pub open spec fn enc_metas(ms: Seq<MetaView>) -> Seq<u8>
    decreases ms.len(),
{
    if ms.len() == 0 {
        seq![]
    } else {
        enc_meta(ms.first()) + enc_metas(ms.drop_first())
    }
}

pub open spec fn enc_value(v: Value) -> Seq<u8> {
    enc_u64(v.hash) + enc_u64(v.value)
}

pub open spec fn enc_values(vs: Seq<Value>) -> Seq<u8>
    decreases vs.len(),
{
    if vs.len() == 0 {
        seq![]
    } else {
        enc_value(vs.first()) + enc_values(vs.drop_first())
    }
}

pub open spec fn enc_query(version: u64) -> Seq<u8> {
    enc_u64(version)
}

pub open spec fn enc_result(r: QueryResultView) -> Seq<u8> {
    enc_u32(r.values.len() as u32) + enc_values(r.values) + enc_u32(r.metadatas.len() as u32)
        + enc_metas(r.metadatas) + enc_u64(r.version)
}

// The encoding above is exact only when every length fits its 32-bit prefix.

pub open spec fn str_fits(s: Seq<char>) -> bool {
    encode_utf8(s).len() <= u32::MAX
}

pub open spec fn meta_fits(m: MetaView) -> bool {
    &&& str_fits(m.name)
    &&& m.labels.len() <= u32::MAX
    &&& forall|i: int|
        0 <= i < m.labels.len() ==> str_fits(#[trigger] m.labels[i].0) && str_fits(m.labels[i].1)
}

pub open spec fn result_fits(r: QueryResultView) -> bool {
    &&& r.values.len() <= u32::MAX
    &&& r.metadatas.len() <= u32::MAX
    &&& forall|i: int| 0 <= i < r.metadatas.len() ==> meta_fits(#[trigger] r.metadatas[i])
}

// ---------------------------------------------------------------------------
// Decoding, as specification functions. Each one consumes a prefix of the
// byte sequence and yields the decoded piece and the remainder.
// ---------------------------------------------------------------------------

pub open spec fn dec_u64(b: Seq<u8>) -> Option<(u64, Seq<u8>)> {
    if b.len() >= 8 {
        Some((spec_u64_from_le_bytes(b.take(8)), b.skip(8)))
    } else {
        None
    }
}

pub open spec fn dec_u32(b: Seq<u8>) -> Option<(u32, Seq<u8>)> {
    if b.len() >= 4 {
        Some((spec_u32_from_le_bytes(b.take(4)), b.skip(4)))
    } else {
        None
    }
}

pub open spec fn dec_kind(b: Seq<u8>) -> Option<(InstrumentKind, Seq<u8>)> {
    if b.len() >= 1 {
        if b[0] == 0 {
            Some((InstrumentKind::Counter, b.skip(1)))
        } else if b[0] == 1 {
            Some((InstrumentKind::Gauge, b.skip(1)))
        } else if b[0] == 2 {
            Some((InstrumentKind::Histogram, b.skip(1)))
        } else {
            None
        }
    } else {
        None
    }
}

pub open spec fn dec_str(b: Seq<u8>) -> Option<(Seq<char>, Seq<u8>)> {
    match dec_u32(b) {
        Some((n, r)) => {
            if r.len() >= n && valid_utf8(r.take(n as int)) {
                Some((decode_utf8(r.take(n as int)), r.skip(n as int)))
            } else {
                None
            }
        },
        None => None,
    }
}

pub open spec fn dec_labels(b: Seq<u8>, n: nat) -> Option<(Seq<(Seq<char>, Seq<char>)>, Seq<u8>)>
    decreases n,
{
    if n == 0 {
        Some((seq![], b))
    } else {
        match dec_str(b) {
            Some((k, r1)) => match dec_str(r1) {
                Some((v, r2)) => match dec_labels(r2, (n - 1) as nat) {
                    Some((rest, r3)) => Some((seq![(k, v)] + rest, r3)),
                    None => None,
                },
                None => None,
            },
            None => None,
        }
    }
}

pub open spec fn dec_meta(b: Seq<u8>) -> Option<(MetaView, Seq<u8>)> {
    match dec_u64(b) {
        Some((hash, r1)) => match dec_kind(r1) {
            Some((kind, r2)) => match dec_str(r2) {
                Some((name, r3)) => match dec_u32(r3) {
                    Some((n, r4)) => match dec_labels(r4, n as nat) {
                        Some((labels, r5)) => Some((MetaView { hash, kind, name, labels }, r5)),
                        None => None,
                    },
                    None => None,
                },
                None => None,
            },
            None => None,
        },
        None => None,
    }
}

pub open spec fn dec_metas(b: Seq<u8>, n: nat) -> Option<(Seq<MetaView>, Seq<u8>)>
    decreases n,
{
    if n == 0 {
        Some((seq![], b))
    } else {
        match dec_meta(b) {
            Some((m, r1)) => match dec_metas(r1, (n - 1) as nat) {
                Some((rest, r2)) => Some((seq![m] + rest, r2)),
                None => None,
            },
            None => None,
        }
    }
}

pub open spec fn dec_value(b: Seq<u8>) -> Option<(Value, Seq<u8>)> {
    match dec_u64(b) {
        Some((hash, r1)) => match dec_u64(r1) {
            Some((value, r2)) => Some((Value { hash, value }, r2)),
            None => None,
        },
        None => None,
    }
}

pub open spec fn dec_values(b: Seq<u8>, n: nat) -> Option<(Seq<Value>, Seq<u8>)>
    decreases n,
{
    if n == 0 {
        Some((seq![], b))
    } else {
        match dec_value(b) {
            Some((v, r1)) => match dec_values(r1, (n - 1) as nat) {
                Some((rest, r2)) => Some((seq![v] + rest, r2)),
                None => None,
            },
            None => None,
        }
    }
}

/// A query body is exactly one version number.
pub open spec fn dec_query(b: Seq<u8>) -> Option<u64> {
    match dec_u64(b) {
        Some((v, r)) => if r.len() == 0 {
            Some(v)
        } else {
            None
        },
        None => None,
    }
}

/// A result body is the value list, the metadata list, then the version,
/// with nothing after.
pub open spec fn dec_result(b: Seq<u8>) -> Option<QueryResultView> {
    match dec_u32(b) {
        Some((nv, r1)) => match dec_values(r1, nv as nat) {
            Some((values, r2)) => match dec_u32(r2) {
                Some((nm, r3)) => match dec_metas(r3, nm as nat) {
                    Some((metadatas, r4)) => match dec_u64(r4) {
                        Some((version, r5)) => if r5.len() == 0 {
                            Some(QueryResultView { values, metadatas, version })
                        } else {
                            None
                        },
                        None => None,
                    },
                    None => None,
                },
                None => None,
            },
            None => None,
        },
        None => None,
    }
}

// ---------------------------------------------------------------------------
// Round trip: decoding an encoding yields the encoded message.
// ---------------------------------------------------------------------------

pub proof fn lemma_dec_u64(x: u64, rest: Seq<u8>)
    ensures
        dec_u64(enc_u64(x) + rest) == Some((x, rest)),
{
    lemma_auto_spec_u64_to_from_le_bytes();
    assert((enc_u64(x) + rest).take(8) =~= enc_u64(x));
    assert((enc_u64(x) + rest).skip(8) =~= rest);
}

pub proof fn lemma_dec_u32(x: u32, rest: Seq<u8>)
    ensures
        dec_u32(enc_u32(x) + rest) == Some((x, rest)),
{
    lemma_auto_spec_u32_to_from_le_bytes();
    assert((enc_u32(x) + rest).take(4) =~= enc_u32(x));
    assert((enc_u32(x) + rest).skip(4) =~= rest);
}

pub proof fn lemma_dec_kind(k: InstrumentKind, rest: Seq<u8>)
    ensures
        dec_kind(seq![kind_byte(k)] + rest) == Some((k, rest)),
{
    assert((seq![kind_byte(k)] + rest).skip(1) =~= rest);
}

pub proof fn lemma_dec_str(s: Seq<char>, rest: Seq<u8>)
    requires
        str_fits(s),
    ensures
        dec_str(enc_str(s) + rest) == Some((s, rest)),
{
    let bytes = encode_utf8(s);
    let n = bytes.len() as u32;
    assert(enc_str(s) + rest =~= enc_u32(n) + (bytes + rest));
    lemma_dec_u32(n, bytes + rest);
    assert((bytes + rest).take(n as int) =~= bytes);
    assert((bytes + rest).skip(n as int) =~= rest);
    encode_utf8_valid_utf8(s);
    encode_utf8_decode_utf8(s);
}

pub proof fn lemma_dec_labels(ls: Seq<(Seq<char>, Seq<char>)>, rest: Seq<u8>)
    requires
        forall|i: int| 0 <= i < ls.len() ==> str_fits(#[trigger] ls[i].0) && str_fits(ls[i].1),
    ensures
        dec_labels(enc_labels(ls) + rest, ls.len()) == Some((ls, rest)),
    decreases ls.len(),
{
    if ls.len() == 0 {
        assert(enc_labels(ls) + rest =~= rest);
    } else {
        let l = ls.first();
        let tail = ls.drop_first();
        assert(enc_labels(ls) + rest =~= enc_str(l.0) + (enc_str(l.1) + (enc_labels(tail)
            + rest)));
        lemma_dec_str(l.0, enc_str(l.1) + (enc_labels(tail) + rest));
        lemma_dec_str(l.1, enc_labels(tail) + rest);
        lemma_dec_labels(tail, rest);
        assert(seq![(l.0, l.1)] + tail =~= ls);
    }
}

pub proof fn lemma_dec_meta(m: MetaView, rest: Seq<u8>)
    requires
        meta_fits(m),
    ensures
        dec_meta(enc_meta(m) + rest) == Some((m, rest)),
{
    let after_hash = seq![kind_byte(m.kind)] + (enc_str(m.name) + (enc_u32(
        m.labels.len() as u32,
    ) + (enc_labels(m.labels) + rest)));
    assert(enc_meta(m) + rest =~= enc_u64(m.hash) + after_hash);
    lemma_dec_u64(m.hash, after_hash);
    let after_kind = enc_str(m.name) + (enc_u32(m.labels.len() as u32) + (enc_labels(m.labels)
        + rest));
    lemma_dec_kind(m.kind, after_kind);
    let after_name = enc_u32(m.labels.len() as u32) + (enc_labels(m.labels) + rest);
    lemma_dec_str(m.name, after_name);
    lemma_dec_u32(m.labels.len() as u32, enc_labels(m.labels) + rest);
    lemma_dec_labels(m.labels, rest);
}

pub proof fn lemma_dec_metas(ms: Seq<MetaView>, rest: Seq<u8>)
    requires
        forall|i: int| 0 <= i < ms.len() ==> meta_fits(#[trigger] ms[i]),
    ensures
        dec_metas(enc_metas(ms) + rest, ms.len()) == Some((ms, rest)),
    decreases ms.len(),
{
    if ms.len() == 0 {
        assert(enc_metas(ms) + rest =~= rest);
    } else {
        let tail = ms.drop_first();
        assert(enc_metas(ms) + rest =~= enc_meta(ms.first()) + (enc_metas(tail) + rest));
        lemma_dec_meta(ms.first(), enc_metas(tail) + rest);
        lemma_dec_metas(tail, rest);
        assert(seq![ms.first()] + tail =~= ms);
    }
}

pub proof fn lemma_dec_value(v: Value, rest: Seq<u8>)
    ensures
        dec_value(enc_value(v) + rest) == Some((v, rest)),
{
    assert(enc_value(v) + rest =~= enc_u64(v.hash) + (enc_u64(v.value) + rest));
    lemma_dec_u64(v.hash, enc_u64(v.value) + rest);
    lemma_dec_u64(v.value, rest);
}

pub proof fn lemma_dec_values(vs: Seq<Value>, rest: Seq<u8>)
    ensures
        dec_values(enc_values(vs) + rest, vs.len()) == Some((vs, rest)),
    decreases vs.len(),
{
    if vs.len() == 0 {
        assert(enc_values(vs) + rest =~= rest);
    } else {
        let tail = vs.drop_first();
        assert(enc_values(vs) + rest =~= enc_value(vs.first()) + (enc_values(tail) + rest));
        lemma_dec_value(vs.first(), enc_values(tail) + rest);
        lemma_dec_values(tail, rest);
        assert(seq![vs.first()] + tail =~= vs);
    }
}

/// Each encoded value takes exactly 16 bytes.
pub proof fn lemma_enc_values_len(vs: Seq<Value>)
    ensures
        enc_values(vs).len() == 16 * vs.len(),
    decreases vs.len(),
{
    lemma_auto_spec_u64_to_from_le_bytes();
    if vs.len() == 0 {
    } else {
        lemma_enc_values_len(vs.drop_first());
    }
}

/// The length of an encoded result, by its parts.
pub proof fn lemma_enc_result_len(r: QueryResultView)
    ensures
        enc_result(r).len() == 16 + 16 * r.values.len() + enc_metas(r.metadatas).len(),
{
    lemma_auto_spec_u32_to_from_le_bytes();
    lemma_auto_spec_u64_to_from_le_bytes();
    lemma_enc_values_len(r.values);
}

/// Round trip for queries: decoding an encoded query gives the version back.
pub proof fn lemma_query_round_trip(version: u64)
    ensures
        dec_query(enc_query(version)) == Some(version),
{
    lemma_dec_u64(version, seq![]);
    assert(enc_query(version) =~= enc_u64(version) + seq![]);
}

/// Round trip for results: decoding an encoded result gives the same
/// values, metadata and version back, whenever every field fits its
/// 32-bit length prefix.
pub proof fn lemma_result_round_trip(r: QueryResultView)
    requires
        result_fits(r),
    ensures
        dec_result(enc_result(r)) == Some(r),
{
    let b = enc_result(r);
    let after_nv = enc_values(r.values) + (enc_u32(r.metadatas.len() as u32) + (enc_metas(
        r.metadatas,
    ) + enc_u64(r.version)));
    assert(b =~= enc_u32(r.values.len() as u32) + after_nv);
    lemma_dec_u32(r.values.len() as u32, after_nv);
    let after_values = enc_u32(r.metadatas.len() as u32) + (enc_metas(r.metadatas) + enc_u64(
        r.version,
    ));
    lemma_dec_values(r.values, after_values);
    lemma_dec_u32(r.metadatas.len() as u32, enc_metas(r.metadatas) + enc_u64(r.version));
    lemma_dec_metas(r.metadatas, enc_u64(r.version));
    lemma_dec_u64(r.version, seq![]);
    assert(enc_u64(r.version) =~= enc_u64(r.version) + seq![]);
}

} // verus!
