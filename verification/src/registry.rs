//! The shared concurrent registry: a reader/writer lock over the whole
//! store. Registration of a new token briefly takes the exclusive lock;
//! query serving and the get-or-create hot path take the shared lock; value
//! updates go through the atomic cells and take no lock at all.

use std::sync::atomic::AtomicU64;
use std::sync::Arc;
use vstd::prelude::*;

verus! {

use crate::instrument::{Counter, Write};
use crate::store::MutableData;
use crate::token::Token;
use crate::wire::{
    InstrumentKind,
    MetaView,
    QueryResultView,
    WireError,
    meta_fits,
    result_fits,
    result_view,
    enc_result,
    enc_metas,
    dec_query,
    dec_result,
    lemma_enc_result_len,
    lemma_result_round_trip,
};
use crate::codec::{decode_query, encode_result, frame, spec_frame};

#[verifier::external_type_specification]
#[verifier::external_body]
pub struct ExRawRwLock(parking_lot::RawRwLock);

#[verifier::external_type_specification]
#[verifier::external_body]
#[verifier::reject_recursive_types(R)]
#[verifier::reject_recursive_types(T)]
pub struct ExRwLock<R, T: ?Sized>(lock_api::RwLock<R, T>);

/// Holds parking_lot's shared-lock guard; the store stays readable while a
/// value of this type lives.
#[verifier::external_body]
pub struct ReadGuard<'a> {
    inner: parking_lot::RwLockReadGuard<'a, MutableData>,
}

/// Holds parking_lot's exclusive-lock guard; the store stays writable while
/// a value of this type lives.
#[verifier::external_body]
pub struct WriteGuard<'a> {
    inner: parking_lot::RwLockWriteGuard<'a, MutableData>,
}

/// Relies on `lock_api::RwLock::new` (parking_lot's reader/writer lock):
/// creates an unlocked lock holding `d`.
#[verifier::external_body]
fn new_lock(d: MutableData) -> parking_lot::RwLock<MutableData> {
    parking_lot::RwLock::new(d)
}

/// Relies on `lock_api::RwLock::read`: blocks until shared access is
/// granted; other readers may hold the lock at the same time.
#[verifier::external_body]
fn lock_read<'a>(l: &'a Arc<parking_lot::RwLock<MutableData>>) -> ReadGuard<'a> {
    ReadGuard { inner: l.read() }
}

/// Relies on `lock_api::RwLockReadGuard`'s `Deref`: a shared view of the
/// locked data, valid while the guard lives.
#[verifier::external_body]
fn read_guard_data<'a, 'b>(g: &'b ReadGuard<'a>) -> &'b MutableData {
    &*g.inner
}

/// Relies on `lock_api::RwLock::write`: blocks until exclusive access is
/// granted.
#[verifier::external_body]
fn lock_write<'a>(l: &'a Arc<parking_lot::RwLock<MutableData>>) -> WriteGuard<'a> {
    WriteGuard { inner: l.write() }
}

/// Relies on `lock_api::RwLockWriteGuard`'s `DerefMut`: exclusive access to
/// the locked data, valid while the guard lives.
#[verifier::external_body]
fn write_guard_data<'a, 'b>(g: &'b mut WriteGuard<'a>) -> &'b mut MutableData {
    &mut *g.inner
}

/// The metadata a response carries for a store at version `v` answering a
/// client that last saw `q`: the full snapshot when the client is stale,
/// nothing otherwise.
pub open spec fn resp_metas(d: MutableData, q: u64) -> Seq<MetaView> {
    if d.spec_version() > q {
        d.spec_metas()
    } else {
        seq![]
    }
}

/// When a response for store `d` and client version `q` can be encoded:
/// every list and string fits its 32-bit length prefix, and the whole body
/// fits the 4-byte frame prefix.
pub open spec fn resp_fits(d: MutableData, q: u64) -> bool {
    &&& d.spec_metas().len() <= u32::MAX
    &&& resp_metas(d, q).len() <= u32::MAX
    &&& (forall|i: int| 0 <= i < resp_metas(d, q).len() ==> meta_fits(#[trigger] resp_metas(d, q)[i]))
    &&& 16 + 16 * d.spec_metas().len() + enc_metas(resp_metas(d, q)).len() <= u32::MAX
}

/// What a response body says about the store it was built from: the
/// store's version, the version-gated metadata snapshot, and one value per
/// registered instrument, in registration order.
pub open spec fn resp_matches(d: MutableData, q: u64, res: QueryResultView) -> bool {
    &&& res.version == d.spec_version()
    &&& res.metadatas == resp_metas(d, q)
    &&& res.values.len() == d.spec_metas().len()
    &&& forall|i: int|
        0 <= i < res.values.len() ==> (#[trigger] res.values[i]).hash == d.spec_metas()[i].hash
}

/// Serve one query against a snapshot of the store: decode the query body,
/// build the answer, encode it and prefix its frame header. Fails with
/// `Malformed` exactly on bodies that spell no query, and with `TooLarge`
/// exactly when the response cannot fit the wire format.
pub fn answer(d: &MutableData, body: &[u8]) -> (r: Result<Vec<u8>, WireError>)
    ensures
        r is Ok <==> (dec_query(body@) matches Some(q) && resp_fits(*d, q)),
        r == Err::<Vec<u8>, WireError>(WireError::Malformed) <==> dec_query(body@) is None,
        r matches Ok(out) ==> exists|res: QueryResultView|
            {
                &&& out@ == spec_frame(#[trigger] enc_result(res))
                &&& resp_matches(*d, dec_query(body@).unwrap(), res)
                &&& result_fits(res)
            },
{
    let query = match decode_query(body) {
        Ok(q) => q,
        Err(_) => {
            return Err(WireError::Malformed);
        },
    };
    let result = d.collect(query.version);
    let rv: Ghost<QueryResultView> = Ghost(result_view(result));
    proof {
        lemma_enc_result_len(rv@);
        assert(rv@.metadatas == resp_metas(*d, query.version));
        assert(resp_matches(*d, query.version, rv@));
    }
    let body_bytes = match encode_result(&result) {
        Ok(b) => b,
        Err(e) => {
            proof {
                assert(!resp_fits(*d, query.version));
            }
            return Err(e);
        },
    };
    let framed = match frame(&body_bytes) {
        Ok(f) => f,
        Err(e) => {
            proof {
                assert(!resp_fits(*d, query.version));
            }
            return Err(e);
        },
    };
    proof {
        assert(resp_fits(*d, query.version));
    }
    Ok(framed)
}

/// The registry's shared state: one lock around the whole store, handed by
/// reference to every connection and every instrument handle.
#[derive(Clone)]
pub struct SharedStore {
    mutable: Arc<parking_lot::RwLock<MutableData>>,
}

impl SharedStore {
    /// A fresh, empty shared store.
    pub fn new() -> SharedStore {
        SharedStore { mutable: Arc::new(new_lock(MutableData::new())) }
    }

    /// Look up or create the value cell for `token`, read-biased: a shared
    /// lock suffices for the steady-state hit; only a brand-new token takes
    /// the exclusive lock, registering the cell, its metadata and the
    /// version bump in one critical section.
    pub fn get(&self, kind: InstrumentKind, token: Token) -> Arc<AtomicU64> {
        {
            let g = lock_read(&self.mutable);
            let d = read_guard_data(&g);
            match d.lookup(token.hash) {
                Some(c) => {
                    return c;
                },
                None => {},
            }
        }
        let mut g = lock_write(&self.mutable);
        let d = write_guard_data(&mut g);
        d.get(kind, token)
    }

    /// Register or look up a counter and wrap its cell in a recording
    /// handle: a registry-backed counter is never a no-op.
    pub fn counter(&self, token: Token) -> (r: Counter<Write>)
        ensures
            r is Record,
    {
        Counter::Record(Write(self.get(InstrumentKind::Counter, token)))
    }

    /// Serve one query frame body against the store under a shared lock.
    /// Whatever the store held at that moment, a successful answer is a
    /// well-formed frame whose body decodes back to the result it carries;
    /// a body that spells no query is answered with `Malformed`.
    pub fn respond(&self, body: &[u8]) -> (r: Result<Vec<u8>, WireError>)
        ensures
            dec_query(body@) is None ==> r == Err::<Vec<u8>, WireError>(WireError::Malformed),
            r is Ok ==> dec_query(body@) is Some,
            r matches Ok(out) ==> exists|res: QueryResultView|
                {
                    &&& out@ == spec_frame(#[trigger] enc_result(res))
                    &&& dec_result(enc_result(res)) == Some(res)
                },
    {
        let g = lock_read(&self.mutable);
        let d = read_guard_data(&g);
        let r = answer(d, body);
        proof {
            if r is Ok {
                let res = choose|res: QueryResultView|
                    {
                        &&& r.unwrap()@ == spec_frame(#[trigger] enc_result(res))
                        &&& resp_matches(*d, dec_query(body@).unwrap(), res)
                        &&& result_fits(res)
                    };
                lemma_result_round_trip(res);
            }
        }
        r
    }
}

} // verus!
