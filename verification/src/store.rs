//! The in-memory instrument table: token hash to atomic value cell, token
//! hash to metadata, and a registration version that grows by exactly one
//! each time a new hash is first registered.

use std::collections::HashMap;
use std::sync::atomic::{AtomicU64, Ordering};
use std::sync::Arc;
use vstd::prelude::*;

verus! {

broadcast use vstd::std_specs::hash::group_hash_axioms;

use crate::token::{Token, labels_view};
use crate::wire::{InstrumentKind, Metadata, MetaView, meta_view, metas_view, Value, QueryResult};

/// Relies on `Arc::clone`: the clone is a handle to the same shared cell.
#[verifier::external_body]
pub fn clone_cell(c: &Arc<AtomicU64>) -> (r: Arc<AtomicU64>)
    ensures
        r == *c,
{
    c.clone()
}

/// Everything the registry holds behind its lock: one atomic cell and one
/// metadata record per registered token hash, plus the registration version.
pub struct MutableData {
    instruments: HashMap<u64, Arc<AtomicU64>>,
    metadata: Vec<Metadata>,
    version: u64,
}

impl MutableData {
    /// The registration version: how many distinct hashes have been
    /// registered so far.
    pub closed spec fn spec_version(self) -> u64 {
        self.version
    }

    /// The metadata records, in registration order.
    pub closed spec fn spec_metas(self) -> Seq<MetaView> {
        metas_view(self.metadata@)
    }

    /// The value cells, keyed by token hash.
    pub closed spec fn spec_cells(self) -> Map<u64, Arc<AtomicU64>> {
        self.instruments@
    }

    pub open spec fn contains_hash(self, h: u64) -> bool {
        self.spec_cells().contains_key(h)
    }

    /// The store invariant: the version counts the registered hashes, the
    /// two tables hold exactly the same hashes, and no hash is registered
    /// twice. Metadata sits in registration order.
    #[verifier::type_invariant]
    spec fn wf(self) -> bool {
        wf_data(self.instruments@, self.metadata@, self.version)
    }

    /// An empty store at version zero.
    pub fn new() -> (d: MutableData)
        ensures
            d.spec_version() == 0,
            d.spec_metas() =~= Seq::<MetaView>::empty(),
            forall|h: u64| !d.contains_hash(h),
    {
        let d = MutableData { instruments: HashMap::new(), metadata: Vec::new(), version: 0 };
        d
    }

    /// The stored cell for hash `h`, if one is registered.
    pub fn lookup(&self, h: u64) -> (r: Option<Arc<AtomicU64>>)
        ensures
            match r {
                Some(c) => self.contains_hash(h) && c == self.spec_cells()[h],
                None => !self.contains_hash(h),
            },
    {
        match self.instruments.get(&h) {
            Some(c) => Some(clone_cell(c)),
            None => None,
        }
    }

    /// Look up or create the value cell for `token`, the heart of
    /// `get_or_create`. A hit returns the stored cell and changes nothing.
    /// A miss registers a fresh zeroed cell together with its metadata and
    /// bumps the version by exactly one; both tables grow in the same step.
    /// When the version cannot grow any further, the store is left
    /// untouched and an unregistered zeroed cell is handed back.
    pub fn get(&mut self, kind: InstrumentKind, token: Token) -> (cell: Arc<AtomicU64>)
        ensures
            old(self).contains_hash(token.hash) ==> {
                &&& *final(self) == *old(self)
                &&& cell == old(self).spec_cells()[token.hash]
            },
            !old(self).contains_hash(token.hash) && old(self).spec_version() < u64::MAX ==> {
                &&& final(self).spec_version() == old(self).spec_version() + 1
                &&& final(self).spec_cells() == old(self).spec_cells().insert(token.hash, cell)
                &&& final(self).spec_metas() == old(self).spec_metas().push(
                    MetaView {
                        hash: token.hash,
                        kind,
                        name: token.name@,
                        labels: labels_view(token.labels@),
                    },
                )
            },
            !old(self).contains_hash(token.hash) && old(self).spec_version() == u64::MAX
                ==> *final(self) == *old(self),
    {
        proof {
            use_type_invariant(&*self);
        }
        let hash = token.hash;
        match self.instruments.get(&hash) {
            Some(c) => {
                return clone_cell(c);
            },
            None => {},
        }
        if self.version == u64::MAX {
            return Arc::new(AtomicU64::new(0));
        }
        let cell = Arc::new(AtomicU64::new(0));
        // rebuild the store from parts so the invariant holds at every step
        let mut tmp = MutableData { instruments: HashMap::new(), metadata: Vec::new(), version: 0 };
        std::mem::swap(self, &mut tmp);
        let MutableData { mut instruments, mut metadata, version } = tmp;
        let old_meta: Ghost<Seq<Metadata>> = Ghost(metadata@);
        metadata.push(Metadata { hash, kind, name: token.name, labels: token.labels });
        instruments.insert(hash, clone_cell(&cell));
        proof {
            assert(metadata@.drop_last() =~= old_meta@);
            lemma_register_wf(old(self).spec_cells(), old_meta@, version, instruments@, metadata@);
        }
        let next = MutableData { instruments, metadata, version: version + 1 };
        proof {
            assert(next.spec_metas() =~= old(self).spec_metas().push(
                MetaView {
                    hash: token.hash,
                    kind,
                    name: token.name@,
                    labels: labels_view(token.labels@),
                },
            ));
        }
        *self = next;
        cell
    }

    /// Build the answer to one query from the current state of the store:
    /// the value of every registered instrument, in registration order; the
    /// full metadata snapshot exactly when the store's version is newer
    /// than the one the client supplied, and nothing otherwise; and the
    /// store's version.
    pub fn collect(&self, query_version: u64) -> (r: QueryResult)
        ensures
            r.version == self.spec_version(),
            self.spec_version() as nat == self.spec_metas().len(),
            self.spec_version() > query_version ==> metas_view(r.metadatas@) == self.spec_metas(),
            self.spec_version() <= query_version ==> r.metadatas@.len() == 0,
            r.values@.len() == self.spec_metas().len(),
            forall|i: int|
                0 <= i < r.values@.len() ==> (#[trigger] r.values@[i]).hash
                    == self.spec_metas()[i].hash,
    {
        proof {
            use_type_invariant(&*self);
        }
        let mut values: Vec<Value> = Vec::new();
        let n = self.metadata.len();
        let mut i: usize = 0;
        while i < n
            invariant
                self.wf(),
                n == self.metadata@.len(),
                i <= n,
                values@.len() == i,
                forall|k: int|
                    0 <= k < i ==> (#[trigger] values@[k]).hash == self.metadata@[k].hash,
            decreases n - i,
        {
            let h = self.metadata[i].hash;
            let cell = match self.instruments.get(&h) {
                Some(c) => c,
                None => {
                    proof {
                        assert(self.instruments@.contains_key(self.metadata@[i as int].hash));
                    }
                    unreached()
                },
            };
            let v = cell.load(Ordering::Relaxed);
            values.push(Value { hash: h, value: v });
            i = i + 1;
        }
        let mut metadatas: Vec<Metadata> = Vec::new();
        if self.version > query_version {
            let mut j: usize = 0;
            while j < n
                invariant
                    n == self.metadata@.len(),
                    j <= n,
                    metadatas@.len() == j,
                    forall|k: int|
                        0 <= k < j ==> meta_view(#[trigger] metadatas@[k]) == meta_view(
                            self.metadata@[k],
                        ),
                decreases n - j,
            {
                metadatas.push(copy_meta(&self.metadata[j]));
                j = j + 1;
            }
            proof {
                assert(metas_view(metadatas@) =~= metas_view(self.metadata@));
            }
        }
        proof {
            assert(forall|k: int|
                0 <= k < values@.len() ==> (#[trigger] values@[k]).hash
                    == self.spec_metas()[k].hash);
        }
        QueryResult { values, metadatas, version: self.version }
    }
}

/// The raw invariant over the store's parts.
pub open spec fn wf_data(
    instruments: Map<u64, Arc<AtomicU64>>,
    metadata: Seq<Metadata>,
    version: u64,
) -> bool {
    &&& version as nat == metadata.len()
    &&& forall|i: int|
        0 <= i < metadata.len() ==> instruments.contains_key(#[trigger] metadata[i].hash)
    &&& forall|h: u64| #[trigger]
        instruments.contains_key(h) ==> exists|i: int|
            0 <= i < metadata.len() && #[trigger] metadata[i].hash == h
    &&& forall|i: int, j: int|
        0 <= i < j < metadata.len() ==> metadata[i].hash != metadata[j].hash
}

/// Get-or-create hands out one shared cell per token: a call that
/// registers a token stores the very cell it returns, and a second call
/// with an equal token returns that stored cell and changes nothing, so
/// every handle for one token updates the same storage.
pub fn one_cell_per_token(
    d: &mut MutableData,
    kind: InstrumentKind,
    first: Token,
    second: Token,
) -> (cells: (Arc<AtomicU64>, Arc<AtomicU64>))
    requires
        first.hash == second.hash,
        old(d).spec_version() < u64::MAX,
    ensures
        cells.0 == cells.1,
{
    let c1 = d.get(kind, first);
    let c2 = d.get(kind, second);
    (c1, c2)
}

/// Registering one new hash preserves the store invariant.
proof fn lemma_register_wf(
    old_map: Map<u64, Arc<AtomicU64>>,
    old_meta: Seq<Metadata>,
    version: u64,
    new_map: Map<u64, Arc<AtomicU64>>,
    new_meta: Seq<Metadata>,
)
    requires
        wf_data(old_map, old_meta, version),
        version < u64::MAX,
        new_meta.len() == old_meta.len() + 1,
        new_meta.drop_last() == old_meta,
        !old_map.contains_key(new_meta.last().hash),
        new_map == old_map.insert(new_meta.last().hash, new_map[new_meta.last().hash]),
    ensures
        wf_data(new_map, new_meta, (version + 1) as u64),
{
    let hash = new_meta.last().hash;
    let last = new_meta.len() - 1;
    assert(forall|i: int| 0 <= i < old_meta.len() ==> new_meta[i] == #[trigger] old_meta[i]);
    assert forall|i: int| 0 <= i < new_meta.len() implies new_map.contains_key(
        #[trigger] new_meta[i].hash,
    ) by {
        if i == last {
            assert(new_map.contains_key(hash));
        } else {
            assert(new_meta[i] == old_meta[i]);
            assert(old_map.contains_key(old_meta[i].hash));
        }
    }
    assert forall|h: u64| #[trigger] new_map.contains_key(h) implies exists|i: int|
        0 <= i < new_meta.len() && #[trigger] new_meta[i].hash == h by {
        if h == hash {
            assert(new_meta[last].hash == h);
        } else {
            let i = choose|i: int| 0 <= i < old_meta.len() && #[trigger] old_meta[i].hash == h;
            assert(new_meta[i].hash == h);
        }
    }
    assert forall|i: int, j: int| 0 <= i < j < new_meta.len() implies new_meta[i].hash
        != new_meta[j].hash by {
        assert(new_meta[i] == old_meta[i]);
        if j == last {
            assert(old_map.contains_key(old_meta[i].hash));
        } else {
            assert(new_meta[j] == old_meta[j]);
        }
    }
}

/// A deep copy of a label list, equal to its source pair for pair.
fn copy_labels(ls: &Vec<(String, String)>) -> (r: Vec<(String, String)>)
    ensures
        r@ == ls@,
{
    let mut r: Vec<(String, String)> = Vec::new();
    let n = ls.len();
    let mut i: usize = 0;
    while i < n
        invariant
            n == ls@.len(),
            i <= n,
            r@.len() == i,
            forall|k: int| 0 <= k < i ==> r@[k] == ls@[k],
        decreases n - i,
    {
        let pair = (ls[i].0.clone(), ls[i].1.clone());
        r.push(pair);
        i = i + 1;
    }
    proof {
        assert(r@ =~= ls@);
    }
    r
}

/// A copy of a metadata record with the same mathematical content.
fn copy_meta(m: &Metadata) -> (r: Metadata)
    ensures
        meta_view(r) == meta_view(*m),
{
    Metadata { hash: m.hash, kind: m.kind, name: m.name.clone(), labels: copy_labels(&m.labels) }
}

} // verus!
