//! Instrument identity: a `Token` is the deterministic fingerprint of an
//! instrument's name and ordered label sequence.

use std::collections::hash_map::DefaultHasher;
use std::hash::Hasher;
use vstd::prelude::*;

verus! {

use vstd::std_specs::hash::DefaultHasherAdditionalSpecFns;
use vstd::utf8::encode_utf8;

/// The view of a label list: each pair of strings as its character sequences.
pub open spec fn labels_view(labels: Seq<(String, String)>) -> Seq<(Seq<char>, Seq<char>)> {
    Seq::new(labels.len(), |i: int| (labels[i].0@, labels[i].1@))
}

/// The two byte chunks fed to the hasher for one label: its key followed by a
/// separator, then its value followed by a separator.
pub open spec fn label_chunks(l: (Seq<char>, Seq<char>)) -> Seq<Seq<u8>> {
    seq![encode_utf8(l.0), seq![0xffu8], encode_utf8(l.1), seq![0xffu8]]
}

/// The byte chunks fed to the hasher for a label list, in the order given.
pub open spec fn labels_chunks(labels: Seq<(Seq<char>, Seq<char>)>) -> Seq<Seq<u8>>
    decreases labels.len(),
{
    if labels.len() == 0 {
        seq![]
    } else {
        labels_chunks(labels.drop_last()) + label_chunks(labels.last())
    }
}

/// Everything fed to the hasher for a token: the name and a separator, then
/// the chunks of each label in order. The separator after each field keeps
/// adjacent fields from running together.
pub open spec fn token_chunks(name: Seq<char>, labels: Seq<(Seq<char>, Seq<char>)>) -> Seq<
    Seq<u8>,
> {
    seq![encode_utf8(name), seq![0xffu8]] + labels_chunks(labels)
}

/// The hash of a token is a pure function of its name and its label sequence
/// in the order supplied.
pub open spec fn token_hash(name: Seq<char>, labels: Seq<(Seq<char>, Seq<char>)>) -> u64 {
    DefaultHasher::spec_finish(token_chunks(name, labels))
}

/// `key` id to reference a measuring instrument.
#[derive(Debug, Clone, PartialEq, Eq, Hash)]
pub struct Token {
    /// Pre-calculated fingerprint of `name` and `labels`.
    pub hash: u64,
    /// Instrument `name`.
    pub name: String,
    /// Instrument `labels`, an ordered sequence of key/value pairs.
    pub labels: Vec<(String, String)>,
}

impl Token {
    /// A token is well formed when its hash is the fingerprint of its name
    /// and labels.
    pub open spec fn wf(self) -> bool {
        self.hash == token_hash(self.name@, labels_view(self.labels@))
    }

    /// Create a new `Token` and pre-calculate its `hash`.
    pub fn new(name: String, labels: Vec<(String, String)>) -> (t: Token)
        ensures
            t.hash == token_hash(name@, labels_view(labels@)),
            t.name == name,
            t.labels == labels,
            t.wf(),
    {
        let mut hasher = DefaultHasher::new();
        let mut sep: Vec<u8> = Vec::new();
        sep.push(0xff);
        assert(sep@ =~= seq![0xffu8]);

        hasher.write(name.as_str().as_bytes());
        hasher.write(sep.as_slice());

        assert(hasher@ =~~= seq![encode_utf8(name@), seq![0xffu8]]);

        let n = labels.len();
        let mut i: usize = 0;
        while i < n
            invariant
                n == labels.len(),
                i <= n,
                sep@ =~= seq![0xffu8],
                hasher@ =~~= token_chunks(name@, labels_view(labels@).take(i as int)),
            decreases n - i,
        {
            let (key, value) = (&labels[i].0, &labels[i].1);
            hasher.write(key.as_str().as_bytes());
            hasher.write(sep.as_slice());
            hasher.write(value.as_str().as_bytes());
            hasher.write(sep.as_slice());

            proof {
                let lv = labels_view(labels@);
                assert(lv[i as int] == (labels@[i as int].0@, labels@[i as int].1@));
                assert(lv.take(i + 1).drop_last() =~= lv.take(i as int));
                assert(lv.take(i + 1).last() == lv[i as int]);
                assert(hasher@ =~~= token_chunks(name@, lv.take(i as int)) + label_chunks(
                    lv[i as int],
                ));
            }
            i = i + 1;
        }

        proof {
            assert(labels_view(labels@).take(n as int) =~= labels_view(labels@));
        }

        Token { hash: hasher.finish(), name, labels }
    }
}

/// Token identity is deterministic: any two tokens built from equal name
/// and label text carry the same hash, however often and wherever they are
/// built.
pub fn deterministic_hash(
    name1: String,
    labels1: Vec<(String, String)>,
    name2: String,
    labels2: Vec<(String, String)>,
) -> (pair: (Token, Token))
    requires
        name1@ == name2@,
        labels_view(labels1@) == labels_view(labels2@),
    ensures
        pair.0.hash == pair.1.hash,
{
    (Token::new(name1, labels1), Token::new(name2, labels2))
}

} // verus!
