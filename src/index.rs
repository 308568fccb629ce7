//! The succinct key index: a finite state transducer from path bytes to ids.
//!
//! Serialized, an index is a list of zero-terminated fields read in pairs:
//! a key, then its id in decimal. Keys come in strictly increasing byte
//! order. The transducer itself is built in memory from those pairs.
use vstd::prelude::*;
use vstd::string::StringExecFns;

use crate::framing::{decimal_id, parse_decimal_id, split_fields, split_fields_of};

verus! {

#[verifier::external_type_specification]
#[verifier::external_body]
#[verifier::reject_recursive_types(D)]
pub struct ExFstMap<D>(fst::Map<D>);

/// The key/id pairs that a transducer holds.
pub uninterp spec fn fst_entries(m: fst::Map<Vec<u8>>) -> Map<Seq<u8>, u64>;

/// The transducer was built by fst itself, so reading it cannot fail.
pub uninterp spec fn fst_intact(m: fst::Map<Vec<u8>>) -> bool;

/// Byte-wise lexicographic order: `a` comes strictly before `b`.
pub open spec fn lex_lt(a: Seq<u8>, b: Seq<u8>) -> bool
    decreases a.len(),
{
    if b.len() == 0 {
        false
    } else if a.len() == 0 {
        true
    } else if a[0] != b[0] {
        a[0] < b[0]
    } else {
        lex_lt(a.drop_first(), b.drop_first())
    }
}

/// Each string comes strictly before the next: sorted, without repeats.
pub open spec fn strictly_sorted(keys: Seq<Seq<u8>>) -> bool {
    forall|i: int| 0 <= i < keys.len() - 1 ==> lex_lt(#[trigger] keys[i], keys[i + 1])
}

/// The views of a list of byte strings.
pub open spec fn byte_strings(v: Seq<Vec<u8>>) -> Seq<Seq<u8>> {
    v.map_values(|k: Vec<u8>| k@)
}

/// `entries` maps `keys[i]` to `ids[i]` and holds nothing else.
pub open spec fn holds_entries(entries: Map<Seq<u8>, u64>, keys: Seq<Seq<u8>>, ids: Seq<u64>) -> bool {
    &&& keys.len() == ids.len()
    &&& forall|i: int|
        #![trigger keys[i]]
        0 <= i < keys.len() ==> entries.contains_key(keys[i]) && entries[keys[i]] == ids[i]
    &&& forall|k: Seq<u8>| #[trigger]
        entries.contains_key(k) ==> exists|i: int| 0 <= i < keys.len() && #[trigger] keys[i] == k
}

pub open spec fn pair_keys(pairs: Seq<(Vec<u8>, u64)>) -> Seq<Seq<u8>> {
    pairs.map_values(|p: (Vec<u8>, u64)| p.0@)
}

pub open spec fn pair_ids(pairs: Seq<(Vec<u8>, u64)>) -> Seq<u64> {
    pairs.map_values(|p: (Vec<u8>, u64)| p.1)
}

/// Relies on fst::Map::from_iter: it builds a transducer from pairs whose
/// keys come in strictly increasing byte order, and fails with an order or
/// duplicate-key error otherwise.
#[verifier::external_body]
fn fst_from_pairs(pairs: Vec<(Vec<u8>, u64)>) -> (r: Result<fst::Map<Vec<u8>>, String>)
    ensures
        r is Ok <==> strictly_sorted(pair_keys(pairs@)),
        r matches Ok(m) ==> fst_intact(m) && holds_entries(
            fst_entries(m),
            pair_keys(pairs@),
            pair_ids(pairs@),
        ),
{
    fst::Map::from_iter(pairs).map_err(|e| e.to_string())
}

/// Relies on fst::Map::get: the id stored for `key`, or `None` for a key that
/// the transducer does not hold.
#[verifier::external_body]
fn fst_get(m: &fst::Map<Vec<u8>>, key: &[u8]) -> (r: Option<u64>)
    requires
        fst_intact(*m),
    ensures
        r == (if fst_entries(*m).contains_key(key@) {
            Some(fst_entries(*m)[key@])
        } else {
            None
        }),
{
    m.get(key)
}

/// `ids` holds the id of every key of `entries`, and only such ids.
pub open spec fn lists_ids_of(ids: Seq<u64>, entries: Map<Seq<u8>, u64>) -> bool {
    &&& forall|k: Seq<u8>| #[trigger] entries.contains_key(k) ==> ids.contains(entries[k])
    &&& forall|i: int|
        #![trigger ids[i]]
        0 <= i < ids.len() ==> exists|k: Seq<u8>|
            #![trigger entries[k]]
            entries.contains_key(k) && ids[i] == entries[k]
}

/// Relies on fst::Map::stream and Stream::into_values: the ids of all keys,
/// in key order, and nothing else.
#[verifier::external_body]
fn fst_values(m: &fst::Map<Vec<u8>>) -> (r: Vec<u64>)
    requires
        fst_intact(*m),
    ensures
        lists_ids_of(r@, fst_entries(*m)),
{
    m.stream().into_values()
}

/// The keys of a list of fields read in pairs.
pub open spec fn record_keys(f: Seq<Seq<u8>>) -> Seq<Seq<u8>> {
    Seq::new((f.len() / 2) as nat, |i: int| f[2 * i])
}

/// The ids of a list of fields read in pairs.
pub open spec fn record_ids(f: Seq<Seq<u8>>) -> Seq<u64> {
    Seq::new(
        (f.len() / 2) as nat,
        |i: int|
            match decimal_id(f[2 * i + 1]) {
                Some(id) => id,
                None => 0u64,
            },
    )
}

/// The fields pair up, and every second one is a decimal id.
pub open spec fn records_ok(f: Seq<Seq<u8>>) -> bool {
    &&& f.len() % 2 == 0
    &&& forall|i: int| 0 <= i < f.len() / 2 ==> #[trigger] decimal_id(f[2 * i + 1]) is Some
}

/// `b` is a serialized index: key/id records with keys strictly increasing.
pub open spec fn index_blob_ok(b: Seq<u8>) -> bool {
    split_fields(b) matches Some(f) && records_ok(f) && strictly_sorted(record_keys(f))
}

/// The keys of a serialized index, in order.
pub open spec fn index_blob_keys(b: Seq<u8>) -> Seq<Seq<u8>> {
    match split_fields(b) {
        Some(f) => record_keys(f),
        None => Seq::<Seq<u8>>::empty(),
    }
}

/// The ids of a serialized index, in key order.
pub open spec fn index_blob_ids(b: Seq<u8>) -> Seq<u64> {
    match split_fields(b) {
        Some(f) => record_ids(f),
        None => Seq::<u64>::empty(),
    }
}

/// Why an index could not be made.
#[derive(Debug, PartialEq, Eq)]
pub enum IndexError {
    CorruptIndex(String),
    /// The keys given to `build` were not strictly increasing.
    UnsortedKeys(String),
}

/// Maps each indexed path, as bytes, to its id.
pub struct KeyIndex {
    map: fst::Map<Vec<u8>>,
}

impl View for KeyIndex {
    type V = Map<Seq<u8>, u64>;

    closed spec fn view(&self) -> Map<Seq<u8>, u64> {
        fst_entries(self.map)
    }
}

impl KeyIndex {
    #[verifier::type_invariant]
    spec fn intact(self) -> bool {
        fst_intact(self.map)
    }

    /// Restores an index from its serialized form: zero-terminated fields
    /// read in pairs, a key and its decimal id, keys strictly increasing.
    pub fn deserialize(bytes: &[u8]) -> (r: Result<KeyIndex, IndexError>)
        ensures
            r is Ok <==> index_blob_ok(bytes@),
            r matches Ok(ix) ==> holds_entries(ix@, index_blob_keys(bytes@), index_blob_ids(bytes@)),
            r matches Err(e) ==> e is CorruptIndex,
    {
        let fields = match split_fields_of(bytes) {
            Some(f) => f,
            None => {
                return Err(
                    IndexError::CorruptIndex(String::from_str("the last field has no terminator")),
                )
            },
        };
        let ghost f = fields@.map_values(|x: Vec<u8>| x@);
        if fields.len() % 2 != 0 {
            return Err(IndexError::CorruptIndex(String::from_str("a key has no id")));
        }
        let len = fields.len();
        let n = len / 2;
        let mut pairs: Vec<(Vec<u8>, u64)> = Vec::new();
        let mut i: usize = 0;
        while i < n
            invariant
                n == f.len() / 2,
                n == fields@.len() / 2,
                len == fields@.len(),
                split_fields(bytes@) == Some(f),
                f.len() == fields@.len(),
                f.len() % 2 == 0,
                f == fields@.map_values(|x: Vec<u8>| x@),
                i <= n,
                pairs@.len() == i,
                forall|j: int| 0 <= j < i ==> #[trigger] decimal_id(f[2 * j + 1]) is Some,
                forall|j: int|
                    #![trigger pairs@[j]]
                    0 <= j < i ==> pairs@[j].0@ == record_keys(f)[j] && pairs@[j].1
                        == record_ids(f)[j],
            decreases n - i,
        {
            assert(2 * i + 1 < fields@.len());
            assert(f[2 * i + 1] == fields@[2 * i + 1]@);
            assert(f[2 * i as int] == fields@[2 * i as int]@);
            let id = match parse_decimal_id(&fields[2 * i + 1]) {
                Some(id) => id,
                None => {
                    assert(decimal_id(f[2 * i + 1]) is None);
                    assert(!records_ok(f));
                    return Err(IndexError::CorruptIndex(String::from_str("an id is not decimal")));
                },
            };
            pairs.push((fields[2 * i].clone(), id));
            i += 1;
        }
        assert(pair_keys(pairs@) =~= record_keys(f));
        assert(pair_ids(pairs@) =~= record_ids(f));
        match fst_from_pairs(pairs) {
            Ok(map) => Ok(KeyIndex { map }),
            Err(msg) => Err(IndexError::CorruptIndex(msg)),
        }
    }

    /// An index that gives each key its rank: `keys[i]` gets id `i`. The
    /// keys must come sorted and without repeats.
    pub fn build(keys: &Vec<Vec<u8>>) -> (r: Result<KeyIndex, IndexError>)
        ensures
            r is Ok <==> strictly_sorted(byte_strings(keys@)),
            r matches Err(e) ==> e is UnsortedKeys,
            r matches Ok(ix) ==> holds_entries(
                ix@,
                byte_strings(keys@),
                Seq::new(keys@.len(), |i: int| i as u64),
            ),
    {
        let mut pairs: Vec<(Vec<u8>, u64)> = Vec::new();
        let mut i: usize = 0;
        while i < keys.len()
            invariant
                i <= keys@.len(),
                pairs@.len() == i,
                forall|j: int| 0 <= j < i ==> (#[trigger] pairs@[j]).0@ == keys@[j]@ && pairs@[j].1 == j,
            decreases keys@.len() - i,
        {
            pairs.push((keys[i].clone(), i as u64));
            i += 1;
        }
        assert(pair_keys(pairs@) =~= byte_strings(keys@));
        assert(pair_ids(pairs@) =~= Seq::new(keys@.len(), |i: int| i as u64));
        match fst_from_pairs(pairs) {
            Ok(map) => Ok(KeyIndex { map }),
            Err(msg) => Err(IndexError::UnsortedKeys(msg)),
        }
    }

    /// The id of `key`, when the index holds it.
    pub fn lookup(&self, key: &[u8]) -> (r: Option<u64>)
        ensures
            r == (if self@.contains_key(key@) {
                Some(self@[key@])
            } else {
                None
            }),
    {
        proof {
            use_type_invariant(self);
        }
        fst_get(&self.map, key)
    }

    /// The first id at or above `bound`, if any key carries one.
    pub fn id_at_or_above(&self, bound: u64) -> (r: Option<u64>)
        ensures
            r matches Some(id) ==> id >= bound && exists|k: Seq<u8>|
                self@.contains_key(k) && #[trigger] self@[k] == id,
            r is None ==> forall|k: Seq<u8>| #[trigger] self@.contains_key(k) ==> self@[k] < bound,
    {
        proof {
            use_type_invariant(self);
        }
        let ids = fst_values(&self.map);
        let ghost entries = fst_entries(self.map);
        let mut i: usize = 0;
        while i < ids.len()
            invariant
                i <= ids@.len(),
                entries == self@,
                forall|j: int| 0 <= j < i ==> ids@[j] < bound,
                lists_ids_of(ids@, entries),
            decreases ids@.len() - i,
        {
            if ids[i] >= bound {
                proof {
                    let v = ids@[i as int];
                    let k = choose|k: Seq<u8>| entries.contains_key(k) && v == entries[k];
                    assert(self@.contains_key(k) && self@[k] == v);
                }
                return Some(ids[i]);
            }
            i += 1;
        }
        assert forall|k: Seq<u8>| #[trigger] self@.contains_key(k) implies self@[k] < bound by {
            assert(ids@.contains(entries[k]));
        }
        None
    }
}

} // verus!
