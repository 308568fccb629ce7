//! The target dictionary: front-coded strings addressed by id.
//!
//! Serialized, a dictionary is its targets in id order, each followed by a
//! zero byte; targets may repeat and come in any order. In memory the
//! distinct non-empty targets are front-coded by fcsd, which keeps them
//! sorted, and a table gives for each id the rank of its target there.
use vstd::prelude::*;
use vstd::string::StringExecFns;

use crate::framing::{split_fields, split_fields_of};
use crate::index::{byte_strings, lex_lt, strictly_sorted};

verus! {

#[verifier::external_type_specification]
#[verifier::external_body]
pub struct ExFcsdSet(fcsd::Set);

/// The strings that a front-coded set holds, in id order.
pub uninterp spec fn fcsd_entries(s: fcsd::Set) -> Seq<Seq<u8>>;

/// The set was built by fcsd itself, so decoding from it cannot fail.
pub uninterp spec fn fcsd_intact(s: fcsd::Set) -> bool;

/// What a front-coded set can hold: strings in strictly increasing byte
/// order, none holding a zero byte, the first not empty.
pub open spec fn storable(strings: Seq<Seq<u8>>) -> bool {
    &&& strictly_sorted(strings)
    &&& strings.len() > 0 ==> strings[0].len() > 0
    &&& forall|i: int, j: int|
        0 <= i < strings.len() && 0 <= j < strings[i].len() ==> #[trigger] strings[i][j] != 0u8
}

/// Relies on fcsd::Set::new: it stores the strings in the order given, and
/// fails when one holds the zero terminator or does not come strictly after
/// the one before it (the first after the empty string). It panics on an
/// empty list, which `requires` leaves out.
#[verifier::external_body]
fn fcsd_from_sorted(strings: &Vec<Vec<u8>>) -> (r: Result<fcsd::Set, String>)
    requires
        strings@.len() > 0,
    ensures
        r is Ok <==> storable(byte_strings(strings@)),
        r matches Ok(s) ==> fcsd_intact(s) && fcsd_entries(s) == byte_strings(strings@),
{
    fcsd::Set::new(strings).map_err(|e| e.to_string())
}

/// Relies on fcsd::Decoder::run: the string with id `id`. It panics for an id
/// that is not below the length, which `requires` leaves out.
#[verifier::external_body]
fn fcsd_decode(s: &fcsd::Set, id: usize) -> (r: Vec<u8>)
    requires
        fcsd_intact(*s),
        id < fcsd_entries(*s).len(),
    ensures
        r@ == fcsd_entries(*s)[id as int],
{
    s.decoder().run(id)
}

/// Relies on fcsd::Locator::run: the id of `key` in the set, or `None` when
/// the set does not hold it (an empty key is never held).
#[verifier::external_body]
fn fcsd_locate(s: &fcsd::Set, key: &[u8]) -> (r: Option<usize>)
    requires
        fcsd_intact(*s),
    ensures
        r matches Some(i) ==> i < fcsd_entries(*s).len() && fcsd_entries(*s)[i as int] == key@,
        r is None ==> !fcsd_entries(*s).contains(key@),
{
    s.locator().run(key)
}

/// `a` comes before `b` or equals it, byte-wise.
pub open spec fn lex_le(a: Seq<u8>, b: Seq<u8>) -> bool {
    lex_lt(a, b) || a == b
}

/// Relies on `slice::sort`: the same strings, in the lexicographic order of
/// `Ord` for `Vec<u8>`.
#[verifier::external_body]
fn sort_byte_strings(v: &mut Vec<Vec<u8>>)
    ensures
        final(v)@.len() == old(v)@.len(),
        forall|x: Seq<u8>|
            #[trigger] byte_strings(final(v)@).contains(x) <==> byte_strings(old(v)@).contains(x),
        forall|i: int|
            0 <= i < final(v)@.len() - 1 ==> lex_le(#[trigger] final(v)@[i]@, final(v)@[i + 1]@),
{
    v.sort()
}

/// No string holds a zero byte.
pub open spec fn no_zero_bytes(strings: Seq<Seq<u8>>) -> bool {
    forall|i: int, j: int|
        0 <= i < strings.len() && 0 <= j < strings[i].len() ==> #[trigger] strings[i][j] != 0u8
}

/// `b` is a serialized dictionary: zero-terminated targets.
pub open spec fn dictionary_blob_ok(b: Seq<u8>) -> bool {
    split_fields(b) matches Some(f) && no_zero_bytes(f)
}

/// The targets of a serialized dictionary, in id order.
pub open spec fn dictionary_blob_targets(b: Seq<u8>) -> Seq<Seq<u8>> {
    match split_fields(b) {
        Some(f) => f,
        None => Seq::<Seq<u8>>::empty(),
    }
}

/// Why the dictionary could not be made or could not give a target.
#[derive(Debug, PartialEq, Eq)]
pub enum DictionaryError {
    CorruptDictionary(String),
    IndexOutOfRange(u64),
    /// A string given to `build` holds a zero byte.
    Unstorable(String),
}

/// Whether `strings` holds a string with a zero byte.
fn has_zero_byte(strings: &Vec<Vec<u8>>) -> (r: bool)
    ensures
        r == !no_zero_bytes(byte_strings(strings@)),
{
    let mut i: usize = 0;
    while i < strings.len()
        invariant
            i <= strings@.len(),
            forall|a: int, b: int|
                0 <= a < i && 0 <= b < strings@[a]@.len() ==> #[trigger] strings@[a]@[b] != 0u8,
        decreases strings@.len() - i,
    {
        let s = &strings[i];
        let mut j: usize = 0;
        while j < s.len()
            invariant
                i < strings@.len(),
                *s == strings@[i as int],
                j <= s@.len(),
                forall|a: int, b: int|
                    0 <= a < i && 0 <= b < strings@[a]@.len() ==> #[trigger] strings@[a]@[b] != 0u8,
                forall|b: int| 0 <= b < j ==> s@[b] != 0u8,
            decreases s@.len() - j,
        {
            if s[j] == 0u8 {
                assert(byte_strings(strings@)[i as int][j as int] == 0u8);
                return true;
            }
            j += 1;
        }
        i += 1;
    }
    assert forall|a: int, b: int|
        0 <= a < byte_strings(strings@).len() && 0 <= b < byte_strings(strings@)[a].len()
        implies #[trigger] byte_strings(strings@)[a][b] != 0u8 by {
        assert(byte_strings(strings@)[a] == strings@[a]@);
    }
    false
}

/// Whether `a` and `b` hold the same bytes.
fn same_bytes(a: &Vec<u8>, b: &Vec<u8>) -> (r: bool)
    ensures
        r == (a@ == b@),
{
    if a.len() != b.len() {
        return false;
    }
    let mut i: usize = 0;
    while i < a.len()
        invariant
            a@.len() == b@.len(),
            i <= a@.len(),
            forall|k: int| 0 <= k < i ==> a@[k] == b@[k],
        decreases a@.len() - i,
    {
        if a[i] != b[i] {
            return false;
        }
        i += 1;
    }
    assert(a@ =~= b@);
    true
}

/// The distinct non-empty strings of `strings`, sorted.
fn distinct_sorted(strings: &Vec<Vec<u8>>) -> (r: Vec<Vec<u8>>)
    ensures
        strictly_sorted(byte_strings(r@)),
        forall|x: Seq<u8>|
            #[trigger] byte_strings(r@).contains(x) <==> (x.len() > 0 && byte_strings(
                strings@,
            ).contains(x)),
{
    let mut keys: Vec<Vec<u8>> = Vec::new();
    let mut i: usize = 0;
    while i < strings.len()
        invariant
            i <= strings@.len(),
            forall|x: Seq<u8>|
                #[trigger] byte_strings(keys@).contains(x) <==> (x.len() > 0 && exists|a: int|
                    0 <= a < i && strings@[a]@ == x),
        decreases strings@.len() - i,
    {
        if strings[i].len() > 0 {
            let ghost before = keys@;
            keys.push(strings[i].clone());
            proof {
                assert(byte_strings(keys@) =~= byte_strings(before).push(strings@[i as int]@));
                assert forall|x: Seq<u8>| #[trigger] byte_strings(keys@).contains(x) <==> (x.len() > 0
                    && exists|a: int| 0 <= a < i + 1 && strings@[a]@ == x) by {
                    if byte_strings(keys@).contains(x) && x != strings@[i as int]@ {
                        let k = choose|k: int| 0 <= k < byte_strings(keys@).len() && byte_strings(keys@)[k] == x;
                        assert(byte_strings(before)[k] == x);
                        assert(byte_strings(before).contains(x));
                        let a = choose|a: int| 0 <= a < i && strings@[a]@ == x;
                        assert(0 <= a < i + 1 && strings@[a]@ == x);
                    }
                    if x == strings@[i as int]@ {
                        assert(0 <= i < i + 1 && strings@[i as int]@ == x);
                    }
                    if x.len() > 0 && exists|a: int| 0 <= a < i + 1 && strings@[a]@ == x {
                        if x == strings@[i as int]@ {
                            assert(byte_strings(keys@)[before.len() as int] == x);
                        } else {
                            let a = choose|a: int| 0 <= a < i + 1 && strings@[a]@ == x;
                            assert(byte_strings(before).contains(x));
                            let k = choose|k: int| 0 <= k < byte_strings(before).len() && byte_strings(before)[k] == x;
                            assert(byte_strings(keys@)[k] == x);
                        }
                    }
                }
            }
        } else {
            proof {
                assert forall|x: Seq<u8>| #[trigger] byte_strings(keys@).contains(x) <==> (x.len() > 0
                    && exists|a: int| 0 <= a < i + 1 && strings@[a]@ == x) by {
                    if x.len() > 0 && exists|a: int| 0 <= a < i + 1 && strings@[a]@ == x {
                        let a = choose|a: int| 0 <= a < i + 1 && strings@[a]@ == x;
                        assert(a != i);
                        assert(exists|a2: int| 0 <= a2 < i && strings@[a2]@ == x);
                    }
                    if byte_strings(keys@).contains(x) {
                        let a = choose|a: int| 0 <= a < i && strings@[a]@ == x;
                        assert(0 <= a < i + 1 && strings@[a]@ == x);
                    }
                }
            }
        }
        i += 1;
    }
    proof {
        assert forall|x: Seq<u8>| (exists|a: int| 0 <= a < strings@.len() && strings@[a]@ == x)
            <==> #[trigger] byte_strings(strings@).contains(x) by {
            if exists|a: int| 0 <= a < strings@.len() && strings@[a]@ == x {
                let a = choose|a: int| 0 <= a < strings@.len() && strings@[a]@ == x;
                assert(byte_strings(strings@)[a] == x);
            }
        }
    }
    sort_byte_strings(&mut keys);
    let mut out: Vec<Vec<u8>> = Vec::new();
    let mut j: usize = 0;
    while j < keys.len()
        invariant
            j <= keys@.len(),
            forall|k: int| 0 <= k < keys@.len() - 1 ==> lex_le(#[trigger] keys@[k]@, keys@[k + 1]@),
            strictly_sorted(byte_strings(out@)),
            j > 0 ==> out@.len() > 0 && out@[out@.len() - 1]@ == keys@[j - 1]@,
            j == 0 ==> out@.len() == 0,
            forall|x: Seq<u8>|
                #[trigger] byte_strings(out@).contains(x) <==> exists|a: int|
                    0 <= a < j && keys@[a]@ == x,
        decreases keys@.len() - j,
    {
        let ghost before = out@;
        if j == 0 || !same_bytes(&keys[j], &out[out.len() - 1]) {
            proof {
                if j > 0 {
                    assert(lex_le(keys@[j - 1]@, keys@[j as int]@));
                    assert(keys@[j as int]@ != keys@[j - 1]@);
                }
            }
            out.push(keys[j].clone());
            proof {
                assert(byte_strings(out@) =~= byte_strings(before).push(keys@[j as int]@));
                assert forall|k: int| 0 <= k < byte_strings(out@).len() - 1 implies lex_lt(
                    #[trigger] byte_strings(out@)[k],
                    byte_strings(out@)[k + 1],
                ) by {
                    if k < byte_strings(out@).len() - 2 {
                        assert(byte_strings(out@)[k] == byte_strings(before)[k]);
                        assert(byte_strings(out@)[k + 1] == byte_strings(before)[k + 1]);
                    }
                }
                assert forall|x: Seq<u8>| #[trigger] byte_strings(out@).contains(x) <==> exists|a: int|
                    0 <= a < j + 1 && keys@[a]@ == x by {
                    if byte_strings(out@).contains(x) && x != keys@[j as int]@ {
                        let k = choose|k: int| 0 <= k < byte_strings(out@).len() && byte_strings(out@)[k] == x;
                        assert(byte_strings(before)[k] == x);
                        assert(byte_strings(before).contains(x));
                        let a = choose|a: int| 0 <= a < j && keys@[a]@ == x;
                        assert(0 <= a < j + 1 && keys@[a]@ == x);
                    }
                    if x == keys@[j as int]@ {
                        assert(0 <= j < j + 1 && keys@[j as int]@ == x);
                    }
                    if exists|a: int| 0 <= a < j + 1 && keys@[a]@ == x {
                        if x == keys@[j as int]@ {
                            assert(byte_strings(out@)[before.len() as int] == x);
                        } else {
                            let a = choose|a: int| 0 <= a < j + 1 && keys@[a]@ == x;
                            assert(byte_strings(before).contains(x));
                            let k = choose|k: int| 0 <= k < byte_strings(before).len() && byte_strings(before)[k] == x;
                            assert(byte_strings(out@)[k] == x);
                        }
                    }
                }
            }
        } else {
            proof {
                assert forall|x: Seq<u8>| #[trigger] byte_strings(out@).contains(x) <==> exists|a: int|
                    0 <= a < j + 1 && keys@[a]@ == x by {
                    if exists|a: int| 0 <= a < j + 1 && keys@[a]@ == x {
                        let a = choose|a: int| 0 <= a < j + 1 && keys@[a]@ == x;
                        if a == j {
                            assert(keys@[j - 1]@ == x);
                        }
                        assert(exists|a2: int| 0 <= a2 < j && keys@[a2]@ == x);
                    }
                    if byte_strings(out@).contains(x) {
                        let a = choose|a: int| 0 <= a < j && keys@[a]@ == x;
                        assert(0 <= a < j + 1 && keys@[a]@ == x);
                    }
                }
            }
        }
        j += 1;
    }
    proof {
        assert forall|x: Seq<u8>| #[trigger] byte_strings(out@).contains(x) <==> (x.len() > 0
            && byte_strings(strings@).contains(x)) by {
            if exists|a: int| 0 <= a < keys@.len() && keys@[a]@ == x {
                let a = choose|a: int| 0 <= a < keys@.len() && keys@[a]@ == x;
                assert(byte_strings(keys@)[a] == x);
            }
            if byte_strings(keys@).contains(x) {
                let a = choose|a: int| 0 <= a < byte_strings(keys@).len() && byte_strings(keys@)[a] == x;
                assert(keys@[a]@ == x);
            }
        }
    }
    out
}

/// Whether a rank addresses a string of the set.
pub open spec fn rank_ok(set: Option<fcsd::Set>, rank: Option<usize>) -> bool {
    match rank {
        Some(r) => match set {
            Some(s) => r < fcsd_entries(s).len(),
            None => false,
        },
        None => true,
    }
}

/// The target that a rank stands for: the string of that rank, or the empty
/// target.
pub open spec fn target_at(set: Option<fcsd::Set>, rank: Option<usize>) -> Seq<u8> {
    match (set, rank) {
        (Some(s), Some(r)) => fcsd_entries(s)[r as int],
        _ => Seq::<u8>::empty(),
    }
}

/// Redirect targets addressed by the ids that the key index hands out.
pub struct TargetDictionary {
    set: Option<fcsd::Set>,
    ranks: Vec<Option<usize>>,
}

impl View for TargetDictionary {
    type V = Seq<Seq<u8>>;

    closed spec fn view(&self) -> Seq<Seq<u8>> {
        Seq::new(self.ranks@.len(), |i: int| target_at(self.set, self.ranks@[i]))
    }
}

impl TargetDictionary {
    #[verifier::type_invariant]
    spec fn intact(self) -> bool {
        &&& self.set matches Some(s) ==> fcsd_intact(s)
        &&& forall|i: int| 0 <= i < self.ranks@.len() ==> rank_ok(self.set, #[trigger] self.ranks@[i])
    }

    /// A dictionary whose target with id `i` is `strings[i]`. Any order and
    /// any repeats are accepted; a string with a zero byte is not.
    pub fn build(strings: &Vec<Vec<u8>>) -> (r: Result<TargetDictionary, DictionaryError>)
        ensures
            r is Ok <==> no_zero_bytes(byte_strings(strings@)),
            r matches Ok(d) ==> d@ == byte_strings(strings@),
            r matches Err(e) ==> e is Unstorable,
    {
        if has_zero_byte(strings) {
            return Err(DictionaryError::Unstorable(String::from_str("a target holds a zero byte")));
        }
        let distinct = distinct_sorted(strings);
        let set: Option<fcsd::Set> = if distinct.len() == 0 {
            None
        } else {
            proof {
                let d = byte_strings(distinct@);
                assert(d.contains(d[0]));
                assert forall|i: int, j: int| 0 <= i < d.len() && 0 <= j < d[i].len() implies #[trigger] d[i][j]
                    != 0u8 by {
                    assert(d.contains(d[i]));
                    let k = choose|k: int| 0 <= k < byte_strings(strings@).len() && byte_strings(strings@)[k] == d[i];
                    assert(byte_strings(strings@)[k][j] != 0u8);
                }
            }
            match fcsd_from_sorted(&distinct) {
                Ok(s) => Some(s),
                Err(msg) => return Err(DictionaryError::Unstorable(msg)),
            }
        };
        let mut ranks: Vec<Option<usize>> = Vec::new();
        let mut i: usize = 0;
        while i < strings.len()
            invariant
                i <= strings@.len(),
                ranks@.len() == i,
                set matches Some(s) ==> fcsd_intact(s) && fcsd_entries(s) == byte_strings(distinct@),
                set is None ==> distinct@.len() == 0,
                forall|x: Seq<u8>|
                    #[trigger] byte_strings(distinct@).contains(x) <==> (x.len() > 0 && byte_strings(
                        strings@,
                    ).contains(x)),
                forall|k: int| 0 <= k < i ==> rank_ok(set, #[trigger] ranks@[k]),
                forall|k: int| 0 <= k < i ==> target_at(set, #[trigger] ranks@[k]) == strings@[k]@,
            decreases strings@.len() - i,
        {
            assert(byte_strings(strings@)[i as int] == strings@[i as int]@);
            if strings[i].len() == 0 {
                ranks.push(None);
            } else {
                assert(byte_strings(distinct@).contains(strings@[i as int]@));
                match &set {
                    Some(s) => match fcsd_locate(s, strings[i].as_slice()) {
                        Some(rank) => ranks.push(Some(rank)),
                        None => return Err(DictionaryError::Unstorable(String::new())),
                    },
                    None => return Err(DictionaryError::Unstorable(String::new())),
                }
            }
            i += 1;
        }
        let d = TargetDictionary { set, ranks };
        assert(d@ =~= byte_strings(strings@));
        Ok(d)
    }

    /// Restores a dictionary from its serialized form: the targets in id
    /// order, each followed by a zero byte.
    pub fn deserialize(bytes: &[u8]) -> (r: Result<TargetDictionary, DictionaryError>)
        ensures
            r is Ok <==> dictionary_blob_ok(bytes@),
            r matches Ok(d) ==> d@ == dictionary_blob_targets(bytes@),
            r matches Err(e) ==> e is CorruptDictionary,
    {
        let fields = match split_fields_of(bytes) {
            Some(f) => f,
            None => {
                return Err(
                    DictionaryError::CorruptDictionary(
                        String::from_str("the last target has no terminator"),
                    ),
                )
            },
        };
        match TargetDictionary::build(&fields) {
            Ok(d) => Ok(d),
            Err(DictionaryError::Unstorable(msg)) => Err(DictionaryError::CorruptDictionary(msg)),
            Err(e) => Err(e),
        }
    }

    /// The number of targets.
    pub fn len(&self) -> (r: usize)
        ensures
            r == self@.len(),
    {
        self.ranks.len()
    }

    /// The target with id `id`; an id at or past the end is refused.
    pub fn decode(&self, id: u64) -> (r: Result<Vec<u8>, DictionaryError>)
        ensures
            id < self@.len() ==> (r matches Ok(v) && v@ == self@[id as int]),
            id >= self@.len() ==> r == Err::<Vec<u8>, DictionaryError>(
                DictionaryError::IndexOutOfRange(id),
            ),
    {
        proof {
            use_type_invariant(self);
        }
        if id >= self.ranks.len() as u64 {
            return Err(DictionaryError::IndexOutOfRange(id));
        }
        let i = id as usize;
        assert(rank_ok(self.set, self.ranks@[i as int]));
        assert(self@[i as int] == target_at(self.set, self.ranks@[i as int]));
        match &self.set {
            Some(s) => match self.ranks[i] {
                Some(rank) => Ok(fcsd_decode(s, rank)),
                None => Ok(Vec::new()),
            },
            None => Ok(Vec::new()),
        }
    }
}

} // verus!
