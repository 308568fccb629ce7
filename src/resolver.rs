//! The loaded snapshot and the resolution of request paths against it.
use vstd::prelude::*;
use vstd::string::StrSliceExecFns;
use vstd::utf8::encode_utf8;

use crate::dictionary::{
    dictionary_blob_ok, dictionary_blob_targets, DictionaryError, TargetDictionary,
};
use crate::encoding::{
    encode_target, lemma_encode_parse, parse_target, status_suffix, target_body, MAX_SUFFIX_STATUS,
    MIN_SUFFIX_STATUS,
};
use crate::fallback::{fallback_target, get_fallback_redirect, FallbackTable};
use crate::index::{
    holds_entries, index_blob_ids, index_blob_keys, index_blob_ok, IndexError, KeyIndex,
};

verus! {

/// The lowest default status code accepted.
pub const DEFAULT_STATUS_LOW: u16 = 301;

/// The first status code above the accepted default range.
pub const DEFAULT_STATUS_END: u16 = 400;

pub open spec fn valid_default_status(status: u16) -> bool {
    DEFAULT_STATUS_LOW <= status < DEFAULT_STATUS_END
}

/// Whether `status` may serve as the default status.
pub fn is_valid_default_status(status: u16) -> (r: bool)
    ensures
        r == valid_default_status(status),
{
    DEFAULT_STATUS_LOW <= status && status < DEFAULT_STATUS_END
}

/// Every id that the index hands out addresses a target.
pub open spec fn ids_aligned(index: Map<Seq<u8>, u64>, targets: Seq<Seq<u8>>) -> bool {
    forall|k: Seq<u8>| #[trigger] index.contains_key(k) ==> index[k] < targets.len()
}

/// Every id in `ids` is below `n`.
pub open spec fn ids_below(ids: Seq<u64>, n: nat) -> bool {
    forall|i: int| 0 <= i < ids.len() ==> #[trigger] ids[i] < n
}

/// For an index that holds exactly the given keys and ids, alignment with a
/// dictionary is a matter of the ids alone.
pub proof fn lemma_aligned_by_ids(
    index: Map<Seq<u8>, u64>,
    keys: Seq<Seq<u8>>,
    ids: Seq<u64>,
    targets: Seq<Seq<u8>>,
)
    requires
        holds_entries(index, keys, ids),
    ensures
        ids_aligned(index, targets) <==> ids_below(ids, targets.len()),
{
    if ids_aligned(index, targets) {
        assert forall|i: int| 0 <= i < ids.len() implies #[trigger] ids[i] < targets.len() by {
            assert(index.contains_key(keys[i]));
        }
    }
    if ids_below(ids, targets.len()) {
        assert forall|k: Seq<u8>| #[trigger] index.contains_key(k) implies index[k] < targets.len() by {
            let i = choose|i: int| 0 <= i < keys.len() && #[trigger] keys[i] == k;
            assert(ids[i] < targets.len());
        }
    }
}

/// What a request for `path` resolves to: `Some((target, status))` for a
/// redirect, `None` when nothing maps the path. Paths are looked up by their
/// UTF-8 bytes; an indexed path takes its target and status from the stored
/// entry, any other path goes through the fallback rules with the default
/// status.
pub open spec fn resolution(
    index: Map<Seq<u8>, u64>,
    targets: Seq<Seq<u8>>,
    rules: Seq<(Seq<char>, Seq<char>)>,
    default_status: u16,
    path: Seq<char>,
) -> Option<(Seq<u8>, u16)> {
    let key = encode_utf8(path);
    if index.contains_key(key) {
        let raw = targets[index[key] as int];
        let status = match status_suffix(raw) {
            Some(s) => s,
            None => default_status,
        };
        Some((target_body(raw), status))
    } else {
        match fallback_target(rules, path) {
            Some(t) => Some((encode_utf8(t), default_status)),
            None => None,
        }
    }
}

/// The answer to one request.
#[derive(Debug, PartialEq, Eq)]
pub enum Outcome {
    Redirect { target: Vec<u8>, status: u16 },
    NotFound,
}

impl View for Outcome {
    type V = Option<(Seq<u8>, u16)>;

    open spec fn view(&self) -> Option<(Seq<u8>, u16)> {
        match self {
            Outcome::Redirect { target, status } => Some((target@, *status)),
            Outcome::NotFound => None,
        }
    }
}

/// Why a snapshot could not be put together.
#[derive(Debug, PartialEq, Eq)]
pub enum InitError {
    InvalidDefaultStatus(u16),
    Index(IndexError),
    Dictionary(DictionaryError),
    /// The index hands out this id, which no target carries.
    MisalignedId(u64),
}

/// The immutable snapshot that requests are resolved against: the key
/// index, the target dictionary, the fallback rules and the default status.
pub struct RedirectResolver {
    index: KeyIndex,
    targets: TargetDictionary,
    fallbacks: FallbackTable,
    default_status: u16,
}

impl RedirectResolver {
    #[verifier::type_invariant]
    spec fn snapshot_ok(self) -> bool {
        &&& valid_default_status(self.default_status)
        &&& ids_aligned(self.index@, self.targets@)
    }

    pub closed spec fn index_view(&self) -> Map<Seq<u8>, u64> {
        self.index@
    }

    pub closed spec fn targets_view(&self) -> Seq<Seq<u8>> {
        self.targets@
    }

    pub closed spec fn rules_view(&self) -> Seq<(Seq<char>, Seq<char>)> {
        self.fallbacks@
    }

    pub closed spec fn default_status_view(&self) -> u16 {
        self.default_status
    }

    /// What `path` resolves to against this snapshot.
    pub open spec fn resolution_of(&self, path: Seq<char>) -> Option<(Seq<u8>, u16)> {
        resolution(
            self.index_view(),
            self.targets_view(),
            self.rules_view(),
            self.default_status_view(),
            path,
        )
    }

    /// The default status is in range and every id of the index addresses
    /// a target.
    pub open spec fn well_formed(&self) -> bool {
        &&& valid_default_status(self.default_status_view())
        &&& ids_aligned(self.index_view(), self.targets_view())
    }

    /// Puts a snapshot together from loaded parts, checking the default
    /// status and that every id of the index addresses a target.
    pub fn from_parts(
        index: KeyIndex,
        targets: TargetDictionary,
        fallbacks: FallbackTable,
        default_status: u16,
    ) -> (r: Result<RedirectResolver, InitError>)
        ensures
            !valid_default_status(default_status) ==> r == Err::<RedirectResolver, InitError>(
                InitError::InvalidDefaultStatus(default_status),
            ),
            valid_default_status(default_status) && ids_aligned(index@, targets@) ==> (
            r matches Ok(res) && res.well_formed() && res.index_view() == index@ && res.targets_view() == targets@
                && res.rules_view() == fallbacks@ && res.default_status_view() == default_status),
            valid_default_status(default_status) && !ids_aligned(index@, targets@) ==> (
            r matches Err(InitError::MisalignedId(id)) && id >= targets@.len() && exists|
                k: Seq<u8>,
            | index@.contains_key(k) && #[trigger] index@[k] == id),
    {
        if default_status < DEFAULT_STATUS_LOW || default_status >= DEFAULT_STATUS_END {
            return Err(InitError::InvalidDefaultStatus(default_status));
        }
        let n = targets.len();
        match index.id_at_or_above(n as u64) {
            Some(id) => Err(InitError::MisalignedId(id)),
            None => Ok(RedirectResolver { index, targets, fallbacks, default_status }),
        }
    }

    /// Loads a snapshot from a serialized index, a serialized dictionary,
    /// the fallback rules and the default status. The default status is
    /// checked first, then the index, then the dictionary, then that every
    /// id of the index addresses a target.
    pub fn init(
        index_bytes: &[u8],
        dictionary_bytes: &[u8],
        fallbacks: FallbackTable,
        default_status: u16,
    ) -> (r: Result<RedirectResolver, InitError>)
        ensures
            !valid_default_status(default_status) ==> r == Err::<RedirectResolver, InitError>(
                InitError::InvalidDefaultStatus(default_status),
            ),
            valid_default_status(default_status) && !index_blob_ok(index_bytes@) ==> (r matches Err(
                InitError::Index(_),
            )),
            valid_default_status(default_status) && index_blob_ok(index_bytes@)
                && !dictionary_blob_ok(dictionary_bytes@) ==> (r matches Err(
                InitError::Dictionary(_),
            )),
            valid_default_status(default_status) && index_blob_ok(index_bytes@) && dictionary_blob_ok(
                dictionary_bytes@,
            ) && !ids_below(
                index_blob_ids(index_bytes@),
                dictionary_blob_targets(dictionary_bytes@).len(),
            ) ==> (r matches Err(InitError::MisalignedId(_))),
            valid_default_status(default_status) && index_blob_ok(index_bytes@) && dictionary_blob_ok(
                dictionary_bytes@,
            ) && ids_below(
                index_blob_ids(index_bytes@),
                dictionary_blob_targets(dictionary_bytes@).len(),
            ) ==> (r matches Ok(res) && holds_entries(
                res.index_view(),
                index_blob_keys(index_bytes@),
                index_blob_ids(index_bytes@),
            ) && res.targets_view() == dictionary_blob_targets(dictionary_bytes@)),
            r matches Ok(res) ==> res.well_formed() && res.rules_view() == fallbacks@
                && res.default_status_view() == default_status,
    {
        if default_status < DEFAULT_STATUS_LOW || default_status >= DEFAULT_STATUS_END {
            return Err(InitError::InvalidDefaultStatus(default_status));
        }
        let index = match KeyIndex::deserialize(index_bytes) {
            Ok(i) => i,
            Err(e) => return Err(InitError::Index(e)),
        };
        let targets = match TargetDictionary::deserialize(dictionary_bytes) {
            Ok(t) => t,
            Err(e) => return Err(InitError::Dictionary(e)),
        };
        proof {
            lemma_aligned_by_ids(
                index@,
                index_blob_keys(index_bytes@),
                index_blob_ids(index_bytes@),
                targets@,
            );
        }
        RedirectResolver::from_parts(index, targets, fallbacks, default_status)
    }

    pub fn default_status(&self) -> (r: u16)
        ensures
            r == self.default_status_view(),
            valid_default_status(r),
    {
        proof {
            use_type_invariant(self);
        }
        self.default_status
    }

    /// Resolves a request path: an indexed path redirects to its stored
    /// target, with the status that the target carries or the default one;
    /// any other path goes through the fallback rules with the default
    /// status; a path that neither maps is not found.
    pub fn resolve(&self, path: &str) -> (r: Outcome)
        ensures
            r@ == self.resolution_of(path@),
    {
        proof {
            use_type_invariant(self);
        }
        let key = path.as_bytes();
        match self.index.lookup(key) {
            Some(id) => match self.targets.decode(id) {
                Ok(raw) => {
                    let (target, suffix) = parse_target(raw.as_slice());
                    let status = match suffix {
                        Some(s) => s,
                        None => self.default_status,
                    };
                    Outcome::Redirect { target, status }
                },
                Err(_) => Outcome::NotFound,
            },
            None => match get_fallback_redirect(&self.fallbacks, path) {
                Some(t) => Outcome::Redirect {
                    target: t.as_str().as_bytes_vec(),
                    status: self.default_status,
                },
                None => Outcome::NotFound,
            },
        }
    }
}

/// A path that was indexed with a target and an optional status override
/// resolves to that target, with the override or else the default status.
/// A target stored without an override must not itself end in what reads as
/// a status suffix.
pub proof fn law_round_trip(
    res: &RedirectResolver,
    path: Seq<char>,
    target: Seq<u8>,
    status: Option<u16>,
)
    requires
        res.well_formed(),
        res.index_view().contains_key(encode_utf8(path)),
        res.targets_view()[res.index_view()[encode_utf8(path)] as int] == encode_target(
            target,
            status,
        ),
        status matches Some(s) ==> MIN_SUFFIX_STATUS <= s <= MAX_SUFFIX_STATUS,
        status is None ==> status_suffix(target) is None,
    ensures
        res.resolution_of(path) == Some(
            (
                target,
                match status {
                    Some(s) => s,
                    None => res.default_status_view(),
                },
            ),
        ),
{
    lemma_encode_parse(target, status);
}

/// Every id that the index gives for a path addresses a target, and the path
/// resolves to that very target, read through its status suffix.
pub proof fn law_id_alignment(res: &RedirectResolver, path: Seq<char>)
    requires
        res.well_formed(),
        res.index_view().contains_key(encode_utf8(path)),
    ensures
        ({
            let id = res.index_view()[encode_utf8(path)];
            let raw = res.targets_view()[id as int];
            &&& id < res.targets_view().len()
            &&& res.resolution_of(path) matches Some((t, _)) && t == target_body(raw)
        }),
{
}

/// An index built from sorted keys and a dictionary built from targets in the
/// same order agree: the id that the index gives the key of rank `i` addresses
/// the target of rank `i`.
pub proof fn law_built_structures_align(
    keys: Seq<Seq<u8>>,
    targets: Seq<Seq<u8>>,
    index: Map<Seq<u8>, u64>,
    dictionary: Seq<Seq<u8>>,
)
    requires
        keys.len() == targets.len(),
        keys.len() <= u64::MAX,
        holds_entries(index, keys, Seq::new(keys.len(), |i: int| i as u64)),
        dictionary == targets,
    ensures
        ids_aligned(index, dictionary),
        forall|i: int|
            #![trigger keys[i]]
            0 <= i < keys.len() ==> dictionary[index[keys[i]] as int] == targets[i],
{
    let ids = Seq::new(keys.len(), |i: int| i as u64);
    assert forall|i: int| 0 <= i < ids.len() implies #[trigger] ids[i] < dictionary.len() by {}
    lemma_aligned_by_ids(index, keys, ids, dictionary);
    assert forall|i: int| #![trigger keys[i]] 0 <= i < keys.len() implies dictionary[index[keys[i]] as int]
        == targets[i] by {
        assert(index[keys[i]] == ids[i]);
        assert(ids[i] == i as u64);
    }
}

/// A path that the index does not hold and that no fallback prefix starts is
/// not found.
pub proof fn law_miss_without_fallback(res: &RedirectResolver, path: Seq<char>)
    requires
        !res.index_view().contains_key(encode_utf8(path)),
        fallback_target(res.rules_view(), path) is None,
    ensures
        res.resolution_of(path) is None,
{
}

} // verus!
