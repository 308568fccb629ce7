//! Prefix rules consulted for paths that the index does not hold.
use vstd::prelude::*;
use vstd::string::StrSliceExecFns;
use vstd::string::StringExecFns;

verus! {

/// One rule: paths that start with `path_prefix` are sent to `target`
/// followed by the rest of the path.
pub struct FallbackRule {
    pub path_prefix: String,
    pub target: String,
}

/// Rules in the order in which they were declared.
pub struct FallbackTable {
    pub rules: Vec<FallbackRule>,
}

impl View for FallbackRule {
    type V = (Seq<char>, Seq<char>);

    open spec fn view(&self) -> (Seq<char>, Seq<char>) {
        (self.path_prefix@, self.target@)
    }
}

impl View for FallbackTable {
    type V = Seq<(Seq<char>, Seq<char>)>;

    open spec fn view(&self) -> Seq<(Seq<char>, Seq<char>)> {
        self.rules@.map_values(|r: FallbackRule| r@)
    }
}

pub open spec fn starts_with(s: Seq<char>, prefix: Seq<char>) -> bool {
    prefix.len() <= s.len() && s.subrange(0, prefix.len() as int) == prefix
}

/// The index of the first rule whose prefix starts `path`, searching from `from`.
pub open spec fn first_match_from(rules: Seq<(Seq<char>, Seq<char>)>, path: Seq<char>, from: int) -> Option<int>
    decreases rules.len() - from,
{
    if from < 0 || from >= rules.len() {
        None
    } else if starts_with(path, rules[from].0) {
        Some(from)
    } else {
        first_match_from(rules, path, from + 1)
    }
}

/// The index of the first declared rule whose prefix starts `path`.
pub open spec fn first_match(rules: Seq<(Seq<char>, Seq<char>)>, path: Seq<char>) -> Option<int> {
    first_match_from(rules, path, 0)
}

/// Where the first matching rule sends `path`: its target followed verbatim by
/// what remains of the path after the prefix.
pub open spec fn fallback_target(rules: Seq<(Seq<char>, Seq<char>)>, path: Seq<char>) -> Option<Seq<char>> {
    match first_match(rules, path) {
        Some(i) => Some(rules[i].1 + path.subrange(rules[i].0.len() as int, path.len() as int)),
        None => None,
    }
}

impl FallbackRule {
    pub fn new(path_prefix: String, target: String) -> (r: FallbackRule)
        ensures
            r@ == (path_prefix@, target@),
    {
        FallbackRule { path_prefix, target }
    }
}

impl FallbackTable {
    /// A table that holds `rules` in the order given.
    pub fn new(rules: Vec<FallbackRule>) -> (r: FallbackTable)
        ensures
            r.rules@ == rules@,
    {
        FallbackTable { rules }
    }

    /// A table built from parallel lists of prefixes and targets.
    pub fn from_lists(prefixes: Vec<String>, targets: Vec<String>) -> (r: Option<FallbackTable>)
        ensures
            r is Some <==> prefixes@.len() == targets@.len(),
            r matches Some(t) ==> t@.len() == prefixes@.len() && forall|i: int|
                0 <= i < prefixes@.len() ==> #[trigger] t@[i] == (prefixes@[i]@, targets@[i]@),
    {
        if prefixes.len() != targets.len() {
            return None;
        }
        let mut rules: Vec<FallbackRule> = Vec::with_capacity(prefixes.len());
        let mut i: usize = 0;
        while i < prefixes.len()
            invariant
                prefixes@.len() == targets@.len(),
                i <= prefixes@.len(),
                rules@.len() == i,
                forall|j: int| 0 <= j < i ==> #[trigger] rules@[j]@ == (prefixes@[j]@, targets@[j]@),
            decreases prefixes@.len() - i,
        {
            let p = prefixes[i].clone();
            let t = targets[i].clone();
            rules.push(FallbackRule { path_prefix: p, target: t });
            i += 1;
        }
        let r = FallbackTable { rules };
        assert forall|j: int| 0 <= j < prefixes@.len() implies #[trigger] r@[j] == (
            prefixes@[j]@,
            targets@[j]@,
        ) by {
            assert(r@[j] == r.rules@[j]@);
        }
        Some(r)
    }
}

/// Whether `path` starts with `prefix`, compared character by character.
fn has_prefix(path: &str, path_len: usize, prefix: &str) -> (r: bool)
    requires
        path_len == path@.len(),
    ensures
        r == starts_with(path@, prefix@),
{
    let plen = prefix.unicode_len();
    if plen > path_len {
        return false;
    }
    let head = path.substring_char(0, plen).to_owned();
    let want = prefix.to_owned();
    head == want
}

/// The redirect for a path that the index does not hold: the first declared
/// rule whose prefix starts the path wins, and the rest of the path is
/// appended verbatim to that rule's target.
pub fn get_fallback_redirect(table: &FallbackTable, path: &str) -> (r: Option<String>)
    ensures
        r matches Some(s) ==> fallback_target(table@, path@) == Some(s@),
        r is None ==> fallback_target(table@, path@) is None,
{
    let path_len = path.unicode_len();
    let n = table.rules.len();
    let mut i: usize = 0;
    while i < n
        invariant
            n == table@.len(),
            path_len == path@.len(),
            i <= n,
            first_match(table@, path@) == first_match_from(table@, path@, i as int),
        decreases n - i,
    {
        let rule = &table.rules[i];
        assert(rule@ == table@[i as int]);
        if has_prefix(path, path_len, rule.path_prefix.as_str()) {
            let plen = rule.path_prefix.unicode_len();
            let rest = path.substring_char(plen, path_len);
            let out = rule.target.clone().concat(rest);
            return Some(out);
        }
        i += 1;
    }
    None
}

/// The first declared rule whose prefix starts the path decides, whatever
/// rules after it would also match.
pub proof fn law_first_match_wins(rules: Seq<(Seq<char>, Seq<char>)>, path: Seq<char>, i: int)
    requires
        0 <= i < rules.len(),
        starts_with(path, rules[i].0),
        forall|j: int| 0 <= j < i ==> !starts_with(path, #[trigger] rules[j].0),
    ensures
        fallback_target(rules, path) == Some(
            rules[i].1 + path.subrange(rules[i].0.len() as int, path.len() as int),
        ),
{
    lemma_first_match_from(rules, path, 0, i);
}

proof fn lemma_first_match_from(
    rules: Seq<(Seq<char>, Seq<char>)>,
    path: Seq<char>,
    from: int,
    i: int,
)
    requires
        0 <= from <= i < rules.len(),
        starts_with(path, rules[i].0),
        forall|j: int| from <= j < i ==> !starts_with(path, #[trigger] rules[j].0),
    ensures
        first_match_from(rules, path, from) == Some(i),
    decreases i - from,
{
    if from < i {
        lemma_first_match_from(rules, path, from + 1, i);
    }
}

} // verus!
