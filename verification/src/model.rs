use vstd::prelude::*;

verus! {

// The mathematical model of the store and of the registry: an ordered
// sequence of (key, payload) pairs, both viewed as character sequences, with
// pairwise-distinct keys. The order is the insertion order; callers may not
// rely on it, but it is what the executable code produces.

/// The keys of an entry sequence, in entry order.
pub open spec fn keys_of(s: Seq<(Seq<char>, Seq<char>)>) -> Seq<Seq<char>> {
    s.map_values(|p: (Seq<char>, Seq<char>)| p.0)
}

/// No two entries share a key.
pub open spec fn distinct_keys(s: Seq<(Seq<char>, Seq<char>)>) -> bool {
    forall|i: int, j: int| 0 <= i < j < s.len() ==> s[i].0 != s[j].0
}

/// Some entry carries the key `k`.
pub open spec fn has_key(s: Seq<(Seq<char>, Seq<char>)>, k: Seq<char>) -> bool {
    exists|i: int| 0 <= i < s.len() && s[i].0 == k
}

/// The position of the entry carrying `k`; meaningful only when `has_key`
/// holds, and unique when the keys are distinct.
pub open spec fn idx_of(s: Seq<(Seq<char>, Seq<char>)>, k: Seq<char>) -> int {
    choose|i: int| 0 <= i < s.len() && s[i].0 == k
}

/// The payload stored under `k`; meaningful only when `has_key` holds.
pub open spec fn value_of(s: Seq<(Seq<char>, Seq<char>)>, k: Seq<char>) -> Seq<char> {
    s[idx_of(s, k)].1
}

/// Insert-or-overwrite: an existing entry for `k` is replaced in place, a new
/// key is appended at the end.
pub open spec fn entry_update(
    s: Seq<(Seq<char>, Seq<char>)>,
    k: Seq<char>,
    v: Seq<char>,
) -> Seq<(Seq<char>, Seq<char>)> {
    if has_key(s, k) {
        s.update(idx_of(s, k), (k, v))
    } else {
        s.push((k, v))
    }
}

/// What one predicate invocation did with one document.
pub enum Outcome {
    /// The predicate returned a truthy value: the document is a match.
    Matched,
    /// The predicate returned a falsy value: the document is not a match.
    NotMatched,
    /// The predicate raised a runtime error: the document is skipped and the
    /// message is reported as a diagnostic; the scan continues.
    Failed(String),
}

/// The entries a scan reports, given the outcome of the predicate on each
/// entry: exactly the entries whose outcome is `Matched`, in entry order.
/// An entry whose predicate call failed is skipped, never fatal.
pub open spec fn selected(
    entries: Seq<(Seq<char>, Seq<char>)>,
    outs: Seq<Outcome>,
) -> Seq<(Seq<char>, Seq<char>)>
    decreases entries.len(),
{
    if entries.len() == 0 || outs.len() == 0 {
        Seq::empty()
    } else {
        let prefix = selected(entries.drop_last(), outs.drop_last());
        if outs.last() is Matched {
            prefix.push(entries.last())
        } else {
            prefix
        }
    }
}

/// The views of a vector of owned string pairs.
pub open spec fn pair_views(s: Seq<(String, String)>) -> Seq<(Seq<char>, Seq<char>)> {
    s.map_values(|p: (String, String)| (p.0@, p.1@))
}

/// The views of a vector of owned strings.
pub open spec fn string_views(s: Seq<String>) -> Seq<Seq<char>> {
    s.map_values(|x: String| x@)
}

} // verus!
