use vstd::prelude::*;
use crate::engine::canon;
use crate::model::Outcome;
use crate::model::distinct_keys;
use crate::model::entry_update;
use crate::model::has_key;
use crate::model::idx_of;
use crate::model::keys_of;
use crate::model::selected;
use crate::model::value_of;

verus! {

// The library's general laws, stated over the store model that the public
// contracts use.

/// Unfolding `selected` one entry at a time: extending a scan by one entry
/// appends that entry exactly when its outcome matched.
pub proof fn lemma_selected_snoc(
    entries: Seq<(Seq<char>, Seq<char>)>,
    outs: Seq<Outcome>,
    e: (Seq<char>, Seq<char>),
    o: Outcome,
)
    requires
        entries.len() == outs.len(),
    ensures
        selected(entries.push(e), outs.push(o)) == if o is Matched {
            selected(entries, outs).push(e)
        } else {
            selected(entries, outs)
        },
{
    let e2 = entries.push(e);
    let o2 = outs.push(o);
    assert(e2.drop_last() =~= entries);
    assert(o2.drop_last() =~= outs);
    assert(e2.last() == e);
    assert(o2.last() == o);
}

/// Looking up the key just written finds the value just written: with
/// `Database::set`'s contract, after `set(k, t)` succeeds, `get(k)` returns
/// the canonical form of `t` — text that re-parses to the very structure
/// `t` describes.
pub proof fn lemma_round_trip(s: Seq<(Seq<char>, Seq<char>)>, k: Seq<char>, t: Seq<char>)
    requires
        distinct_keys(s),
    ensures
        has_key(entry_update(s, k, canon(t)), k),
        value_of(entry_update(s, k, canon(t)), k) == canon(t),
{
    lemma_update_then_lookup(s, k, canon(t));
}

/// Writing under a key makes exactly that value retrievable under the key.
pub proof fn lemma_update_then_lookup(s: Seq<(Seq<char>, Seq<char>)>, k: Seq<char>, v: Seq<char>)
    requires
        distinct_keys(s),
    ensures
        has_key(entry_update(s, k, v), k),
        value_of(entry_update(s, k, v), k) == v,
{
    let u = entry_update(s, k, v);
    if has_key(s, k) {
        let i0 = idx_of(s, k);
        assert(0 <= i0 < s.len() && s[i0].0 == k);
        assert(u[i0].0 == k && u[i0].1 == v);
        crate::store::lemma_update_keeps_distinct(s, k, v);
        crate::store::lemma_key_at(u, k, i0);
    } else {
        let last = s.len() as int;
        assert(u[last].0 == k && u[last].1 == v);
        crate::store::lemma_update_keeps_distinct(s, k, v);
        crate::store::lemma_key_at(u, k, last);
    }
}

/// Overwriting: a second write under the same key leaves only the second
/// value in the store — the result is the same as writing the second value
/// alone — and the set of keys (in particular the store's cardinality) is
/// what one write alone produces.
pub proof fn lemma_overwrite(
    s: Seq<(Seq<char>, Seq<char>)>,
    k: Seq<char>,
    a: Seq<char>,
    b: Seq<char>,
)
    requires
        distinct_keys(s),
    ensures
        entry_update(entry_update(s, k, a), k, b) == entry_update(s, k, b),
        keys_of(entry_update(entry_update(s, k, a), k, b)) == keys_of(entry_update(s, k, a)),
{
    let u1 = entry_update(s, k, a);
    crate::store::lemma_update_keeps_distinct(s, k, a);
    if has_key(s, k) {
        let i0 = idx_of(s, k);
        assert(0 <= i0 < s.len() && s[i0].0 == k);
        assert(u1[i0].0 == k);
        crate::store::lemma_key_at(u1, k, i0);
        assert(entry_update(u1, k, b) =~= entry_update(s, k, b));
    } else {
        let last = s.len() as int;
        assert(u1[last].0 == k);
        crate::store::lemma_key_at(u1, k, last);
        assert(entry_update(u1, k, b) =~= entry_update(s, k, b));
    }
    assert(keys_of(entry_update(u1, k, b)) =~= keys_of(u1));
}

/// Every entry a scan reports is an entry of the store.
pub proof fn lemma_selected_are_entries(entries: Seq<(Seq<char>, Seq<char>)>, outs: Seq<Outcome>)
    requires
        entries.len() == outs.len(),
    ensures
        forall|p: (Seq<char>, Seq<char>)|
            selected(entries, outs).contains(p) ==> entries.contains(p),
    decreases entries.len(),
{
    if entries.len() == 0 {
    } else {
        let ep = entries.drop_last();
        let op = outs.drop_last();
        lemma_selected_are_entries(ep, op);
        assert forall|p: (Seq<char>, Seq<char>)|
            selected(entries, outs).contains(p) implies entries.contains(p) by {
            let sel = selected(entries, outs);
            let j = choose|j: int| 0 <= j < sel.len() && sel[j] == p;
            if outs.last() is Matched && j == sel.len() - 1 {
                assert(p == entries.last());
                assert(entries[entries.len() - 1] == p);
            } else {
                assert(selected(ep, op).contains(p));
                assert(ep.contains(p));
                let j2 = choose|j2: int| 0 <= j2 < ep.len() && ep[j2] == p;
                assert(entries[j2] == p);
            }
        }
    }
}

/// Per-row isolation, inclusion half: whatever the predicate did elsewhere
/// in the scan — matched, rejected, or failed — a document whose own
/// invocation matched is in the result.
pub proof fn lemma_isolation_included(
    entries: Seq<(Seq<char>, Seq<char>)>,
    outs: Seq<Outcome>,
    i: int,
)
    requires
        entries.len() == outs.len(),
        0 <= i < entries.len(),
        outs[i] is Matched,
    ensures
        selected(entries, outs).contains(entries[i]),
    decreases entries.len(),
{
    let sel = selected(entries, outs);
    let ep = entries.drop_last();
    let op = outs.drop_last();
    if i == entries.len() - 1 {
        assert(sel.last() == entries[i]);
        assert(sel[sel.len() - 1] == entries[i]);
    } else {
        lemma_isolation_included(ep, op, i);
        let pre = selected(ep, op);
        let j = choose|j: int| 0 <= j < pre.len() && pre[j] == ep[i];
        assert(sel[j] == entries[i]);
    }
}

/// Per-row isolation, exclusion half: a document whose own invocation did
/// not match — in particular one whose invocation failed and was skipped —
/// contributes nothing: no reported pair carries its key.
pub proof fn lemma_isolation_excluded(
    entries: Seq<(Seq<char>, Seq<char>)>,
    outs: Seq<Outcome>,
    i: int,
)
    requires
        entries.len() == outs.len(),
        distinct_keys(entries),
        0 <= i < entries.len(),
        !(outs[i] is Matched),
    ensures
        forall|p: (Seq<char>, Seq<char>)|
            selected(entries, outs).contains(p) ==> p.0 != entries[i].0,
    decreases entries.len(),
{
    let sel = selected(entries, outs);
    let ep = entries.drop_last();
    let op = outs.drop_last();
    assert forall|p: (Seq<char>, Seq<char>)| sel.contains(p) implies p.0 != entries[i].0 by {
        let j = choose|j: int| 0 <= j < sel.len() && sel[j] == p;
        if i == entries.len() - 1 {
            // The last outcome did not match, so everything reported comes
            // from the earlier entries, whose keys differ from the last key.
            lemma_selected_are_entries(ep, op);
            assert(selected(ep, op).contains(p));
            assert(ep.contains(p));
            let j2 = choose|j2: int| 0 <= j2 < ep.len() && ep[j2] == p;
            assert(entries[j2] == p);
            assert(entries[j2].0 != entries[i].0);
        } else {
            assert(distinct_keys(ep));
            lemma_isolation_excluded(ep, op, i);
            if outs.last() is Matched && j == sel.len() - 1 {
                assert(p == entries.last());
                assert(entries[entries.len() - 1].0 != entries[i].0);
            } else {
                assert(selected(ep, op).contains(p));
            }
        }
    }
}

} // verus!
