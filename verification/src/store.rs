use vstd::prelude::*;
use vstd::string::StringExecFns;
use crate::engine;
use crate::engine::canon;
use crate::engine::json_ok;
use crate::model::Outcome;
use crate::model::distinct_keys;
use crate::model::entry_update;
use crate::model::has_key;
use crate::model::idx_of;
use crate::model::pair_views;
use crate::model::selected;
use crate::model::string_views;
use crate::model::value_of;

verus! {

/// The failures the store reports to the caller. Per-document predicate
/// errors during a scan are not among them: those are diagnostics on a side
/// channel, and the scan goes on.
#[derive(Debug)]
pub enum DbError {
    /// The document text is not syntactically valid; nothing was stored.
    Parse(String),
    /// The predicate source did not evaluate to a callable; nothing was
    /// registered (at query time: the scan never started).
    Compile(String),
    /// No predicate is registered under the requested name; no scan occurred.
    NotFound(String),
    /// A stored document could not be translated for the engine; the query
    /// as a whole is abandoned.
    Bridge(String),
}

struct Entry {
    key: String,
    doc: serde_json::Value,
    canonical: String,
}

/// A document store with named, script-defined predicates.
///
/// The store maps string keys to JSON documents; each document is kept
/// together with its canonical serialization, which is what every read
/// reports. Predicates are Lua source texts that evaluate to one-argument
/// functions; they are validated at registration and recompiled at each
/// query against the one engine instance the store owns.
pub struct Database {
    store: Vec<Entry>,
    udfs: Vec<(String, String)>,
    lua: mlua::Lua,
}

impl Database {
    /// The store's contents: (key, canonical document text) pairs in
    /// insertion order.
    pub closed spec fn store_seq(self) -> Seq<(Seq<char>, Seq<char>)> {
        self.store@.map_values(|e: Entry| (e.key@, e.canonical@))
    }

    /// The registry's contents: (name, predicate source) pairs in
    /// registration order.
    pub closed spec fn udf_seq(self) -> Seq<(Seq<char>, Seq<char>)> {
        self.udfs@.map_values(|p: (String, String)| (p.0@, p.1@))
    }

    /// Both key spaces hold each key at most once.
    pub open spec fn wf(self) -> bool {
        distinct_keys(self.store_seq()) && distinct_keys(self.udf_seq())
    }

    /// A fresh, empty store with its own engine instance.
    pub fn new() -> (r: Database)
        ensures
            r.wf(),
            r.store_seq() == Seq::<(Seq<char>, Seq<char>)>::empty(),
            r.udf_seq() == Seq::<(Seq<char>, Seq<char>)>::empty(),
    {
        let db = Database { store: Vec::new(), udfs: Vec::new(), lua: engine::lua_new() };
        proof {
            assert(db.store_seq() =~= Seq::<(Seq<char>, Seq<char>)>::empty());
            assert(db.udf_seq() =~= Seq::<(Seq<char>, Seq<char>)>::empty());
        }
        db
    }

    fn find_doc(&self, key: &String) -> (r: Option<usize>)
        ensures
            match r {
                Some(i) => i < self.store_seq().len() && self.store_seq()[i as int].0 == key@,
                None => !has_key(self.store_seq(), key@),
            },
    {
        let n = self.store.len();
        let mut i: usize = 0;
        while i < n
            invariant
                i <= n,
                n == self.store@.len(),
                forall|j: int| 0 <= j < i ==> self.store_seq()[j].0 != key@,
            decreases n - i,
        {
            if self.store[i].key == *key {
                return Some(i);
            }
            i += 1;
        }
        None
    }

    fn find_udf(&self, name: &String) -> (r: Option<usize>)
        ensures
            match r {
                Some(i) => i < self.udf_seq().len() && self.udf_seq()[i as int].0 == name@,
                None => !has_key(self.udf_seq(), name@),
            },
    {
        let n = self.udfs.len();
        let mut i: usize = 0;
        while i < n
            invariant
                i <= n,
                n == self.udfs@.len(),
                forall|j: int| 0 <= j < i ==> self.udf_seq()[j].0 != name@,
            decreases n - i,
        {
            if self.udfs[i].0 == *name {
                return Some(i);
            }
            i += 1;
        }
        None
    }

    /// Parses `value` and stores the document under `key`, overwriting any
    /// prior document there. Exactly the syntactically valid texts are
    /// accepted; on rejection the store is unchanged. The stored text is the
    /// canonical form of `value`: itself valid, canonically stable, and
    /// describing the same structure.
    pub fn set(&mut self, key: String, value: String) -> (r: Result<(), DbError>)
        requires
            old(self).wf(),
        ensures
            final(self).wf(),
            final(self).udf_seq() == old(self).udf_seq(),
            match r {
                Ok(()) => json_ok(value@) && final(self).store_seq() == entry_update(
                    old(self).store_seq(),
                    key@,
                    canon(value@),
                ) && json_ok(canon(value@)) && canon(canon(value@)) == canon(value@),
                Err(e) => e is Parse && !json_ok(value@) && final(self).store_seq() == old(
                    self,
                ).store_seq(),
            },
    {
        let parsed = match engine::parse_canonical(value.as_str()) {
            Ok(p) => p,
            Err(m) => {
                let mut msg = "Invalid JSON: ".to_string();
                msg.append(m.as_str());
                return Err(DbError::Parse(msg));
            }
        };
        let (doc, canonical) = parsed;
        let entry = Entry { key, doc, canonical };
        match self.find_doc(&entry.key) {
            Some(i) => {
                proof {
                    lemma_key_at(old(self).store_seq(), key@, i as int);
                }
                self.store[i] = entry;
                proof {
                    assert(self.store_seq() =~= entry_update(
                        old(self).store_seq(),
                        key@,
                        canon(value@),
                    ));
                    lemma_update_keeps_distinct(old(self).store_seq(), key@, canon(value@));
                }
            }
            None => {
                self.store.push(entry);
                proof {
                    assert(self.store_seq() =~= entry_update(
                        old(self).store_seq(),
                        key@,
                        canon(value@),
                    ));
                    lemma_update_keeps_distinct(old(self).store_seq(), key@, canon(value@));
                }
            }
        }
        Ok(())
    }

    /// The canonical serialization of the document stored under `key`, or
    /// nothing when the key is unknown.
    pub fn get(&self, key: &str) -> (r: Option<String>)
        requires
            self.wf(),
        ensures
            match r {
                Some(text) => has_key(self.store_seq(), key@) && text@ == value_of(
                    self.store_seq(),
                    key@,
                ),
                None => !has_key(self.store_seq(), key@),
            },
    {
        let owned = key.to_string();
        match self.find_doc(&owned) {
            Some(i) => {
                proof {
                    lemma_key_at(self.store_seq(), key@, i as int);
                }
                Some(self.store[i].canonical.clone())
            }
            None => None,
        }
    }

    /// All stored keys, in the store's iteration order.
    pub fn keys(&self) -> (r: Vec<String>)
        ensures
            string_views(r@) == crate::model::keys_of(self.store_seq()),
    {
        let n = self.store.len();
        let mut out: Vec<String> = Vec::new();
        let mut i: usize = 0;
        while i < n
            invariant
                i <= n,
                n == self.store@.len(),
                out@.len() == i,
                forall|j: int| 0 <= j < i ==> #[trigger] out@[j]@ == self.store_seq()[j].0,
            decreases n - i,
        {
            out.push(self.store[i].key.clone());
            i += 1;
        }
        proof {
            assert(string_views(out@) =~= crate::model::keys_of(self.store_seq()));
        }
        out
    }

    /// How many documents the store holds.
    pub fn len(&self) -> (r: usize)
        ensures
            r == self.store_seq().len(),
    {
        self.store.len()
    }

    /// Whether the store holds no document.
    pub fn is_empty(&self) -> (r: bool)
        ensures
            r == (self.store_seq().len() == 0),
    {
        self.store.is_empty()
    }

    /// Validates that `code` evaluates to a callable in the shared engine,
    /// and on success records (name, code), overwriting any prior predicate
    /// of that name. On failure nothing changes: registration is
    /// all-or-nothing. Whether validation succeeds is the engine's decision,
    /// so no input is promised to register.
    pub fn register_udf(&mut self, name: String, code: String) -> (r: Result<(), DbError>)
        requires
            old(self).wf(),
        ensures
            final(self).wf(),
            final(self).store_seq() == old(self).store_seq(),
            match r {
                Ok(()) => final(self).udf_seq() == entry_update(
                    old(self).udf_seq(),
                    name@,
                    code@,
                ),
                Err(e) => e is Compile && final(self).udf_seq() == old(self).udf_seq(),
            },
    {
        match engine::eval_to_function(&self.lua, code.as_str()) {
            Ok(_f) => {}
            Err(m) => {
                let mut msg = "Invalid Lua code: ".to_string();
                msg.append(m.as_str());
                return Err(DbError::Compile(msg));
            }
        }
        match self.find_udf(&name) {
            Some(i) => {
                proof {
                    lemma_key_at(old(self).udf_seq(), name@, i as int);
                }
                self.udfs[i] = (name, code);
                proof {
                    assert(self.udf_seq() =~= entry_update(old(self).udf_seq(), name@, code@));
                    lemma_update_keeps_distinct(old(self).udf_seq(), name@, code@);
                }
            }
            None => {
                self.udfs.push((name, code));
                proof {
                    assert(self.udf_seq() =~= entry_update(old(self).udf_seq(), name@, code@));
                    lemma_update_keeps_distinct(old(self).udf_seq(), name@, code@);
                }
            }
        }
        Ok(())
    }

    /// All registered predicate names, in registration order.
    pub fn list_udfs(&self) -> (r: Vec<String>)
        ensures
            string_views(r@) == crate::model::keys_of(self.udf_seq()),
    {
        let n = self.udfs.len();
        let mut out: Vec<String> = Vec::new();
        let mut i: usize = 0;
        while i < n
            invariant
                i <= n,
                n == self.udfs@.len(),
                out@.len() == i,
                forall|j: int| 0 <= j < i ==> #[trigger] out@[j]@ == self.udf_seq()[j].0,
            decreases n - i,
        {
            out.push(self.udfs[i].0.clone());
            i += 1;
        }
        proof {
            assert(string_views(out@) =~= crate::model::keys_of(self.udf_seq()));
        }
        out
    }

    /// Runs the named predicate over every stored document and reports the
    /// matching (key, canonical document text) pairs in store order.
    ///
    /// An unknown name fails with `NotFound` before any document is visited
    /// — and that is the only way `NotFound` arises. Otherwise the stored
    /// source is recompiled; if the engine now rejects it the query fails
    /// with `Compile`, and if a document cannot be translated for the engine
    /// the query fails with `Bridge`. Once scanning, each document gets an
    /// outcome of its own and no outcome aborts the scan: the result is the
    /// subsequence of documents whose invocation matched, every document
    /// having been given its turn. A failed invocation only produces a
    /// diagnostic on the side channel.
    pub fn get_where(&self, udf_name: &str) -> (r: Result<Vec<(String, String)>, DbError>)
        requires
            self.wf(),
        ensures
            (r matches Err(DbError::NotFound(_))) <==> !has_key(self.udf_seq(), udf_name@),
            r matches Err(e) ==> e is NotFound || e is Compile || e is Bridge,
            r matches Ok(res) ==> exists|outs: Seq<Outcome>|
                outs.len() == self.store_seq().len() && pair_views(res@) == selected(
                    self.store_seq(),
                    outs,
                ),
    {
        let owned = udf_name.to_string();
        let idx = match self.find_udf(&owned) {
            Some(i) => i,
            None => {
                let mut msg = "UDF '".to_string();
                msg.append(udf_name);
                msg.append("' not found");
                return Err(DbError::NotFound(msg));
            }
        };
        proof {
            lemma_key_at(self.udf_seq(), udf_name@, idx as int);
        }
        let lua_func = match engine::eval_to_function(&self.lua, self.udfs[idx].1.as_str()) {
            Ok(f) => f,
            Err(m) => {
                let mut msg = "Failed to load UDF '".to_string();
                msg.append(udf_name);
                msg.append("': ");
                msg.append(m.as_str());
                return Err(DbError::Compile(msg));
            }
        };
        let mut results: Vec<(String, String)> = Vec::new();
        let ghost mut outs: Seq<Outcome> = Seq::empty();
        let n = self.store.len();
        let mut i: usize = 0;
        while i < n
            invariant
                i <= n,
                n == self.store@.len(),
                outs.len() == i,
                has_key(self.udf_seq(), udf_name@),
                pair_views(results@) == selected(self.store_seq().take(i as int), outs),
            decreases n - i,
        {
            let lua_value = match engine::doc_to_lua(&self.lua, &self.store[i].doc) {
                Ok(v) => v,
                Err(m) => {
                    let mut msg = "Failed to convert to Lua: ".to_string();
                    msg.append(m.as_str());
                    return Err(DbError::Bridge(msg));
                }
            };
            let out = engine::call_predicate(&lua_func, lua_value);
            let ghost prev = results@;
            match &out {
                Outcome::Matched => {
                    results.push((self.store[i].key.clone(), self.store[i].canonical.clone()));
                }
                Outcome::NotMatched => {}
                Outcome::Failed(m) => {
                    engine::emit_diagnostic(self.store[i].key.as_str(), m.as_str());
                }
            }
            proof {
                let taken = self.store_seq().take(i as int);
                let entry_view = self.store_seq()[i as int];
                assert(self.store_seq().take(i + 1) =~= taken.push(entry_view));
                crate::laws::lemma_selected_snoc(taken, outs, entry_view, out);
                if out is Matched {
                    assert(pair_views(results@) =~= pair_views(prev).push(entry_view));
                }
                outs = outs.push(out);
            }
            i += 1;
        }
        proof {
            assert(self.store_seq().take(n as int) =~= self.store_seq());
            assert(outs.len() == self.store_seq().len() && pair_views(results@) == selected(
                self.store_seq(),
                outs,
            ));
        }
        Ok(results)
    }
}

/// When the keys of `s` are distinct and position `i` carries `k`, the
/// position is the (unique) one the lookup model designates.
pub proof fn lemma_key_at(s: Seq<(Seq<char>, Seq<char>)>, k: Seq<char>, i: int)
    requires
        distinct_keys(s),
        0 <= i < s.len(),
        s[i].0 == k,
    ensures
        has_key(s, k),
        idx_of(s, k) == i,
        value_of(s, k) == s[i].1,
{
    assert(has_key(s, k));
    let i0 = idx_of(s, k);
    assert(0 <= i0 < s.len() && s[i0].0 == k);
    if i0 < i {
        assert(s[i0].0 != s[i].0);
    }
    if i < i0 {
        assert(s[i].0 != s[i0].0);
    }
}

/// Insert-or-overwrite never duplicates a key.
pub proof fn lemma_update_keeps_distinct(s: Seq<(Seq<char>, Seq<char>)>, k: Seq<char>, v: Seq<char>)
    requires
        distinct_keys(s),
    ensures
        distinct_keys(entry_update(s, k, v)),
{
    let u = entry_update(s, k, v);
    if has_key(s, k) {
        let i0 = idx_of(s, k);
        assert(0 <= i0 < s.len() && s[i0].0 == k);
        assert forall|i: int, j: int| 0 <= i < j < u.len() implies u[i].0 != u[j].0 by {
            assert(s[i].0 != s[j].0);
        }
    } else {
        assert forall|i: int, j: int| 0 <= i < j < u.len() implies u[i].0 != u[j].0 by {
            if j < s.len() {
                assert(s[i].0 != s[j].0);
            } else {
                assert(u[j].0 == k);
                assert(s[i].0 != k);
            }
        }
    }
}

} // verus!
