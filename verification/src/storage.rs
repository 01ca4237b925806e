//! The storage capability and its in-memory backend.
//!
//! A backend owns a sequence of document slots; a slot is `None` once its
//! document has been deleted, so positions are never renumbered or reused
//! within a backend's lifetime.

use crate::error::ZenoError;
use crate::query::{
    after_delete, after_update, apply_update, matching, obj_entries, query_is_match_all,
    query_selects, selected_count,
};
use crate::value::{arr_model, lemma_arr_model_push, obj_model, Val, Value};
use vstd::prelude::*;

verus! {

/// The slot sequence viewed abstractly: each slot is the model of its
/// document, or `None` once deleted.
pub open spec fn slots_model(slots: Seq<Option<Value>>) -> Seq<Option<Val>> {
    slots.map_values(
        |slot: Option<Value>|
            match slot {
                Some(d) => Some(d@),
                None => None,
            },
    )
}

/// The storage capability: a backend owns a sequence of document slots and
/// answers appends and structural reads. A fallible (non-memory) backend
/// may fail with a storage error; `always_succeeds` says it never will.
pub trait Storage: Sized {
    /// The owned slots: one per assigned position, `None` once deleted.
    spec fn docs(&self) -> Seq<Option<Val>>;

    /// Whether this backend never fails with a storage error.
    spec fn always_succeeds(&self) -> bool;

    /// Append a document; the assigned position is the former slot count.
    fn write(&mut self, value: Value) -> (r: Result<usize, ZenoError>)
        ensures
            match r {
                Ok(pos) => {
                    &&& final(self).docs() == old(self).docs().push(Some(value@))
                    &&& pos == old(self).docs().len()
                },
                Err(e) => {
                    &&& e is Storage
                    &&& final(self).docs() == old(self).docs()
                },
            },
            old(self).always_succeeds() ==> r is Ok,
            final(self).always_succeeds() == old(self).always_succeeds(),
    ;

    /// Evaluate a query descriptor against every stored document, in
    /// insertion order, without changing the backend.
    fn read(&self, query: &Value) -> (r: Result<Vec<Value>, ZenoError>)
        ensures
            match r {
                Ok(out) => {
                    &&& query@ is Obj
                    &&& arr_model(out@) == matching(self.docs(), query@)
                },
                Err(e) => {
                    &&& e is Query ==> !(query@ is Obj)
                    &&& e is Storage ==> !self.always_succeeds()
                },
            },
            self.always_succeeds() && query@ is Obj ==> r is Ok,
    ;
}

/// The in-memory backend: an append-only slot vector held in process
/// memory.
pub struct MemoryStorage {
    memdb: Vec<Option<Value>>,
}

/// The in-memory backend never fails with a storage error.
pub proof fn lemma_memory_always_succeeds(s: &MemoryStorage)
    ensures
        s.always_succeeds(),
{
}

impl Default for MemoryStorage {
    /// A fresh, empty backend.
    fn default() -> (r: Self)
        ensures
            r.docs() == Seq::<Option<Val>>::empty(),
    {
        let r = MemoryStorage { memdb: Vec::new() };
        proof {
            assert(r.docs() =~= Seq::<Option<Val>>::empty());
        }
        r
    }
}

impl Storage for MemoryStorage {
    closed spec fn docs(&self) -> Seq<Option<Val>> {
        slots_model(self.memdb@)
    }

    closed spec fn always_succeeds(&self) -> bool {
        true
    }

    fn write(&mut self, value: Value) -> (r: Result<usize, ZenoError>) {
        let pos = self.memdb.len();
        let ghost pre = self.memdb@;
        self.memdb.push(Some(value));
        proof {
            assert(slots_model(self.memdb@) =~= slots_model(pre).push(Some(value@)));
        }
        Ok(pos)
    }

    #[verifier::loop_isolation(false)]
    fn read(&self, query: &Value) -> (r: Result<Vec<Value>, ZenoError>) {
        match query {
            Value::Obj(qents) => {
                let ghost qm = query@;
                let ghost docs = self.docs();
                let match_all = query_is_match_all(query);
                let mut out: Vec<Value> = Vec::new();
                let mut i: usize = 0;
                while i < self.memdb.len()
                    invariant
                        i <= self.memdb.len(),
                        arr_model(out@) == matching(docs.take(i as int), qm),
                    decreases self.memdb.len() - i,
                {
                    proof {
                        assert(docs.take(i + 1).drop_last() =~= docs.take(i as int));
                        assert(docs.take(i + 1).last() == docs[i as int]);
                    }
                    match &self.memdb[i] {
                        Some(d) => {
                            if query_selects(qents, match_all, d) {
                                let ghost pre = out@;
                                out.push(d.clone());
                                proof {
                                    lemma_arr_model_push(pre, out@[pre.len() as int]);
                                    assert(matching(docs.take(i + 1), qm) =~= arr_model(out@));
                                }
                            } else {
                                proof {
                                    assert(matching(docs.take(i + 1), qm) =~= arr_model(out@));
                                }
                            }
                        },
                        None => {
                            proof {
                                assert(matching(docs.take(i + 1), qm) =~= arr_model(out@));
                            }
                        },
                    }
                    i += 1;
                }
                proof {
                    assert(docs.take(self.memdb@.len() as int) =~= docs);
                }
                Ok(out)
            },
            _ => Err(ZenoError::Query),
        }
    }
}

impl MemoryStorage {
    /// Remove every document the descriptor selects, returning how many
    /// were removed. Surviving slots keep their positions; emptied slots
    /// are never reused.
    #[verifier::loop_isolation(false)]
    pub fn delete(&mut self, query: &Value) -> (r: Result<usize, ZenoError>)
        ensures
            match r {
                Ok(n) => {
                    &&& query@ is Obj
                    &&& final(self).docs() == after_delete(old(self).docs(), query@)
                    &&& n == selected_count(old(self).docs(), query@)
                },
                Err(e) => {
                    &&& e is Query
                    &&& !(query@ is Obj)
                    &&& final(self).docs() == old(self).docs()
                },
            },
    {
        match query {
            Value::Obj(qents) => {
                let ghost qm = query@;
                let ghost docs0 = old(self).docs();
                let match_all = query_is_match_all(query);
                let mut removed: usize = 0;
                let mut i: usize = 0;
                while i < self.memdb.len()
                    invariant
                        i <= self.memdb@.len(),
                        self.memdb@.len() == docs0.len(),
                        removed <= i,
                        removed == selected_count(docs0.take(i as int), qm),
                        forall|t: int|
                            i <= t < docs0.len() ==> self.docs()[t] == #[trigger] docs0[t],
                        forall|t: int|
                            0 <= t < i ==> self.docs()[t] == #[trigger] after_delete(docs0, qm)[t],
                    decreases self.memdb@.len() - i,
                {
                    proof {
                        assert(docs0.take(i + 1).drop_last() =~= docs0.take(i as int));
                        assert(docs0.take(i + 1).last() == docs0[i as int]);
                    }
                    let mut selected = false;
                    match &self.memdb[i] {
                        Some(d) => {
                            if query_selects(qents, match_all, d) {
                                selected = true;
                            }
                        },
                        None => {},
                    }
                    if selected {
                        self.memdb[i] = None;
                        removed = removed + 1;
                    }
                    i += 1;
                }
                proof {
                    assert(docs0.take(docs0.len() as int) =~= docs0);
                    assert(self.docs() =~= after_delete(docs0, qm));
                }
                Ok(removed)
            },
            _ => Err(ZenoError::Query),
        }
    }

    /// Replace the named top-level keys of every document the descriptor
    /// selects with the given field values, leaving other keys untouched.
    #[verifier::loop_isolation(false)]
    pub fn update(&mut self, query: &Value, fields: &Value) -> (r: Result<(), ZenoError>)
        ensures
            match r {
                Ok(_) => {
                    &&& query@ is Obj
                    &&& fields@ is Obj
                    &&& final(self).docs() == after_update(
                        old(self).docs(),
                        query@,
                        obj_entries(fields@),
                    )
                },
                Err(e) => {
                    &&& e is Query
                    &&& !(query@ is Obj && fields@ is Obj)
                    &&& final(self).docs() == old(self).docs()
                },
            },
    {
        match (query, fields) {
            (Value::Obj(qents), Value::Obj(fents)) => {
                let ghost qm = query@;
                let ghost fm = obj_model(fents@);
                let ghost docs0 = old(self).docs();
                let match_all = query_is_match_all(query);
                let mut i: usize = 0;
                while i < self.memdb.len()
                    invariant
                        i <= self.memdb@.len(),
                        self.memdb@.len() == docs0.len(),
                        forall|t: int|
                            i <= t < docs0.len() ==> self.docs()[t] == #[trigger] docs0[t],
                        forall|t: int|
                            0 <= t < i ==> self.docs()[t] == #[trigger] after_update(
                                docs0,
                                qm,
                                fm,
                            )[t],
                    decreases self.memdb@.len() - i,
                {
                    let mut replacement: Option<Value> = None;
                    match &self.memdb[i] {
                        Some(d) => {
                            if query_selects(qents, match_all, d) {
                                replacement = Some(apply_update(d, fents));
                            }
                        },
                        None => {},
                    }
                    match replacement {
                        Some(nd) => {
                            self.memdb[i] = Some(nd);
                        },
                        None => {},
                    }
                    i += 1;
                }
                proof {
                    assert(self.docs() =~= after_update(docs0, qm, fm));
                }
                Ok(())
            },
            _ => Err(ZenoError::Query),
        }
    }

    /// Remove every document and reset the backend to empty: positions
    /// start over at zero.
    pub fn truncate(&mut self)
        ensures
            final(self).docs() == Seq::<Option<Val>>::empty(),
    {
        self.memdb = Vec::new();
        proof {
            assert(self.docs() =~= Seq::<Option<Val>>::empty());
        }
    }

    /// The document at the given position, if that position was ever
    /// assigned and its document has not been deleted.
    pub fn get(&self, pos: usize) -> (r: Option<&Value>)
        ensures
            match r {
                Some(v) => pos < self.docs().len() && self.docs()[pos as int] == Some(v@),
                None => pos >= self.docs().len() || self.docs()[pos as int] is None,
            },
    {
        if pos < self.memdb.len() {
            match &self.memdb[pos] {
                Some(v) => Some(v),
                None => None,
            }
        } else {
            None
        }
    }
}

} // verus!
