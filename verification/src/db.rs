//! The collection facade: a table name bound to a storage backend.

use crate::error::ZenoError;
use crate::query::{
    after_delete, after_update, is_match_all, lemma_match_all, matching, obj_entries, present,
    selected_count,
};
use crate::storage::{lemma_memory_always_succeeds, MemoryStorage, Storage};
use crate::value::{arr_model, lemma_obj_model, obj_model, Val, Value};
use vstd::prelude::*;

verus! {

/// Configuration for a collection: the table name. The name is
/// configuration only; it does not partition storage.
pub struct ZenoOptions {
    pub table: String,
}

impl Default for ZenoOptions {
    /// The default configuration names the table `_default`.
    fn default() -> (r: Self)
        ensures
            r.table@ == "_default"@,
    {
        ZenoOptions { table: "_default".to_owned() }
    }
}

/// The collection facade: binds a table name to a fresh in-memory backend
/// and routes every operation to it.
pub struct Zeno {
    options: ZenoOptions,
    storage: MemoryStorage,
}

impl Zeno {
    /// The configured table name.
    pub closed spec fn table(&self) -> Seq<char> {
        self.options.table@
    }

    /// The backend's slots: one per assigned position, `None` once the
    /// document there was deleted.
    pub closed spec fn docs(&self) -> Seq<Option<Val>> {
        self.storage.docs()
    }

    /// A fresh collection over an empty backend.
    pub fn new(options: ZenoOptions) -> (z: Zeno)
        ensures
            z.table() == options.table@,
            z.docs() == Seq::<Option<Val>>::empty(),
    {
        Zeno { options, storage: MemoryStorage::default() }
    }

    /// The configured table name.
    pub fn table_name(&self) -> (r: &String)
        ensures
            r@ == self.table(),
    {
        &self.options.table
    }

    /// Append a document. The returned position is the document's
    /// permanent identifier: the number of slots ever assigned before it.
    pub fn insert(&mut self, obj: Value) -> (r: Result<usize, ZenoError>)
        ensures
            r matches Ok(pos) && pos == old(self).docs().len(),
            final(self).docs() == old(self).docs().push(Some(obj@)),
            final(self).table() == old(self).table(),
    {
        proof {
            lemma_memory_always_succeeds(&self.storage);
        }
        self.storage.write(obj)
    }

    /// The documents the descriptor selects, in insertion order. Fails
    /// with a query error exactly when the descriptor is not an object.
    pub fn find(&self, query: &Value) -> (r: Result<Vec<Value>, ZenoError>)
        ensures
            match r {
                Ok(out) => {
                    &&& query@ is Obj
                    &&& arr_model(out@) == matching(self.docs(), query@)
                },
                Err(e) => {
                    &&& e is Query
                    &&& !(query@ is Obj)
                },
            },
    {
        proof {
            lemma_memory_always_succeeds(&self.storage);
        }
        self.storage.read(query)
    }

    /// Every stored document, in insertion order.
    pub fn all(&self) -> (r: Result<Vec<Value>, ZenoError>)
        ensures
            r matches Ok(out) && arr_model(out@) == present(self.docs()),
    {
        let mut entries: Vec<(String, Value)> = Vec::new();
        entries.push(("all".to_owned(), Value::Bool(true)));
        proof {
            lemma_obj_model(entries@);
            assert(obj_model(entries@)[0] == ("all"@, Val::Bool(true)));
            assert(is_match_all(Val::Obj(obj_model(entries@))));
        }
        let q = Value::Obj(entries);
        proof {
            lemma_memory_always_succeeds(&self.storage);
            lemma_match_all(self.docs(), q@);
        }
        self.storage.read(&q)
    }

    /// Remove every document the descriptor selects, returning how many
    /// were removed. Surviving documents keep their positions; emptied
    /// positions are never reused.
    pub fn delete(&mut self, query: &Value) -> (r: Result<usize, ZenoError>)
        ensures
            final(self).table() == old(self).table(),
            match r {
                Ok(n) => {
                    &&& query@ is Obj
                    &&& final(self).docs() == after_delete(old(self).docs(), query@)
                    &&& n == selected_count(old(self).docs(), query@)
                },
                Err(e) => {
                    &&& e is Query
                    &&& !(query@ is Obj)
                    &&& final(self).docs() == old(self).docs()
                },
            },
    {
        self.storage.delete(query)
    }

    /// Replace the named top-level keys of every document the descriptor
    /// selects with the given field values, leaving unnamed keys
    /// untouched; named keys the document lacks are appended.
    pub fn update(&mut self, query: &Value, fields: &Value) -> (r: Result<(), ZenoError>)
        ensures
            final(self).table() == old(self).table(),
            match r {
                Ok(_) => {
                    &&& query@ is Obj
                    &&& fields@ is Obj
                    &&& final(self).docs() == after_update(
                        old(self).docs(),
                        query@,
                        obj_entries(fields@),
                    )
                },
                Err(e) => {
                    &&& e is Query
                    &&& !(query@ is Obj && fields@ is Obj)
                    &&& final(self).docs() == old(self).docs()
                },
            },
    {
        self.storage.update(query, fields)
    }

    /// Remove all documents and reset the backend to empty: the next
    /// insert is assigned position zero again.
    pub fn truncate(&mut self)
        ensures
            final(self).docs() == Seq::<Option<Val>>::empty(),
            final(self).table() == old(self).table(),
    {
        self.storage.truncate()
    }

    /// The document at the given position, if that position was ever
    /// assigned and its document has not been deleted.
    pub fn get(&self, pos: usize) -> (r: Option<&Value>)
        ensures
            match r {
                Some(v) => pos < self.docs().len() && self.docs()[pos as int] == Some(v@),
                None => pos >= self.docs().len() || self.docs()[pos as int] is None,
            },
    {
        self.storage.get(pos)
    }
}

} // verus!
