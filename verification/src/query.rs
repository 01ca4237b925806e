//! Query descriptors and the matching engine.
//!
//! A query descriptor is itself a document value. An object whose `"all"`
//! key holds `true` is the "match all" sentinel; any other object is an
//! equality predicate over top-level fields; anything else is malformed.
//! An empty field mapping deliberately matches nothing.

use crate::value::{
    deep_eq, first_at, has_key, key_occurs_before, lemma_obj_model, lemma_obj_model_push, lookup,
    lookup_or_null, obj_get, obj_model, Val, Value,
};
use vstd::prelude::*;

verus! {

/// The entries of an object value; the empty sequence for any other kind.
pub open spec fn obj_entries(v: Val) -> Seq<(Seq<char>, Val)> {
    match v {
        Val::Obj(entries) => entries,
        _ => Seq::empty(),
    }
}

/// Whether the descriptor is the "match all" sentinel: an object whose
/// `"all"` key (at its first occurrence) holds `true`.
pub open spec fn is_match_all(q: Val) -> bool {
    &&& q is Obj
    &&& lookup(obj_entries(q), "all"@) == Some(Val::Bool(true))
}

/// Whether a document object satisfies one descriptor field: it holds the
/// key, and the stored value is deeply equal to the expected one.
pub open spec fn field_matches(dents: Seq<(Seq<char>, Val)>, key: Seq<char>, expected: Val) -> bool {
    &&& has_key(dents, key)
    &&& deep_eq(lookup_or_null(dents, key), expected)
}

/// Whether a document matches a field descriptor: the document is an
/// object, the descriptor names at least one field, and every descriptor
/// field (at its first occurrence) is satisfied. An empty descriptor
/// matches no document.
pub open spec fn fields_match(fields: Seq<(Seq<char>, Val)>, d: Val) -> bool {
    &&& fields.len() > 0
    &&& d is Obj
    &&& forall|i: int|
        #![trigger fields[i]]
        first_at(fields, i) ==> field_matches(obj_entries(d), fields[i].0, fields[i].1)
}

/// Whether an object descriptor selects a document: the sentinel selects
/// every document, any other object selects per `fields_match`.
pub open spec fn selects(q: Val, d: Val) -> bool
    recommends
        q is Obj,
{
    if is_match_all(q) {
        true
    } else {
        fields_match(obj_entries(q), d)
    }
}

/// The stored documents that the descriptor selects, in storage order.
pub open spec fn matching(docs: Seq<Option<Val>>, q: Val) -> Seq<Val>
    decreases docs.len(),
{
    if docs.len() == 0 {
        Seq::empty()
    } else {
        matching(docs.drop_last(), q) + (match docs.last() {
            Some(d) => if selects(q, d) {
                seq![d]
            } else {
                Seq::empty()
            },
            None => Seq::empty(),
        })
    }
}

/// Every stored document, in storage order.
pub open spec fn present(docs: Seq<Option<Val>>) -> Seq<Val>
    decreases docs.len(),
{
    if docs.len() == 0 {
        Seq::empty()
    } else {
        present(docs.drop_last()) + (match docs.last() {
            Some(d) => seq![d],
            None => Seq::empty(),
        })
    }
}

/// How many stored documents the descriptor selects.
pub open spec fn selected_count(docs: Seq<Option<Val>>, q: Val) -> nat
    decreases docs.len(),
{
    if docs.len() == 0 {
        0
    } else {
        selected_count(docs.drop_last(), q) + (match docs.last() {
            Some(d) => if selects(q, d) {
                1nat
            } else {
                0nat
            },
            None => 0nat,
        })
    }
}

/// The slots after removing every selected document: selected slots are
/// emptied, every other slot keeps its place.
pub open spec fn after_delete(docs: Seq<Option<Val>>, q: Val) -> Seq<Option<Val>> {
    Seq::new(
        docs.len(),
        |i: int|
            match docs[i] {
                Some(d) => if selects(q, d) {
                    None
                } else {
                    Some(d)
                },
                None => None,
            },
    )
}

/// A document object's entries after replacing the value of every key
/// that the field mapping names; entries with unnamed keys are untouched.
pub open spec fn apply_fields(
    dents: Seq<(Seq<char>, Val)>,
    fields: Seq<(Seq<char>, Val)>,
) -> Seq<(Seq<char>, Val)> {
    Seq::new(
        dents.len(),
        |i: int|
            if has_key(fields, dents[i].0) {
                (dents[i].0, lookup_or_null(fields, dents[i].0))
            } else {
                dents[i]
            },
    )
}

/// The field entries whose keys the document does not hold, first
/// occurrences only, in field order: these are appended on update.
pub open spec fn missing_fields(
    fields: Seq<(Seq<char>, Val)>,
    dents: Seq<(Seq<char>, Val)>,
) -> Seq<(Seq<char>, Val)>
    decreases fields.len(),
{
    if fields.len() == 0 {
        Seq::empty()
    } else {
        let earlier = missing_fields(fields.drop_last(), dents);
        let last = fields.last();
        if has_key(dents, last.0) || has_key(fields.drop_last(), last.0) {
            earlier
        } else {
            earlier.push(last)
        }
    }
}

/// A document after an update: named top-level keys are replaced, absent
/// named keys are appended, and a non-object document is unchanged.
pub open spec fn updated_doc(d: Val, fields: Seq<(Seq<char>, Val)>) -> Val {
    match d {
        Val::Obj(dents) => Val::Obj(apply_fields(dents, fields) + missing_fields(fields, dents)),
        _ => d,
    }
}

/// The slots after updating every selected document.
pub open spec fn after_update(
    docs: Seq<Option<Val>>,
    q: Val,
    fields: Seq<(Seq<char>, Val)>,
) -> Seq<Option<Val>> {
    Seq::new(
        docs.len(),
        |i: int|
            match docs[i] {
                Some(d) => Some(
                    if selects(q, d) {
                        updated_doc(d, fields)
                    } else {
                        d
                    },
                ),
                None => None,
            },
    )
}

/// A match-all descriptor selects exactly the stored documents.
pub proof fn lemma_match_all(docs: Seq<Option<Val>>, q: Val)
    requires
        is_match_all(q),
    ensures
        matching(docs, q) == present(docs),
    decreases docs.len(),
{
    if docs.len() > 0 {
        lemma_match_all(docs.drop_last(), q);
    }
}

/// An empty field descriptor selects no document.
pub proof fn lemma_empty_fields(docs: Seq<Option<Val>>, q: Val)
    requires
        q is Obj,
        obj_entries(q).len() == 0,
    ensures
        matching(docs, q) == Seq::<Val>::empty(),
    decreases docs.len(),
{
    assert(lookup(obj_entries(q), "all"@) is None);
    if docs.len() > 0 {
        lemma_empty_fields(docs.drop_last(), q);
        assert(matching(docs, q) =~= Seq::<Val>::empty());
    }
}

/// Whether the descriptor is the "match all" sentinel.
pub fn query_is_match_all(q: &Value) -> (r: bool)
    ensures
        r == is_match_all(q@),
{
    match q {
        Value::Obj(entries) => {
            proof {
                lemma_obj_model(entries@);
            }
            let key: String = "all".to_owned();
            match obj_get(entries, &key) {
                Some(v) => match v {
                    Value::Bool(b) => {
                        proof {
                            assert(v@ == Val::Bool(*b));
                        }
                        *b
                    },
                    _ => false,
                },
                None => false,
            }
        },
        _ => false,
    }
}

/// Whether the field descriptor `fields` matches the document, per
/// `fields_match`.
#[verifier::loop_isolation(false)]
pub fn matches_fields(fields: &Vec<(String, Value)>, doc: &Value) -> (r: bool)
    ensures
        r == fields_match(obj_model(fields@), doc@),
{
    let ghost fm = obj_model(fields@);
    proof {
        lemma_obj_model(fields@);
    }
    if fields.len() == 0 {
        return false;
    }
    match doc {
        Value::Obj(dents) => {
            let ghost dm = obj_model(dents@);
            proof {
                lemma_obj_model(dents@);
                assert(doc@ == Val::Obj(dm));
            }
            let mut i: usize = 0;
            while i < fields.len()
                invariant
                    i <= fields.len(),
                    forall|t: int|
                        #![trigger fm[t]]
                        0 <= t < i && first_at(fm, t) ==> field_matches(dm, fm[t].0, fm[t].1),
                decreases fields.len() - i,
            {
                proof {
                    lemma_obj_model(fields@);
                    lemma_obj_model(dents@);
                }
                if !key_occurs_before(fields, i) {
                    match obj_get(dents, &fields[i].0) {
                        None => {
                            proof {
                                assert(first_at(fm, i as int));
                                assert(!field_matches(dm, fm[i as int].0, fm[i as int].1));
                            }
                            return false;
                        },
                        Some(v) => {
                            if !v.deep_equals(&fields[i].1) {
                                proof {
                                    assert(first_at(fm, i as int));
                                    assert(lookup_or_null(dm, fm[i as int].0) == v@);
                                    assert(!field_matches(dm, fm[i as int].0, fm[i as int].1));
                                }
                                return false;
                            }
                        },
                    }
                }
                i += 1;
            }
            true
        },
        _ => false,
    }
}

/// Whether an object descriptor selects the document, per `selects`.
pub fn query_selects(qents: &Vec<(String, Value)>, match_all: bool, doc: &Value) -> (r: bool)
    requires
        match_all == is_match_all(Val::Obj(obj_model(qents@))),
    ensures
        r == selects(Val::Obj(obj_model(qents@)), doc@),
{
    if match_all {
        true
    } else {
        matches_fields(qents, doc)
    }
}

/// The document after replacing and appending the given top-level fields,
/// per `updated_doc`.
#[verifier::loop_isolation(false)]
pub fn apply_update(doc: &Value, fields: &Vec<(String, Value)>) -> (r: Value)
    ensures
        r@ == updated_doc(doc@, obj_model(fields@)),
{
    let ghost fm = obj_model(fields@);
    match doc {
        Value::Obj(dents) => {
            let ghost dm = obj_model(dents@);
            let ghost af = apply_fields(dm, fm);
            let mut out: Vec<(String, Value)> = Vec::new();
            let mut i: usize = 0;
            while i < dents.len()
                invariant
                    i <= dents.len(),
                    out@.len() == i,
                    obj_model(out@) == af.take(i as int),
                decreases dents.len() - i,
            {
                proof {
                    lemma_obj_model(dents@);
                    lemma_obj_model(fields@);
                }
                let ghost pre = out@;
                let e = &dents[i];
                match obj_get(fields, &e.0) {
                    Some(v) => {
                        out.push((e.0.clone(), v.clone()));
                    },
                    None => {
                        out.push((e.0.clone(), e.1.clone()));
                    },
                }
                proof {
                    lemma_obj_model_push(pre, out@[i as int]);
                    assert(obj_model(out@) == obj_model(pre).push(
                        (out@[i as int].0@, out@[i as int].1@),
                    ));
                    assert((out@[i as int].0@, out@[i as int].1@) == af[i as int]);
                    assert(af.take(i + 1) =~= af.take(i as int).push(af[i as int]));
                }
                i += 1;
            }
            proof {
                lemma_obj_model(dents@);
                assert(af.take(dents@.len() as int) =~= af);
            }
            let mut j: usize = 0;
            while j < fields.len()
                invariant
                    j <= fields.len(),
                    obj_model(out@) == af + missing_fields(fm.take(j as int), dm),
                decreases fields.len() - j,
            {
                proof {
                    lemma_obj_model(fields@);
                    lemma_obj_model(dents@);
                    assert(fm.take(j + 1).drop_last() =~= fm.take(j as int));
                    assert(fm.take(j + 1).last() == fm[j as int]);
                }
                let in_doc = obj_get(dents, &fields[j].0).is_some();
                let dup = key_occurs_before(fields, j);
                proof {
                    if dup {
                        let t = choose|t: int| 0 <= t < j && fm[t].0 == fm[j as int].0;
                        assert(fm.take(j as int)[t] == fm[t]);
                        assert(has_key(fm.take(j as int), fm[j as int].0));
                    } else {
                        assert(forall|t: int|
                            0 <= t < j ==> (#[trigger] fm.take(j as int)[t]).0 != fm[j as int].0);
                        assert(!has_key(fm.take(j as int), fm[j as int].0));
                    }
                }
                if !in_doc && !dup {
                    let ghost pre = out@;
                    out.push((fields[j].0.clone(), fields[j].1.clone()));
                    proof {
                        lemma_obj_model_push(pre, out@[pre.len() as int]);
                        assert((out@[pre.len() as int].0@, out@[pre.len() as int].1@) == fm[j as int]);
                        assert(missing_fields(fm.take(j + 1), dm) == missing_fields(
                            fm.take(j as int),
                            dm,
                        ).push(fm[j as int]));
                        assert(af + missing_fields(fm.take(j as int), dm).push(fm[j as int]) =~= (af
                            + missing_fields(fm.take(j as int), dm)).push(fm[j as int]));
                    }
                }
                j += 1;
            }
            proof {
                lemma_obj_model(fields@);
                assert(fm.take(fields@.len() as int) =~= fm);
                assert(doc@ == Val::Obj(dm));
            }
            Value::Obj(out)
        },
        _ => doc.clone(),
    }
}

} // verus!
