//! The document value type and its mathematical model.
//!
//! A `Value` is an arbitrarily nested tree of scalars (null, boolean,
//! integer, string), arrays, and ordered string-keyed objects. Its model
//! `Val` replaces strings by character sequences and vectors by sequences,
//! so that contracts can be stated in purely mathematical terms.

use vstd::prelude::*;

verus! {

/// A semi-structured document value: the unit of storage.
#[derive(Debug, PartialEq, Eq)]
pub enum Value {
    Null,
    Bool(bool),
    Int(i64),
    Str(String),
    Arr(Vec<Value>),
    Obj(Vec<(String, Value)>),
}

/// The mathematical model of a `Value`.
pub enum Val {
    Null,
    Bool(bool),
    Int(int),
    Str(Seq<char>),
    Arr(Seq<Val>),
    Obj(Seq<(Seq<char>, Val)>),
}

/// Models of the elements of an array, in order.
pub open spec fn arr_model(items: Seq<Value>) -> Seq<Val>
    decreases items,
{
    if items.len() == 0 {
        Seq::empty()
    } else {
        seq![items[0]@] + arr_model(items.drop_first())
    }
}

/// Models of the entries of an object, in order.
pub open spec fn obj_model(entries: Seq<(String, Value)>) -> Seq<(Seq<char>, Val)>
    decreases entries,
{
    if entries.len() == 0 {
        Seq::empty()
    } else {
        seq![(entries[0].0@, entries[0].1@)] + obj_model(entries.drop_first())
    }
}

impl View for Value {
    type V = Val;

    open spec fn view(&self) -> Val
        decreases self,
    {
        match self {
            Value::Null => Val::Null,
            Value::Bool(b) => Val::Bool(*b),
            Value::Int(n) => Val::Int(*n as int),
            Value::Str(s) => Val::Str(s@),
            Value::Arr(items) => Val::Arr(arr_model(items@)),
            Value::Obj(entries) => Val::Obj(obj_model(entries@)),
        }
    }
}

/// The model of an array has one element per item: the item's model.
pub proof fn lemma_arr_model(items: Seq<Value>)
    ensures
        arr_model(items).len() == items.len(),
        forall|i: int| 0 <= i < items.len() ==> arr_model(items)[i] == items[i]@,
    decreases items.len(),
{
    if items.len() > 0 {
        lemma_arr_model(items.drop_first());
        assert forall|i: int| 0 <= i < items.len() implies arr_model(items)[i] == items[i]@ by {
            if i > 0 {
                assert(arr_model(items) == seq![items[0]@] + arr_model(items.drop_first()));
                assert(arr_model(items)[i] == arr_model(items.drop_first())[i - 1]);
                assert(items.drop_first()[i - 1] == items[i]);
            }
        }
    }
}

/// The model of an object has one entry per object entry: the key's
/// characters paired with the value's model.
pub proof fn lemma_obj_model(entries: Seq<(String, Value)>)
    ensures
        obj_model(entries).len() == entries.len(),
        forall|i: int| 0 <= i < entries.len()
            ==> obj_model(entries)[i] == (entries[i].0@, entries[i].1@),
    decreases entries.len(),
{
    if entries.len() > 0 {
        lemma_obj_model(entries.drop_first());
        assert forall|i: int| 0 <= i < entries.len() implies obj_model(entries)[i] == (
            entries[i].0@,
            entries[i].1@,
        ) by {
            if i > 0 {
                assert(obj_model(entries) == seq![(entries[0].0@, entries[0].1@)] + obj_model(
                    entries.drop_first(),
                ));
                assert(obj_model(entries)[i] == obj_model(entries.drop_first())[i - 1]);
                assert(entries.drop_first()[i - 1] == entries[i]);
            }
        }
    }
}

/// Appending an item appends its model.
pub proof fn lemma_arr_model_push(items: Seq<Value>, v: Value)
    ensures
        arr_model(items.push(v)) == arr_model(items).push(v@),
{
    lemma_arr_model(items.push(v));
    lemma_arr_model(items);
    assert(arr_model(items.push(v)) =~= arr_model(items).push(v@));
}

/// Appending an entry appends its model.
pub proof fn lemma_obj_model_push(entries: Seq<(String, Value)>, e: (String, Value))
    ensures
        obj_model(entries.push(e)) == obj_model(entries).push((e.0@, e.1@)),
{
    lemma_obj_model(entries.push(e));
    lemma_obj_model(entries);
    assert(obj_model(entries.push(e)) =~= obj_model(entries).push((e.0@, e.1@)));
}

impl Clone for Value {
    /// A structural copy with the same model.
    #[verifier::loop_isolation(false)]
    fn clone(&self) -> (r: Self)
        ensures
            r@ == self@,
        decreases *self,
    {
        match self {
            Value::Null => Value::Null,
            Value::Bool(b) => Value::Bool(*b),
            Value::Int(n) => Value::Int(*n),
            Value::Str(s) => Value::Str(s.clone()),
            Value::Arr(items) => {
                let mut out: Vec<Value> = Vec::new();
                let mut i: usize = 0;
                while i < items.len()
                    invariant
                        i <= items.len(),
                        out@.len() == i,
                        forall|t: int| 0 <= t < i ==> (#[trigger] out@[t])@ == items@[t]@,
                    decreases items.len() - i,
                {
                    proof {
                        assert(decreases_to!(*self => *items));
                        assert(decreases_to!(*items => items@[i as int]));
                    }
                    out.push(items[i].clone());
                    i += 1;
                }
                proof {
                    lemma_arr_model(items@);
                    lemma_arr_model(out@);
                    assert(arr_model(out@) =~= arr_model(items@));
                }
                Value::Arr(out)
            },
            Value::Obj(entries) => {
                let mut out: Vec<(String, Value)> = Vec::new();
                let mut i: usize = 0;
                while i < entries.len()
                    invariant
                        i <= entries.len(),
                        out@.len() == i,
                        forall|t: int| 0 <= t < i
                            ==> (#[trigger] out@[t]).0@ == entries@[t].0@ && out@[t].1@
                            == entries@[t].1@,
                    decreases entries.len() - i,
                {
                    proof {
                        assert(decreases_to!(*self => *entries));
                        assert(decreases_to!(*entries => entries@[i as int]));
                    }
                    let e = &entries[i];
                    out.push((e.0.clone(), e.1.clone()));
                    i += 1;
                }
                proof {
                    lemma_obj_model(entries@);
                    lemma_obj_model(out@);
                    assert(obj_model(out@) =~= obj_model(entries@));
                }
                Value::Obj(out)
            },
        }
    }
}

/// Whether an object holds an entry with the given key.
pub open spec fn has_key(entries: Seq<(Seq<char>, Val)>, key: Seq<char>) -> bool {
    exists|i: int| 0 <= i < entries.len() && entries[i].0 == key
}

/// The value of the first entry with the given key, if any: an object is
/// read as a mapping, so only the first occurrence of a key is visible.
pub open spec fn lookup(entries: Seq<(Seq<char>, Val)>, key: Seq<char>) -> Option<Val>
    decreases entries.len(),
{
    if entries.len() == 0 {
        None
    } else if entries[0].0 == key {
        Some(entries[0].1)
    } else {
        lookup(entries.drop_first(), key)
    }
}

/// `lookup`, defaulting to null where the key is absent.
pub open spec fn lookup_or_null(entries: Seq<(Seq<char>, Val)>, key: Seq<char>) -> Val {
    match lookup(entries, key) {
        Some(v) => v,
        None => Val::Null,
    }
}

/// Whether position `i` holds the first occurrence of its key.
pub open spec fn first_at(entries: Seq<(Seq<char>, Val)>, i: int) -> bool {
    &&& 0 <= i < entries.len()
    &&& forall|j: int| 0 <= j < i ==> entries[j].0 != entries[i].0
}

/// Deep structural equality: same scalar kind and content, element-wise
/// equal arrays, and objects with the same keys mapping (at their first
/// occurrences) to deeply equal values, independent of entry order.
pub open spec fn deep_eq(a: Val, b: Val) -> bool
    decreases a,
{
    match (a, b) {
        (Val::Null, Val::Null) => true,
        (Val::Bool(x), Val::Bool(y)) => x == y,
        (Val::Int(x), Val::Int(y)) => x == y,
        (Val::Str(x), Val::Str(y)) => x == y,
        (Val::Arr(x), Val::Arr(y)) => {
            &&& x.len() == y.len()
            &&& forall|i: int| #![trigger x[i]] 0 <= i < x.len() ==> deep_eq(x[i], y[i])
        },
        (Val::Obj(x), Val::Obj(y)) => {
            &&& forall|i: int| #![trigger x[i]] 0 <= i < x.len() ==> has_key(y, x[i].0)
            &&& forall|j: int| #![trigger y[j]] 0 <= j < y.len() ==> has_key(x, y[j].0)
            &&& forall|i: int|
                #![trigger x[i]]
                first_at(x, i) ==> deep_eq(x[i].1, lookup_or_null(y, x[i].0))
        },
        _ => false,
    }
}

/// Every key occurrence has a first occurrence: the returned position
/// holds the same key, with no occurrence of it earlier.
pub proof fn lemma_first_exists(entries: Seq<(Seq<char>, Val)>, i: int) -> (i0: int)
    requires
        0 <= i < entries.len(),
    ensures
        first_at(entries, i0),
        entries[i0].0 == entries[i].0,
    decreases i,
{
    if exists|j: int| 0 <= j < i && entries[j].0 == entries[i].0 {
        let j = choose|j: int| 0 <= j < i && entries[j].0 == entries[i].0;
        lemma_first_exists(entries, j)
    } else {
        assert(first_at(entries, i));
        i
    }
}

/// Deep equality is reflexive: every value is deeply equal to itself.
pub proof fn lemma_deep_eq_reflexive(a: Val)
    ensures
        deep_eq(a, a),
    decreases a,
{
    match a {
        Val::Arr(x) => {
            assert forall|i: int| 0 <= i < x.len() implies deep_eq(#[trigger] x[i], x[i]) by {
                lemma_deep_eq_reflexive(x[i]);
            }
        },
        Val::Obj(x) => {
            assert forall|i: int| #![trigger x[i]] first_at(x, i) implies deep_eq(
                x[i].1,
                lookup_or_null(x, x[i].0),
            ) by {
                lemma_lookup_first(x, x[i].0, i);
                lemma_deep_eq_reflexive(x[i].1);
            }
        },
        _ => {},
    }
}

/// Deep equality is symmetric, so object entry order is insignificant on
/// either side of a comparison.
#[verifier::spinoff_prover]
#[verifier::rlimit(60)]
pub proof fn lemma_deep_eq_symmetric(a: Val, b: Val)
    ensures
        deep_eq(a, b) ==> deep_eq(b, a),
    decreases a,
{
    if deep_eq(a, b) {
        match (a, b) {
            (Val::Arr(x), Val::Arr(y)) => {
                assert forall|i: int| 0 <= i < y.len() implies deep_eq(#[trigger] y[i], x[i]) by {
                    lemma_deep_eq_symmetric(x[i], y[i]);
                }
                assert(deep_eq(b, a));
            },
            (Val::Obj(x), Val::Obj(y)) => {
                assert forall|j: int| #![trigger y[j]] first_at(y, j) implies deep_eq(
                    y[j].1,
                    lookup_or_null(x, y[j].0),
                ) by {
                    let k = y[j].0;
                    let jw = choose|jw: int| 0 <= jw < x.len() && x[jw].0 == k;
                    let i = lemma_first_exists(x, jw);
                    assert(first_at(x, i) && x[i].0 == k);
                    lemma_lookup_first(y, k, j);
                    assert(lookup_or_null(y, k) == y[j].1);
                    lemma_lookup_first(x, k, i);
                    assert(lookup_or_null(x, k) == x[i].1);
                    assert(deep_eq(x[i].1, y[j].1));
                    lemma_deep_eq_symmetric(x[i].1, y[j].1);
                }
                assert(deep_eq(b, a));
            },
            _ => {},
        }
    }
}

/// A key is found by `lookup` exactly when some entry holds it.
pub proof fn lemma_lookup_has_key(entries: Seq<(Seq<char>, Val)>, key: Seq<char>)
    ensures
        (lookup(entries, key) is Some) == has_key(entries, key),
    decreases entries.len(),
{
    if entries.len() > 0 && entries[0].0 != key {
        lemma_lookup_has_key(entries.drop_first(), key);
        if has_key(entries.drop_first(), key) {
            let i = choose|i: int|
                0 <= i < entries.drop_first().len() && entries.drop_first()[i].0 == key;
            assert(entries[i + 1].0 == key);
        }
        if has_key(entries, key) {
            let i = choose|i: int| 0 <= i < entries.len() && entries[i].0 == key;
            assert(i > 0 && entries.drop_first()[i - 1].0 == key);
        }
    }
}

/// `lookup` returns the entry at the first position holding the key.
pub proof fn lemma_lookup_first(entries: Seq<(Seq<char>, Val)>, key: Seq<char>, i: int)
    requires
        0 <= i < entries.len(),
        entries[i].0 == key,
        forall|j: int| 0 <= j < i ==> entries[j].0 != key,
    ensures
        lookup(entries, key) == Some(entries[i].1),
    decreases i,
{
    if i > 0 {
        assert(entries.drop_first()[i - 1] == entries[i]);
        assert(forall|j: int| 0 <= j < i - 1 ==> entries.drop_first()[j] == entries[j + 1]);
        lemma_lookup_first(entries.drop_first(), key, i - 1);
    }
}

impl Value {
    /// Deep structural equality of two documents, per `deep_eq` on their
    /// models.
    #[verifier::loop_isolation(false)]
    pub fn deep_equals(&self, other: &Value) -> (r: bool)
        ensures
            r == deep_eq(self@, other@),
        decreases *self,
    {
        match self {
            Value::Null => match other {
                Value::Null => true,
                _ => false,
            },
            Value::Bool(x) => match other {
                Value::Bool(y) => {
                    proof {
                        assert(self@ == Val::Bool(*x));
                        assert(other@ == Val::Bool(*y));
                    }
                    *x == *y
                },
                _ => false,
            },
            Value::Int(x) => match other {
                Value::Int(y) => {
                    proof {
                        assert(self@ == Val::Int(*x as int));
                        assert(other@ == Val::Int(*y as int));
                    }
                    *x == *y
                },
                _ => false,
            },
            Value::Str(x) => match other {
                Value::Str(y) => {
                    proof {
                        assert(self@ == Val::Str(x@));
                        assert(other@ == Val::Str(y@));
                    }
                    *x == *y
                },
                _ => false,
            },
            Value::Arr(xs) => match other {
                Value::Arr(ys) => {
                let ghost xm = arr_model(xs@);
                let ghost ym = arr_model(ys@);
                if xs.len() != ys.len() {
                    proof {
                        lemma_arr_model(xs@);
                        lemma_arr_model(ys@);
                    }
                    return false;
                }
                let mut i: usize = 0;
                while i < xs.len()
                    invariant
                        i <= xs.len(),
                        xs@.len() == ys@.len(),
                        xm == arr_model(xs@),
                        ym == arr_model(ys@),
                        forall|t: int| 0 <= t < i ==> deep_eq(#[trigger] xm[t], ym[t]),
                    decreases xs.len() - i,
                {
                    proof {
                        lemma_arr_model(xs@);
                        lemma_arr_model(ys@);
                        assert(self@ == Val::Arr(xm));
                        assert(decreases_to!(*self => *xs));
                        assert(decreases_to!(*xs => xs@[i as int]));
                    }
                    if !xs[i].deep_equals(&ys[i]) {
                        proof {
                            assert(!deep_eq(xm[i as int], ym[i as int]));
                        }
                        return false;
                    }
                    i += 1;
                }
                proof {
                    lemma_arr_model(xs@);
                    lemma_arr_model(ys@);
                    assert(self@ == Val::Arr(xm));
                    assert(other@ == Val::Arr(ym));
                }
                true
                },
                _ => false,
            },
            Value::Obj(xs) => match other {
                Value::Obj(ys) => {
                let ghost xm = obj_model(xs@);
                let ghost ym = obj_model(ys@);
                let mut j: usize = 0;
                while j < ys.len()
                    invariant
                        j <= ys.len(),
                        xm == obj_model(xs@),
                        ym == obj_model(ys@),
                        forall|t: int| 0 <= t < j ==> has_key(xm, (#[trigger] ym[t]).0),
                    decreases ys.len() - j,
                {
                    proof {
                        lemma_obj_model(xs@);
                        lemma_obj_model(ys@);
                    }
                    if obj_get(xs, &ys[j].0).is_none() {
                        proof {
                            lemma_lookup_has_key(xm, ym[j as int].0);
                            assert(self@ == Val::Obj(xm));
                            assert(other@ == Val::Obj(ym));
                            assert(!has_key(xm, ym[j as int].0));
                        }
                        return false;
                    }
                    j += 1;
                }
                proof {
                    lemma_obj_model(xs@);
                    lemma_obj_model(ys@);
                }
                let mut i: usize = 0;
                while i < xs.len()
                    invariant
                        i <= xs.len(),
                        xm == obj_model(xs@),
                        ym == obj_model(ys@),
                        forall|t: int| 0 <= t < ym.len() ==> has_key(xm, (#[trigger] ym[t]).0),
                        forall|t: int| 0 <= t < i ==> has_key(ym, (#[trigger] xm[t]).0),
                        forall|t: int|
                            #![trigger xm[t]]
                            0 <= t < i && first_at(xm, t) ==> deep_eq(
                                xm[t].1,
                                lookup_or_null(ym, xm[t].0),
                            ),
                    decreases xs.len() - i,
                {
                    proof {
                        lemma_obj_model(xs@);
                        lemma_obj_model(ys@);
                    }
                    match obj_get(ys, &xs[i].0) {
                        None => {
                            proof {
                                lemma_lookup_has_key(ym, xm[i as int].0);
                                assert(self@ == Val::Obj(xm));
                                assert(other@ == Val::Obj(ym));
                                assert(!has_key(ym, xm[i as int].0));
                            }
                            return false;
                        },
                        Some(v) => {
                            if !key_occurs_before(xs, i) {
                                proof {
                                    assert(decreases_to!(*self => *xs));
                                    assert(decreases_to!(*xs => xs@[i as int]));
                                }
                                if !xs[i].1.deep_equals(v) {
                                    proof {
                                        assert(self@ == Val::Obj(xm));
                                        assert(other@ == Val::Obj(ym));
                                        assert(first_at(xm, i as int));
                                        assert(lookup_or_null(ym, xm[i as int].0) == v@);
                                        assert(!deep_eq(xm[i as int].1, lookup_or_null(
                                            ym,
                                            xm[i as int].0,
                                        )));
                                    }
                                    return false;
                                }
                            }
                        },
                    }
                    i += 1;
                }
                proof {
                    lemma_obj_model(xs@);
                    lemma_obj_model(ys@);
                    assert(self@ == Val::Obj(xm));
                    assert(other@ == Val::Obj(ym));
                }
                true
                },
                _ => false,
            },
        }
    }
}

/// The first entry of the object with the given key, if any.
#[verifier::loop_isolation(false)]
pub fn obj_get<'a>(entries: &'a Vec<(String, Value)>, key: &String) -> (r: Option<&'a Value>)
    ensures
        match r {
            Some(v) => {
                &&& lookup(obj_model(entries@), key@) == Some(v@)
                &&& has_key(obj_model(entries@), key@)
            },
            None => {
                &&& lookup(obj_model(entries@), key@) is None
                &&& !has_key(obj_model(entries@), key@)
            },
        },
{
    let ghost em = obj_model(entries@);
    let mut i: usize = 0;
    while i < entries.len()
        invariant
            i <= entries.len(),
            em == obj_model(entries@),
            forall|j: int| 0 <= j < i ==> (#[trigger] em[j]).0 != key@,
        decreases entries.len() - i,
    {
        proof {
            lemma_obj_model(entries@);
        }
        if entries[i].0 == *key {
            proof {
                lemma_lookup_first(em, key@, i as int);
            }
            return Some(&entries[i].1);
        }
        i += 1;
    }
    proof {
        lemma_obj_model(entries@);
        lemma_lookup_has_key(em, key@);
    }
    None
}

/// Whether the key at position `i` already occurs at an earlier position,
/// so that `i` does not hold its first occurrence.
#[verifier::loop_isolation(false)]
pub fn key_occurs_before(entries: &Vec<(String, Value)>, i: usize) -> (r: bool)
    requires
        i < entries.len(),
    ensures
        r == !first_at(obj_model(entries@), i as int),
{
    let ghost em = obj_model(entries@);
    let mut j: usize = 0;
    while j < i
        invariant
            j <= i < entries.len(),
            em == obj_model(entries@),
            forall|t: int| 0 <= t < j ==> (#[trigger] em[t]).0 != em[i as int].0,
        decreases i - j,
    {
        proof {
            lemma_obj_model(entries@);
        }
        if entries[j].0 == entries[i].0 {
            proof {
                assert(em[j as int].0 == em[i as int].0);
                assert(!first_at(em, i as int));
            }
            return true;
        }
        j += 1;
    }
    proof {
        lemma_obj_model(entries@);
        assert(first_at(em, i as int));
    }
    false
}

} // verus!
