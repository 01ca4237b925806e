use zeno::db::{Zeno, ZenoOptions};
use zeno::error::ZenoError;
use zeno::value::Value;

fn s(x: &str) -> String {
    x.to_string()
}

fn obj(pairs: Vec<(&str, Value)>) -> Value {
    Value::Obj(pairs.into_iter().map(|(k, v)| (s(k), v)).collect())
}

fn mario() -> Value {
    obj(vec![("name", Value::Str(s("mario"))), ("age", Value::Int(28))])
}

fn luigi() -> Value {
    obj(vec![("name", Value::Str(s("luigi"))), ("age", Value::Int(30))])
}

#[test]
fn test_equality_matching() {
    let mut db = Zeno::new(ZenoOptions::default());
    db.insert(mario()).unwrap();
    let found = db.find(&obj(vec![("name", Value::Str(s("mario")))])).unwrap();
    assert_eq!(found, vec![mario()]);
    let none = db.find(&obj(vec![("name", Value::Str(s("luigi")))])).unwrap();
    assert_eq!(none, Vec::<Value>::new());
}

#[test]
fn test_empty_descriptor_matches_nothing() {
    let mut db = Zeno::new(ZenoOptions::default());
    db.insert(mario()).unwrap();
    db.insert(luigi()).unwrap();
    let found = db.find(&obj(vec![])).unwrap();
    assert_eq!(found, Vec::<Value>::new());
}

#[test]
fn test_deep_equality() {
    let mut db = Zeno::new(ZenoOptions::default());
    let doc = obj(vec![("info", obj(vec![("phone", Value::Int(123))]))]);
    db.insert(doc.clone()).unwrap();
    let hit = db.find(&obj(vec![("info", obj(vec![("phone", Value::Int(123))]))])).unwrap();
    assert_eq!(hit, vec![doc]);
    let miss = db.find(&obj(vec![("info", obj(vec![("phone", Value::Int(124))]))])).unwrap();
    assert_eq!(miss, Vec::<Value>::new());
}

#[test]
fn test_deep_equality_ignores_key_order() {
    let mut db = Zeno::new(ZenoOptions::default());
    let doc = obj(vec![("who", obj(vec![("a", Value::Int(1)), ("b", Value::Int(2))]))]);
    db.insert(doc.clone()).unwrap();
    let hit = db
        .find(&obj(vec![("who", obj(vec![("b", Value::Int(2)), ("a", Value::Int(1))]))]))
        .unwrap();
    assert_eq!(hit, vec![doc]);
}

#[test]
fn test_array_matching_is_ordered() {
    let mut db = Zeno::new(ZenoOptions::default());
    let doc = obj(vec![("tags", Value::Arr(vec![Value::Int(1), Value::Int(2)]))]);
    db.insert(doc.clone()).unwrap();
    let hit = db
        .find(&obj(vec![("tags", Value::Arr(vec![Value::Int(1), Value::Int(2)]))]))
        .unwrap();
    assert_eq!(hit, vec![doc]);
    let miss = db
        .find(&obj(vec![("tags", Value::Arr(vec![Value::Int(2), Value::Int(1)]))]))
        .unwrap();
    assert_eq!(miss, Vec::<Value>::new());
}

#[test]
fn test_match_all_sentinel() {
    let mut db = Zeno::new(ZenoOptions::default());
    db.insert(mario()).unwrap();
    db.insert(luigi()).unwrap();
    let found = db.find(&obj(vec![("all", Value::Bool(true))])).unwrap();
    assert_eq!(found, vec![mario(), luigi()]);
}

#[test]
fn test_all_unaffected_by_query_history() {
    let mut db = Zeno::new(ZenoOptions::default());
    db.insert(mario()).unwrap();
    db.insert(luigi()).unwrap();
    db.find(&obj(vec![("name", Value::Str(s("mario")))])).unwrap();
    db.find(&obj(vec![])).unwrap();
    let _ = db.find(&Value::Int(7));
    assert_eq!(db.all().unwrap(), vec![mario(), luigi()]);
}

#[test]
fn test_multi_field_conjunction() {
    let mut db = Zeno::new(ZenoOptions::default());
    db.insert(mario()).unwrap();
    db.insert(luigi()).unwrap();
    let hit = db
        .find(&obj(vec![("name", Value::Str(s("mario"))), ("age", Value::Int(28))]))
        .unwrap();
    assert_eq!(hit, vec![mario()]);
    let miss = db
        .find(&obj(vec![("name", Value::Str(s("mario"))), ("age", Value::Int(30))]))
        .unwrap();
    assert_eq!(miss, Vec::<Value>::new());
}

#[test]
fn test_non_object_document_never_matches_fields() {
    let mut db = Zeno::new(ZenoOptions::default());
    db.insert(Value::Int(5)).unwrap();
    let found = db.find(&obj(vec![("name", Value::Str(s("mario")))])).unwrap();
    assert_eq!(found, Vec::<Value>::new());
    assert_eq!(db.all().unwrap(), vec![Value::Int(5)]);
}

#[test]
fn test_duplicate_keys_first_occurrence_wins() {
    let mut db = Zeno::new(ZenoOptions::default());
    let doc = obj(vec![("k", Value::Int(1)), ("k", Value::Int(2))]);
    db.insert(doc.clone()).unwrap();
    let hit = db.find(&obj(vec![("k", Value::Int(1))])).unwrap();
    assert_eq!(hit, vec![doc]);
    let miss = db.find(&obj(vec![("k", Value::Int(2))])).unwrap();
    assert_eq!(miss, Vec::<Value>::new());
}

#[test]
fn test_empty_object_document() {
    let mut db = Zeno::new(ZenoOptions::default());
    db.insert(obj(vec![])).unwrap();
    assert_eq!(db.all().unwrap(), vec![obj(vec![])]);
    assert_eq!(db.find(&obj(vec![])).unwrap(), Vec::<Value>::new());
    let found = db.find(&obj(vec![("all", Value::Bool(true))])).unwrap();
    assert_eq!(found, vec![obj(vec![])]);
}

#[test]
fn test_malformed_descriptor_is_query_error() {
    let mut db = Zeno::new(ZenoOptions::default());
    db.insert(mario()).unwrap();
    assert_eq!(db.find(&Value::Int(5)), Err(ZenoError::Query));
    assert_eq!(db.find(&Value::Str(s("all"))), Err(ZenoError::Query));
    assert_eq!(db.find(&Value::Arr(vec![])), Err(ZenoError::Query));
    assert_eq!(db.find(&Value::Null), Err(ZenoError::Query));
}
