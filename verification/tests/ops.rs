use zeno::db::{Zeno, ZenoOptions};
use zeno::error::ZenoError;
use zeno::value::Value;

fn s(x: &str) -> String {
    x.to_string()
}

fn obj(pairs: Vec<(&str, Value)>) -> Value {
    Value::Obj(pairs.into_iter().map(|(k, v)| (s(k), v)).collect())
}

fn person(name: &str, age: i64) -> Value {
    obj(vec![("name", Value::Str(s(name))), ("age", Value::Int(age))])
}

#[test]
fn test_delete_preserves_surviving_positions() {
    let mut db = Zeno::new(ZenoOptions::default());
    assert_eq!(db.insert(person("mario", 28)).unwrap(), 0);
    assert_eq!(db.insert(person("luigi", 30)).unwrap(), 1);
    assert_eq!(db.insert(person("peach", 27)).unwrap(), 2);
    let removed = db.delete(&obj(vec![("name", Value::Str(s("luigi")))])).unwrap();
    assert_eq!(removed, 1);
    assert_eq!(db.get(0), Some(&person("mario", 28)));
    assert_eq!(db.get(1), None);
    assert_eq!(db.get(2), Some(&person("peach", 27)));
    assert_eq!(db.all().unwrap(), vec![person("mario", 28), person("peach", 27)]);
}

#[test]
fn test_delete_never_reuses_positions() {
    let mut db = Zeno::new(ZenoOptions::default());
    db.insert(person("mario", 28)).unwrap();
    db.insert(person("luigi", 30)).unwrap();
    let removed = db.delete(&obj(vec![("all", Value::Bool(true))])).unwrap();
    assert_eq!(removed, 2);
    assert_eq!(db.all().unwrap(), Vec::<Value>::new());
    assert_eq!(db.insert(person("peach", 27)).unwrap(), 2);
}

#[test]
fn test_delete_count_and_errors() {
    let mut db = Zeno::new(ZenoOptions::default());
    db.insert(person("mario", 28)).unwrap();
    db.insert(person("mario", 41)).unwrap();
    assert_eq!(db.delete(&Value::Int(1)), Err(ZenoError::Query));
    let removed = db.delete(&obj(vec![("name", Value::Str(s("mario")))])).unwrap();
    assert_eq!(removed, 2);
    let none_left = db.delete(&obj(vec![("name", Value::Str(s("mario")))])).unwrap();
    assert_eq!(none_left, 0);
}

#[test]
fn test_update_replaces_and_appends_fields() {
    let mut db = Zeno::new(ZenoOptions::default());
    db.insert(person("mario", 28)).unwrap();
    db.insert(person("luigi", 30)).unwrap();
    db.update(
        &obj(vec![("name", Value::Str(s("mario")))]),
        &obj(vec![("age", Value::Int(29)), ("city", Value::Str(s("rome")))]),
    )
    .unwrap();
    assert_eq!(
        db.all().unwrap(),
        vec![
            obj(vec![
                ("name", Value::Str(s("mario"))),
                ("age", Value::Int(29)),
                ("city", Value::Str(s("rome"))),
            ]),
            person("luigi", 30),
        ]
    );
}

#[test]
fn test_update_errors() {
    let mut db = Zeno::new(ZenoOptions::default());
    db.insert(person("mario", 28)).unwrap();
    assert_eq!(
        db.update(&Value::Int(1), &obj(vec![("age", Value::Int(29))])),
        Err(ZenoError::Query)
    );
    assert_eq!(
        db.update(&obj(vec![("name", Value::Str(s("mario")))]), &Value::Null),
        Err(ZenoError::Query)
    );
    assert_eq!(db.all().unwrap(), vec![person("mario", 28)]);
}

#[test]
fn test_get_out_of_range() {
    let mut db = Zeno::new(ZenoOptions::default());
    assert_eq!(db.get(0), None);
    db.insert(person("mario", 28)).unwrap();
    assert_eq!(db.get(0), Some(&person("mario", 28)));
    assert_eq!(db.get(1), None);
}
