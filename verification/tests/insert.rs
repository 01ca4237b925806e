use zeno::db::{Zeno, ZenoOptions};
use zeno::value::Value;

fn s(x: &str) -> String {
    x.to_string()
}

fn mario() -> Value {
    Value::Obj(vec![(s("name"), Value::Str(s("mario"))), (s("age"), Value::Int(28))])
}

#[test]
fn test_insert() {
    let options = ZenoOptions::default();
    let mut db = Zeno::new(options);
    let id = db.insert(mario()).unwrap();
    assert_eq!(id, 0);
}

#[test]
fn test_two_insert() {
    let options = ZenoOptions::default();
    let mut db = Zeno::new(options);
    let idone = db.insert(mario()).unwrap();
    if idone != 0 {
        panic!("is not 0");
    }

    let idtwo = db.insert(mario()).unwrap();
    if idtwo != 1 {
        panic!("is not 1");
    }
}

#[test]
fn test_sequential_identity() {
    let mut db = Zeno::new(ZenoOptions::default());
    let docs = vec![Value::Int(10), Value::Str(s("two")), Value::Null];
    for (k, d) in docs.iter().enumerate() {
        let id = db.insert(d.clone()).unwrap();
        assert_eq!(id, k);
    }
    assert_eq!(db.all().unwrap(), docs);
}

#[test]
fn test_truncate_resets_identity() {
    let mut db = Zeno::new(ZenoOptions::default());
    assert_eq!(db.insert(mario()).unwrap(), 0);
    assert_eq!(db.insert(mario()).unwrap(), 1);
    db.truncate();
    assert_eq!(db.all().unwrap(), Vec::<Value>::new());
    assert_eq!(db.insert(mario()).unwrap(), 0);
}

#[test]
fn test_default_table_name() {
    let db = Zeno::new(ZenoOptions::default());
    assert_eq!(db.table_name(), "_default");
}

#[test]
fn test_custom_table_name() {
    let db = Zeno::new(ZenoOptions { table: s("people") });
    assert_eq!(db.table_name(), "people");
}
