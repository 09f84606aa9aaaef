use potatodb::engine::{evaluate, zip_columns};
use potatodb::{Condition, Database, DbError, Record, RowData, Table};

fn row(pairs: &[(&str, &str)]) -> RowData {
    let mut data = RowData::new();
    for (k, v) in pairs {
        data.insert(k.to_string(), v.to_string());
    }
    data
}

fn eq(c: &str, v: &str) -> Condition {
    Condition::Equals(c.to_string(), v.to_string())
}

fn people() -> Table {
    let mut t = Table::new("people".to_string());
    t.insert(10, row(&[("name", "Ann"), ("age", "9")])).unwrap();
    t.insert(20, row(&[("name", "Ben"), ("age", "30")])).unwrap();
    t.insert(30, row(&[("name", "Cy")])).unwrap();
    t
}

fn ids(records: &[Record]) -> Vec<u64> {
    records.iter().map(|r| r.id()).collect()
}

#[test]
fn row_data_is_a_mapping() {
    let mut data = RowData::new();
    assert_eq!(data.len(), 0);
    assert!(!data.insert("a".to_string(), "1".to_string()));
    assert!(!data.insert("b".to_string(), "2".to_string()));
    assert!(data.insert("a".to_string(), "3".to_string()));
    assert_eq!(data.len(), 2);
    assert!(data.contains_key("a"));
    assert!(!data.contains_key("c"));
    assert_eq!(data.get("a").map(|s| s.as_str()), Some("3"));
    assert_eq!(data.get("b").map(|s| s.as_str()), Some("2"));
    assert!(!data.replace_existing("c", "9".to_string()));
    assert!(data.replace_existing("b", "9".to_string()));
    assert_eq!(data.get("b").map(|s| s.as_str()), Some("9"));
    assert_eq!(data.len(), 2);
    let cut = data.project(&vec!["b".to_string(), "z".to_string()]);
    assert_eq!(cut.len(), 1);
    assert_eq!(cut.get("b").map(|s| s.as_str()), Some("9"));
    let copy = data.duplicate();
    assert_eq!(copy.len(), 2);
    assert_eq!(copy.get("a").map(|s| s.as_str()), Some("3"));
    let back = RowData::from_entries(&data.entries()).unwrap();
    assert_eq!(back.len(), 2);
    assert_eq!(back.get("a").map(|s| s.as_str()), Some("3"));
}

#[test]
fn zipping_stops_at_the_shorter_list() {
    let c = vec!["a".to_string(), "b".to_string(), "a".to_string()];
    let v = vec!["1".to_string(), "2".to_string(), "3".to_string(), "4".to_string()];
    let data = zip_columns(&c, &v);
    assert_eq!(data.len(), 2);
    assert_eq!(data.get("a").map(|s| s.as_str()), Some("3"));
    assert_eq!(data.get("b").map(|s| s.as_str()), Some("2"));
    assert_eq!(zip_columns(&c, &Vec::new()).len(), 0);
    assert_eq!(zip_columns(&v, &c).len(), 3);
}

#[test]
fn record_accessors() {
    let mut r = Record::new(4, row(&[("a", "1"), ("b", "2")]));
    assert_eq!(r.id(), 4);
    assert_eq!(r.data().len(), 2);
    assert!(!r.set_existing("c", "x".to_string()));
    assert!(r.set_existing("a", "x".to_string()));
    assert_eq!(r.get("a").map(|s| s.as_str()), Some("x"));
    let p = r.project(&vec!["b".to_string()]);
    assert_eq!(p.id(), 4);
    assert_eq!(p.data().len(), 1);
    r.set_data(RowData::new());
    assert_eq!(r.id(), 4);
    assert_eq!(r.data().len(), 0);
    assert_eq!(r.duplicate().id(), 4);
}

#[test]
fn conditions_against_a_record() {
    let r = Record::new(1, row(&[("age", "9"), ("name", "Ann")]));
    let thirty = Record::new(2, row(&[("age", "30")]));
    let gt = Condition::GreaterThan("age".to_string(), "30".to_string());
    assert!(gt.eval(&r));
    assert!(!gt.eval(&thirty));
    let lt = Condition::LessThan("age".to_string(), "9".to_string());
    assert!(lt.eval(&thirty));
    assert!(!lt.eval(&r));
    assert!(Condition::LessThan("age".to_string(), "90".to_string()).eval(&r));
    assert!(!Condition::GreaterThan("age".to_string(), "90".to_string()).eval(&r));
    assert!(!Condition::GreaterThan("size".to_string(), "".to_string()).eval(&r));
    assert!(!Condition::LessThan("size".to_string(), "zzz".to_string()).eval(&r));
    assert!(eq("name", "Ann").eval(&r));
    assert!(!eq("name", "ann").eval(&r));
    assert!(!eq("size", "1").eval(&r));
    assert!(Condition::NotEquals("size".to_string(), "1".to_string()).eval(&r));
    assert!(Condition::NotEquals("name".to_string(), "Bob".to_string()).eval(&r));
    assert!(!Condition::NotEquals("name".to_string(), "Ann".to_string()).eval(&r));
    let both = Condition::And(Box::new(eq("name", "Ann")), Box::new(eq("age", "9")));
    assert!(both.eval(&r));
    let one = Condition::And(Box::new(eq("name", "Ann")), Box::new(eq("age", "8")));
    assert!(!one.eval(&r));
    let either = Condition::Or(Box::new(eq("name", "Bob")), Box::new(eq("age", "9")));
    assert!(either.eval(&r));
    let neither = Condition::Or(Box::new(eq("name", "Bob")), Box::new(eq("age", "8")));
    assert!(!neither.eval(&r));
    assert!(evaluate(&r, &None));
    assert!(!evaluate(&r, &Some(neither)));
    let db = Database::new();
    assert!(db.evaluate_condition(&r, &None));
    assert!(db.evaluate_condition(&r, &Some(gt)));
}

#[test]
fn table_by_id() {
    let mut t = people();
    assert_eq!(t.name(), "people");
    assert_eq!(t.len(), 3);
    assert!(t.contains(20));
    assert!(!t.contains(21));
    assert_eq!(t.insert(20, RowData::new()), Err(DbError::RecordAlreadyExists));
    assert_eq!(t.get(20).unwrap().get("name").map(|s| s.as_str()), Some("Ben"));
    assert!(t.get(21).is_none());
    assert_eq!(t.record_at(2).id(), 30);
    assert_eq!(t.update(30, row(&[("x", "y")])), Ok(()));
    assert_eq!(t.get(30).unwrap().data().len(), 1);
    assert_eq!(t.update(31, RowData::new()), Err(DbError::RecordNotFound));
    let removed = t.remove(10).unwrap();
    assert_eq!(removed.id(), 10);
    assert_eq!(removed.get("name").map(|s| s.as_str()), Some("Ann"));
    assert!(t.remove(10).is_none());
    assert_eq!(t.delete(10), Err(DbError::RecordNotFound));
    assert_eq!(t.get_all().iter().map(|r| r.id()).collect::<Vec<u64>>(), vec![20, 30]);
    assert_eq!(t.get(30).unwrap().id(), 30);
    assert_eq!(t.record_at(1).id(), 30);
    assert_eq!(t.query(|r| r.id() > 20).iter().map(|r| r.id()).collect::<Vec<u64>>(), vec![30]);
}

#[test]
fn table_set_column() {
    let mut t = people();
    assert!(t.set_column(30, "age", "1".to_string()).is_none());
    assert!(t.set_column(31, "age", "1".to_string()).is_none());
    let r = t.set_column(20, "age", "31".to_string()).unwrap();
    assert_eq!(r.id(), 20);
    assert_eq!(r.get("age").map(|s| s.as_str()), Some("31"));
    assert_eq!(r.get("name").map(|s| s.as_str()), Some("Ben"));
    assert_eq!(t.get(20).unwrap().get("age").map(|s| s.as_str()), Some("31"));
    assert_eq!(t.get(30).unwrap().data().len(), 1);
}

#[test]
fn table_by_condition() {
    let mut t = people();
    let star = vec!["*".to_string()];
    assert_eq!(t.matching_ids(&None), vec![10, 20, 30]);
    assert_eq!(t.matching_ids(&Some(eq("age", "30"))), vec![20]);
    assert_eq!(ids(&t.select(&star, &Some(eq("name", "Cy")))), vec![30]);
    let none: Vec<String> = Vec::new();
    let bare = t.select(&none, &None);
    assert_eq!(ids(&bare), vec![10, 20, 30]);
    assert_eq!(bare[0].data().len(), 0);
    let changed = t.update_where("age", "1", &None);
    assert_eq!(ids(&changed), vec![10, 20]);
    assert_eq!(t.get(30).unwrap().data().len(), 1);
    let gone = t.delete_where(&Some(eq("age", "1")));
    assert_eq!(ids(&gone), vec![10, 20]);
    assert_eq!(t.len(), 1);
    assert_eq!(t.get(30).unwrap().id(), 30);
    assert_eq!(t.record_at(0).id(), 30);
}

#[test]
fn shadowed_records_follow_the_index() {
    let mut t = Table::new("t".to_string());
    let a = t.insert_next(row(&[("n", "a"), ("k", "x")]));
    let b = t.insert_next(row(&[("n", "b")]));
    assert_eq!((a.id(), b.id()), (1, 2));
    t.delete(1).unwrap();
    // one record is left, so the next id is 2 again
    let c = t.insert_next(row(&[("n", "c"), ("k", "y")]));
    assert_eq!(c.id(), 2);
    assert_eq!(t.get(2).unwrap().get("n").map(|s| s.as_str()), Some("c"));
    // the older record of id 2 matches, and the one the index gives is changed
    let changed = t.update_where("k", "z", &Some(eq("n", "b")));
    assert_eq!(ids(&changed), vec![2]);
    assert_eq!(changed[0].get("n").map(|s| s.as_str()), Some("c"));
    assert_eq!(t.record_at(0).data().len(), 1);
    // removing by the older record's match removes the indexed one
    let gone = t.delete_where(&Some(eq("n", "b")));
    assert_eq!(ids(&gone), vec![2]);
    assert_eq!(gone[0].get("n").map(|s| s.as_str()), Some("c"));
    assert_eq!(t.len(), 1);
    assert!(t.get(2).is_none());
    assert_eq!(t.record_at(0).get("n").map(|s| s.as_str()), Some("b"));
}

#[test]
fn statements_through_their_own_functions() {
    let mut db = Database::new();
    db.create_table("t".to_string()).unwrap();
    let cols = vec!["a".to_string(), "b".to_string()];
    let vals = vec!["1".to_string(), "2".to_string()];
    let r = db.execute_insert("t", &cols, &vals).unwrap();
    assert_eq!(ids(&r), vec![1]);
    assert!(matches!(db.execute_insert("u", &cols, &vals), Err(DbError::TableNotFound)));
    let r = db.execute_select("t", &vec!["b".to_string()], Some(eq("a", "1"))).unwrap();
    assert_eq!(r[0].data().len(), 1);
    assert!(matches!(db.execute_select("u", &cols, None), Err(DbError::TableNotFound)));
    let r = db.execute_update("t", "a", "5", None).unwrap();
    assert_eq!(r[0].get("a").map(|s| s.as_str()), Some("5"));
    assert!(matches!(db.execute_update("u", "a", "5", None), Err(DbError::TableNotFound)));
    let r = db.execute_delete("t", Some(eq("a", "5"))).unwrap();
    assert_eq!(ids(&r), vec![1]);
    assert!(matches!(db.execute_delete("u", None), Err(DbError::TableNotFound)));
    let stmt = db.parse_sql("INSERT INTO t (x) VALUES (y)").unwrap();
    let r = db.execute(stmt).unwrap();
    assert_eq!(ids(&r), vec![1]);
}
