use potatodb::{Database, DbError, RowData, StoredRecord, StoredTable};

fn row(pairs: &[(&str, &str)]) -> RowData {
    let mut data = RowData::new();
    for (k, v) in pairs {
        data.insert(k.to_string(), v.to_string());
    }
    data
}

fn entry(name: &str, value: &str) -> (String, String) {
    (name.to_string(), value.to_string())
}

fn record(id: u64, columns: Vec<(String, String)>, indexed: bool) -> StoredRecord {
    (id, columns, indexed)
}

fn table(name: &str, records: Vec<StoredRecord>) -> StoredTable {
    (name.to_string(), records)
}

fn same(a: &Database, b: &Database) {
    let mut names_a = a.list_tables();
    let mut names_b = b.list_tables();
    names_a.sort();
    names_b.sort();
    assert_eq!(names_a, names_b);
    for name in names_a {
        let ra = a.get_all(name).unwrap();
        let rb = b.get_all(name).unwrap();
        assert_eq!(ra.len(), rb.len());
        for (x, y) in ra.iter().zip(rb.iter()) {
            assert_eq!(x.id(), y.id());
            let mut ex: Vec<(String, String)> = x.data().entries();
            let mut ey: Vec<(String, String)> = y.data().entries();
            ex.sort();
            ey.sort();
            assert_eq!(ex, ey);
            let ia = a.get(name, x.id()).unwrap().map(|r| r.data().entries().len());
            let ib = b.get(name, x.id()).unwrap().map(|r| r.data().entries().len());
            assert_eq!(ia, ib);
        }
    }
}

#[test]
fn export_then_import_gives_the_same_database() {
    let mut db = Database::new();
    db.create_table("users".to_string()).unwrap();
    db.create_table("empty".to_string()).unwrap();
    db.insert("users", 5, row(&[("name", "Alice"), ("age", "30")])).unwrap();
    db.insert("users", 9, row(&[("name", "Bob")])).unwrap();
    db.insert("users", 2, RowData::new()).unwrap();
    db.delete("users", 9).unwrap();
    let snapshot = db.export();
    assert_eq!(snapshot.len(), 2);
    let back = Database::import(&snapshot).unwrap();
    same(&db, &back);
    same(&db, &db.duplicate());
}

#[test]
fn snapshot_keeps_which_record_the_index_points_at() {
    let mut db = Database::new();
    db.create_table("t".to_string()).unwrap();
    db.execute_sql("INSERT INTO t (n) VALUES (one)").unwrap();
    db.execute_sql("INSERT INTO t (n) VALUES (two)").unwrap();
    db.execute_sql("INSERT INTO t (n) VALUES (three)").unwrap();
    db.delete("t", 2).unwrap();
    db.execute_sql("INSERT INTO t (n) VALUES (four)").unwrap();
    let snapshot = db.export();
    let marks: Vec<(u64, bool)> = snapshot[0].1.iter().map(|r| (r.0, r.2)).collect();
    assert_eq!(marks, vec![(1, true), (3, false), (3, true)]);
    let back = Database::import(&snapshot).unwrap();
    same(&db, &back);
    assert_eq!(
        back.get("t", 3).unwrap().unwrap().get("n").map(|s| s.as_str()),
        Some("four")
    );
}

#[test]
fn import_refuses_what_is_no_database() {
    let two_marked = vec![table("t", vec![record(1, vec![], true), record(1, vec![], true)])];
    assert!(matches!(Database::import(&two_marked), Err(DbError::PersistenceError)));
    let column_twice =
        vec![table("t", vec![record(1, vec![entry("a", "x"), entry("a", "y")], true)])];
    assert!(matches!(Database::import(&column_twice), Err(DbError::PersistenceError)));
    let name_twice = vec![table("t", vec![]), table("t", vec![])];
    assert!(matches!(Database::import(&name_twice), Err(DbError::PersistenceError)));
    let sound = vec![table(
        "t",
        vec![record(1, vec![entry("a", "x")], false), record(1, vec![entry("a", "y")], true)],
    )];
    let db = Database::import(&sound).unwrap();
    assert_eq!(db.get("t", 1).unwrap().unwrap().get("a").map(|s| s.as_str()), Some("y"));
    assert_eq!(db.get_all("t").unwrap().len(), 2);
}

#[test]
fn save_then_load_gives_the_same_database() {
    let mut db = Database::new();
    db.create_table("users".to_string()).unwrap();
    db.create_table("empty".to_string()).unwrap();
    db.execute_sql("INSERT INTO users (name, age) VALUES (Alice, 30)").unwrap();
    db.execute_sql("INSERT INTO users (name, age) VALUES ('Bob', 25)").unwrap();
    db.execute_sql("INSERT INTO users (name) VALUES (Cy)").unwrap();
    db.execute_sql("DELETE FROM users WHERE name = 'Bob'").unwrap();
    db.execute_sql("INSERT INTO users (name) VALUES (Dee)").unwrap();
    let bytes = db.save().unwrap();
    assert!(!bytes.is_empty());
    let back = Database::load(&bytes).unwrap();
    same(&db, &back);
    assert_eq!(back.get("users", 3).unwrap().unwrap().get("name").map(|s| s.as_str()), Some("Dee"));
    // saving what was loaded gives the same bytes
    assert_eq!(back.save().unwrap(), bytes);
    same(&db, &db.reload().unwrap());
    // the bytes are those of the encoder on the exported values
    assert_eq!(bincode::serialize(&db.export()).unwrap(), bytes);
}

#[test]
fn load_refuses_bytes_that_hold_no_database() {
    assert!(matches!(Database::load(&[]), Err(DbError::PersistenceError)));
    assert!(matches!(Database::load(&[1, 2, 3]), Err(DbError::PersistenceError)));
    let mut bytes = {
        let mut db = Database::new();
        db.create_table("t".to_string()).unwrap();
        db.insert("t", 1, RowData::new()).unwrap();
        db.save().unwrap()
    };
    bytes.truncate(bytes.len() - 1);
    assert!(matches!(Database::load(&bytes), Err(DbError::PersistenceError)));
    // well-formed bytes of what is no database: the same table twice
    let twice: Vec<StoredTable> = vec![("t".to_string(), vec![]), ("t".to_string(), vec![])];
    let bytes = bincode::serialize(&twice).unwrap();
    assert!(matches!(Database::load(&bytes), Err(DbError::PersistenceError)));
    // an empty database
    let bytes = Database::new().save().unwrap();
    assert!(Database::load(&bytes).unwrap().list_tables().is_empty());
}

#[test]
fn every_failure_has_its_sentence() {
    assert_eq!(DbError::TableNotFound.message(), "Table not found");
    assert_eq!(DbError::TableAlreadyExists.message(), "Table already exists");
    assert_eq!(DbError::RecordNotFound.message(), "Record not found");
    assert_eq!(DbError::RecordAlreadyExists.message(), "Record already exists");
    assert_eq!(DbError::ParseError.message(), "Invalid statement");
    assert_eq!(DbError::UnsupportedStatement.message(), "Unsupported SQL statement");
    assert_eq!(DbError::PersistenceError.message(), "Stored state could not be written or read");
}
