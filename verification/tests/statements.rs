use potatodb::{Database, DbError, Record};

fn users() -> Database {
    let mut db = Database::new();
    db.create_table("users".to_string()).unwrap();
    db.execute_sql("INSERT INTO users (name, age, email) VALUES (Alice, 30, alice@example.com)").unwrap();
    db.execute_sql("INSERT INTO users (name, age, email) VALUES (Bob, 25, bob@example.com)").unwrap();
    db.execute_sql("INSERT INTO users (name, age, email) VALUES (Charlie, 9, charlie@example.com)").unwrap();
    db
}

fn col<'a>(r: &'a Record, name: &str) -> Option<&'a str> {
    r.get(name).map(|s| s.as_str())
}

fn ids(records: &[Record]) -> Vec<u64> {
    records.iter().map(|r| r.id()).collect()
}

#[test]
fn insert_into_fresh_table_then_select_star() {
    let mut db = Database::new();
    db.create_table("t".to_string()).unwrap();
    let inserted = db.execute_sql("INSERT INTO t (a,b) VALUES (x,y)").unwrap();
    assert_eq!(inserted.len(), 1);
    assert_eq!(inserted[0].id(), 1);
    let all = db.execute_sql("SELECT * FROM t").unwrap();
    assert_eq!(all.len(), 1);
    assert_eq!(all[0].id(), 1);
    assert_eq!(all[0].data().len(), 2);
    assert_eq!(col(&all[0], "a"), Some("x"));
    assert_eq!(col(&all[0], "b"), Some("y"));
}

#[test]
fn insert_with_spaced_lists() {
    let db = users();
    let all = db.get_all("users").unwrap();
    assert_eq!(all.len(), 3);
    assert_eq!(all[1].id(), 2);
    assert_eq!(col(all[1], "name"), Some("Bob"));
    assert_eq!(col(all[1], "age"), Some("25"));
    assert_eq!(col(all[1], "email"), Some("bob@example.com"));
    assert_eq!(all[1].data().len(), 3);
}

#[test]
fn insert_drops_what_the_shorter_list_lacks() {
    let mut db = Database::new();
    db.create_table("t".to_string()).unwrap();
    let r = db.execute_sql("INSERT INTO t (a, b, c) VALUES (1, 2)").unwrap();
    assert_eq!(r[0].data().len(), 2);
    assert_eq!(col(&r[0], "a"), Some("1"));
    assert_eq!(col(&r[0], "b"), Some("2"));
    let r = db.execute_sql("INSERT INTO t (a) VALUES (1, 2)").unwrap();
    assert_eq!(r[0].id(), 2);
    assert_eq!(r[0].data().len(), 1);
}

#[test]
fn quotes_stay_in_values() {
    let mut db = users();
    db.execute_sql("INSERT INTO users (name, age) VALUES ('Diana', 28)").unwrap();
    let r = db.execute_sql("SELECT * FROM users WHERE name = 'Diana'").unwrap();
    assert_eq!(ids(&r), vec![4]);
    assert_eq!(col(&r[0], "name"), Some("'Diana'"));
    assert!(db.execute_sql("SELECT * FROM users WHERE name = Diana").unwrap().is_empty());
}

#[test]
fn keywords_match_in_any_case() {
    let mut db = users();
    let r = db.execute_sql("select * from users where name = Bob").unwrap();
    assert_eq!(ids(&r), vec![2]);
    let r = db.execute_sql("Select * From users Where age = 30 oR name = Bob").unwrap();
    assert_eq!(ids(&r), vec![1, 2]);
}

#[test]
fn and_needs_both_and_or_needs_one() {
    let mut db = users();
    let r = db.execute_sql("SELECT * FROM users WHERE name = Alice AND age = 30").unwrap();
    assert_eq!(ids(&r), vec![1]);
    let r = db.execute_sql("SELECT * FROM users WHERE name = Alice AND age = 25").unwrap();
    assert!(r.is_empty());
    let r = db.execute_sql("SELECT * FROM users WHERE name = Alice OR age = 25").unwrap();
    assert_eq!(ids(&r), vec![1, 2]);
    let r = db.execute_sql("SELECT * FROM users WHERE name = Zed OR age = 77").unwrap();
    assert!(r.is_empty());
}

#[test]
fn and_chain_is_the_left_side_of_or() {
    let mut db = users();
    // (name = Alice AND age = 25) OR name = Bob
    let r = db.execute_sql("SELECT * FROM users WHERE name = Alice AND age = 25 OR name = Bob").unwrap();
    assert_eq!(ids(&r), vec![2]);
    // name = Bob OR (name = Alice AND age = 25)
    let r = db.execute_sql("SELECT * FROM users WHERE name = Bob OR name = Alice AND age = 25").unwrap();
    assert_eq!(ids(&r), vec![2]);
    // name = Bob OR (name = Alice AND age = 30)
    let r = db.execute_sql("SELECT * FROM users WHERE name = Bob OR name = Alice AND age = 30").unwrap();
    assert_eq!(ids(&r), vec![1, 2]);
}

#[test]
fn comparison_is_on_strings() {
    let mut db = users();
    let r = db.execute_sql("SELECT * FROM users WHERE age > 30").unwrap();
    assert_eq!(ids(&r), vec![3]);
    let r = db.execute_sql("SELECT * FROM users WHERE age < 30").unwrap();
    assert_eq!(ids(&r), vec![2]);
    let r = db.execute_sql("SELECT * FROM users WHERE age > 3").unwrap();
    assert_eq!(ids(&r), vec![1, 3]);
    let r = db.execute_sql("SELECT * FROM users WHERE age < 250").unwrap();
    assert_eq!(ids(&r), vec![2]);
}

#[test]
fn not_equals_holds_of_an_absent_column() {
    let mut db = users();
    db.execute_sql("INSERT INTO users (name) VALUES (Dan)").unwrap();
    let r = db.execute_sql("SELECT * FROM users WHERE age != 30").unwrap();
    assert_eq!(ids(&r), vec![2, 3, 4]);
    let r = db.execute_sql("SELECT * FROM users WHERE age = 30").unwrap();
    assert_eq!(ids(&r), vec![1]);
    let r = db.execute_sql("SELECT * FROM users WHERE age > 0").unwrap();
    assert_eq!(ids(&r), vec![1, 2, 3]);
}

#[test]
fn select_projects_the_listed_columns() {
    let mut db = users();
    db.execute_sql("INSERT INTO users (name) VALUES (Dan)").unwrap();
    let r = db.execute_sql("SELECT name age FROM users").unwrap();
    assert_eq!(r.len(), 4);
    assert_eq!(r[0].data().len(), 2);
    assert_eq!(col(&r[0], "name"), Some("Alice"));
    assert_eq!(col(&r[0], "age"), Some("30"));
    assert_eq!(col(&r[0], "email"), None);
    assert_eq!(r[3].data().len(), 1);
    assert_eq!(col(&r[3], "age"), None);
    // the stored records keep their columns
    assert_eq!(db.get("users", 1).unwrap().unwrap().data().len(), 3);
}

#[test]
fn select_columns_are_taken_as_written() {
    let mut db = users();
    let r = db.execute_sql("SELECT name, age FROM users").unwrap();
    assert_eq!(r[0].data().len(), 1);
    assert_eq!(col(&r[0], "age"), Some("30"));
    let r = db.execute_sql("SELECT * name FROM users").unwrap();
    assert_eq!(r[0].data().len(), 1);
    assert_eq!(col(&r[0], "name"), Some("Alice"));
}

#[test]
fn update_sets_one_column_where_it_exists() {
    let mut db = users();
    db.execute_sql("INSERT INTO users (name) VALUES (Dan)").unwrap();
    let r = db.execute_sql("UPDATE users SET age = 31 WHERE name != Bob").unwrap();
    assert_eq!(ids(&r), vec![1, 3]);
    assert_eq!(col(&r[0], "age"), Some("31"));
    assert_eq!(col(&r[0], "name"), Some("Alice"));
    assert_eq!(col(&r[0], "email"), Some("alice@example.com"));
    let all = db.get_all("users").unwrap();
    assert_eq!(col(all[0], "age"), Some("31"));
    assert_eq!(col(all[1], "age"), Some("25"));
    assert_eq!(col(all[2], "age"), Some("31"));
    assert_eq!(col(all[3], "age"), None);
    assert_eq!(all[3].data().len(), 1);
    assert_eq!(all[0].data().len(), 3);
}

#[test]
fn update_without_where_touches_every_record() {
    let mut db = users();
    let r = db.execute_sql("UPDATE users SET age = 1").unwrap();
    assert_eq!(ids(&r), vec![1, 2, 3]);
}

#[test]
fn delete_returns_the_removed_records_in_order() {
    let mut db = users();
    let r = db.execute_sql("DELETE FROM users WHERE age != 25").unwrap();
    assert_eq!(ids(&r), vec![1, 3]);
    assert_eq!(col(&r[1], "name"), Some("Charlie"));
    let left: Vec<u64> = db.get_all("users").unwrap().iter().map(|r| r.id()).collect();
    assert_eq!(left, vec![2]);
    assert_eq!(db.get("users", 2).unwrap().unwrap().id(), 2);
    assert!(matches!(db.get("users", 1), Ok(None)));
    let r = db.execute_sql("DELETE FROM users").unwrap();
    assert_eq!(ids(&r), vec![2]);
    assert!(db.get_all("users").unwrap().is_empty());
}

#[test]
fn statement_insert_takes_count_plus_one_as_id() {
    let mut db = users();
    db.execute_sql("DELETE FROM users WHERE name = Bob").unwrap();
    let r = db.execute_sql("INSERT INTO users (name) VALUES (Eve)").unwrap();
    assert_eq!(r[0].id(), 3);
    let all: Vec<u64> = db.get_all("users").unwrap().iter().map(|r| r.id()).collect();
    assert_eq!(all, vec![1, 3, 3]);
    // the index entry of the id now points at the new record
    assert_eq!(col(db.get("users", 3).unwrap().unwrap(), "name"), Some("Eve"));
}

#[test]
fn malformed_statements_are_parse_errors() {
    let mut db = users();
    for text in [
        "",
        "   ",
        "SELECT",
        "SELECT *",
        "SELECT * FROM",
        "SELECT FROM users",
        "INSERT",
        "INSERT INTO users",
        "INSERT INTO users (a)",
        "INSERT INTO VALUES (a)",
        "INSERT VALUES (a) INTO users",
        "UPDATE users",
        "UPDATE users SET",
        "UPDATE users SET age",
        "UPDATE users SET age =",
        "DELETE",
        "DELETE users",
        "DELETE FROM",
        "SELECT * FROM users WHERE age = 30 OR",
        "SELECT * FROM users WHERE age = 30 OR name",
        "SELECT * FROM users WHERE age = 30 OR name ~ Bob",
        "SELECT * FROM users WHERE",
        "SELECT * FROM users WHERE age",
        "SELECT * FROM users WHERE age =",
        "SELECT * FROM users WHERE age = 30 AND",
        "SELECT * FROM users WHERE age = 30 AND name",
        "SELECT * FROM users WHERE age = 30 AND name =",
        "UPDATE users SET age = 1 WHERE name =",
        "DELETE FROM users WHERE",
        "DELETE FROM users WHERE name =",
        "DELETE FROM users WHERE name = Bob AND",
    ] {
        assert!(matches!(db.execute_sql(text), Err(DbError::ParseError)), "{}", text);
    }
    assert_eq!(db.get_all("users").unwrap().len(), 3);
}

#[test]
fn unknown_verbs_are_unsupported() {
    let mut db = users();
    assert!(matches!(db.execute_sql("DROP TABLE users"), Err(DbError::UnsupportedStatement)));
    assert!(matches!(db.execute_sql("FROM users SELECT *"), Err(DbError::UnsupportedStatement)));
}

#[test]
fn unknown_operator_gives_up_the_condition() {
    let mut db = users();
    let r = db.execute_sql("SELECT * FROM users WHERE age ~ 30").unwrap();
    assert_eq!(r.len(), 3);
    let r = db.execute_sql("SELECT * FROM users WHERE name = Bob AND age ~ 30").unwrap();
    assert_eq!(r.len(), 3);
}

#[test]
fn a_cut_off_condition_is_not_an_absent_one() {
    let mut db = Database::new();
    db.create_table("t".to_string()).unwrap();
    db.execute_sql("INSERT INTO t (a) VALUES (1)").unwrap();
    db.execute_sql("INSERT INTO t (a) VALUES (2)").unwrap();
    assert!(matches!(db.execute_sql("DELETE FROM t WHERE a ="), Err(DbError::ParseError)));
    assert_eq!(db.get_all("t").unwrap().len(), 2);
    assert!(matches!(db.execute_sql("UPDATE t SET a = 9 WHERE a ="), Err(DbError::ParseError)));
    assert_eq!(col(db.get("t", 1).unwrap().unwrap(), "a"), Some("1"));
    assert_eq!(col(db.get("t", 2).unwrap().unwrap(), "a"), Some("2"));
    assert_eq!(ids(&db.execute_sql("DELETE FROM t WHERE a = 1").unwrap()), vec![1]);
    assert_eq!(ids(&db.execute_sql("DELETE FROM t").unwrap()), vec![2]);
}

#[test]
fn another_word_ends_the_condition() {
    let mut db = users();
    assert_eq!(ids(&db.execute_sql("SELECT * FROM users WHERE age = 30 LIMIT 1").unwrap()), vec![1]);
    assert_eq!(ids(&db.execute_sql("SELECT * FROM users WHERE age = 30 name = Bob").unwrap()), vec![1]);
    assert_eq!(db.execute_sql("SELECT * FROM users LIMIT 1").unwrap().len(), 3);
}
