use potatodb::condition::Condition;
use potatodb::parser::{
    collect_list, copy_words, find_keyword, parse_chain, parse_comparison, parse_statement,
    parse_where, word_is,
};
use potatodb::text::{is_list_delimiter, list_items, str_eq, str_lt, to_chars};
use potatodb::{Database, DbError, SqlStatement};

fn words(text: &str) -> Vec<String> {
    text.split(' ').filter(|w| !w.is_empty()).map(|w| w.to_string()).collect()
}

fn show(c: &Condition) -> String {
    match c {
        Condition::Equals(a, b) => format!("{}={}", a, b),
        Condition::NotEquals(a, b) => format!("{}!={}", a, b),
        Condition::GreaterThan(a, b) => format!("{}>{}", a, b),
        Condition::LessThan(a, b) => format!("{}<{}", a, b),
        Condition::And(l, r) => format!("({} & {})", show(l), show(r)),
        Condition::Or(l, r) => format!("({} | {})", show(l), show(r)),
    }
}

fn clause(text: &str) -> Result<Option<String>, DbError> {
    parse_where(&words(text), 0).map(|c| c.map(|c| show(&c)))
}

#[test]
fn list_words_lose_their_delimiters() {
    assert_eq!(list_items("(name,"), vec!["name"]);
    assert_eq!(list_items("age,"), vec!["age"]);
    assert_eq!(list_items("email)"), vec!["email"]);
    assert_eq!(list_items("(a,b)"), vec!["a", "b"]);
    assert_eq!(list_items("((a))"), vec!["a"]);
    assert_eq!(list_items("a(b)c"), vec!["a(b)c"]);
    assert_eq!(list_items("a,,b"), vec!["a", "", "b"]);
    assert_eq!(list_items(","), vec![""]);
    assert_eq!(list_items(""), vec![""]);
    assert_eq!(list_items("'x'"), vec!["'x'"]);
    assert_eq!(list_items("(é,ß)"), vec!["é", "ß"]);
    assert!(is_list_delimiter('('));
    assert!(is_list_delimiter(','));
    assert!(is_list_delimiter(')'));
    assert!(!is_list_delimiter('a'));
}

#[test]
fn keywords_are_found_by_their_first_occurrence() {
    let w = words("select a from b FROM c");
    assert_eq!(find_keyword(&w, "FROM"), 2);
    assert_eq!(find_keyword(&w, "SELECT"), 0);
    assert_eq!(find_keyword(&w, "WHERE"), 6);
    assert!(word_is("wHeRe", "WHERE"));
    assert!(!word_is("WHERE", "where"));
    assert!(!word_is("WHER", "WHERE"));
    assert_eq!(copy_words(&w, 1, 3), vec!["a", "from"]);
    assert!(copy_words(&w, 2, 2).is_empty());
    assert_eq!(collect_list(&words("(a, b,c) d"), 0, 2), vec!["a", "b", "c"]);
    assert!(collect_list(&w, 3, 1).is_empty());
}

#[test]
fn comparisons_by_operator() {
    let c = "c".to_string();
    let v = "v".to_string();
    let op = |o: &str| parse_comparison(&c, &o.to_string(), &v).map(|c| show(&c));
    assert_eq!(op("="), Some("c=v".to_string()));
    assert_eq!(op("!="), Some("c!=v".to_string()));
    assert_eq!(op(">"), Some("c>v".to_string()));
    assert_eq!(op("<"), Some("c<v".to_string()));
    assert_eq!(op(">="), None);
    assert_eq!(op("=="), None);
    assert_eq!(op(""), None);
}

#[test]
fn where_clause_shapes() {
    assert_eq!(clause(""), Ok(None));
    assert_eq!(clause("a = 1"), Ok(None));
    assert_eq!(clause("WHERE"), Err(DbError::ParseError));
    assert_eq!(clause("WHERE a"), Err(DbError::ParseError));
    assert_eq!(clause("WHERE a ="), Err(DbError::ParseError));
    assert_eq!(clause("where a = 1"), Ok(Some("a=1".to_string())));
    assert_eq!(clause("WHERE a = 1 AND b != 2"), Ok(Some("(a=1 & b!=2)".to_string())));
    assert_eq!(
        clause("WHERE a = 1 AND b != 2 and c > 3"),
        Ok(Some("((a=1 & b!=2) & c>3)".to_string()))
    );
    assert_eq!(clause("WHERE a = 1 OR b < 2"), Ok(Some("(a=1 | b<2)".to_string())));
    assert_eq!(
        clause("WHERE a = 1 AND b = 2 OR c = 3"),
        Ok(Some("((a=1 & b=2) | c=3)".to_string()))
    );
    assert_eq!(
        clause("WHERE a = 1 OR b = 2 AND c = 3"),
        Ok(Some("(a=1 | (b=2 & c=3))".to_string()))
    );
    assert_eq!(
        clause("WHERE a = 1 OR b = 2 OR c = 3"),
        Ok(Some("(a=1 | (b=2 | c=3))".to_string()))
    );
    assert_eq!(clause("WHERE a = 1 AND"), Err(DbError::ParseError));
    assert_eq!(clause("WHERE a = 1 AND b"), Err(DbError::ParseError));
    assert_eq!(clause("WHERE a = 1 AND b = "), Err(DbError::ParseError));
    assert_eq!(clause("WHERE a = 1 AND b = 2 AND c ="), Err(DbError::ParseError));
    assert_eq!(clause("WHERE a = 1 OR b = 2 AND"), Err(DbError::ParseError));
    assert_eq!(clause("WHERE a = 1 b = 2"), Ok(Some("a=1".to_string())));
    assert_eq!(clause("WHERE a ~ 1"), Ok(None));
    assert_eq!(clause("WHERE a = 1 AND b ~ 2"), Ok(None));
    assert_eq!(clause("WHERE a = 1 OR"), Err(DbError::ParseError));
    assert_eq!(clause("WHERE a = 1 OR b ~ 2"), Err(DbError::ParseError));
    assert_eq!(clause("WHERE a = 1 OR WHERE b = 2"), Err(DbError::ParseError));
}

#[test]
fn chain_continues_what_was_read() {
    let w = words("x y b = 2");
    let before = Condition::Equals("a".to_string(), "1".to_string());
    let c = parse_chain(&w, 2, Some(before)).unwrap().unwrap();
    assert_eq!(show(&c), "(a=1 & b=2)");
    let before = Condition::Equals("a".to_string(), "1".to_string());
    assert!(matches!(parse_chain(&w, 3, Some(before)), Err(DbError::ParseError)));
    assert!(matches!(parse_chain(&w, 5, None), Err(DbError::ParseError)));
    assert!(matches!(parse_chain(&w, 9, None), Err(DbError::ParseError)));
    let c = parse_chain(&w, 2, None).unwrap().unwrap();
    assert_eq!(show(&c), "b=2");
}

#[test]
fn where_clause_at_a_position() {
    let db = Database::new();
    let w = words("DELETE FROM t WHERE a = 1");
    let c = db.parse_where_clause(&w, 3).unwrap().unwrap();
    assert_eq!(show(&c), "a=1");
    assert!(db.parse_where_clause(&w, 2).unwrap().is_none());
    assert!(db.parse_where_clause(&w, 7).unwrap().is_none());
}

#[test]
fn statements_by_verb() {
    match parse_statement(&words("SELECT a b FROM t WHERE a = 1")).unwrap() {
        SqlStatement::Select { table, columns, condition } => {
            assert_eq!(table, "t");
            assert_eq!(columns, vec!["a", "b"]);
            assert_eq!(show(&condition.unwrap()), "a=1");
        }
        _ => panic!("not a selection"),
    }
    match parse_statement(&words("insert into t (a, b) values (1, 2)")).unwrap() {
        SqlStatement::Insert { table, columns, values } => {
            assert_eq!(table, "t");
            assert_eq!(columns, vec!["a", "b"]);
            assert_eq!(values, vec!["1", "2"]);
        }
        _ => panic!("not an insertion"),
    }
    match parse_statement(&words("UPDATE t SET a : 1 WHERE b > 2")).unwrap() {
        SqlStatement::Update { table, column, value, condition } => {
            assert_eq!(table, "t");
            assert_eq!(column, "a");
            assert_eq!(value, "1");
            assert_eq!(show(&condition.unwrap()), "b>2");
        }
        _ => panic!("not an update"),
    }
    match parse_statement(&words("DELETE FROM t")).unwrap() {
        SqlStatement::Delete { table, condition } => {
            assert_eq!(table, "t");
            assert!(condition.is_none());
        }
        _ => panic!("not a removal"),
    }
    assert!(matches!(parse_statement(&Vec::new()), Err(DbError::ParseError)));
    assert!(matches!(parse_statement(&words("MERGE t")), Err(DbError::UnsupportedStatement)));
}

#[test]
fn text_is_split_at_any_whitespace() {
    let db = Database::new();
    match db.parse_sql("  DELETE\tFROM \n t  ").unwrap() {
        SqlStatement::Delete { table, condition } => {
            assert_eq!(table, "t");
            assert!(condition.is_none());
        }
        _ => panic!("not a removal"),
    }
    assert!(matches!(db.parse_sql("DELETEFROM t"), Err(DbError::UnsupportedStatement)));
}

#[test]
fn strings_compare_as_the_standard_library_orders_them() {
    let samples = [
        "", "a", "ab", "abc", "b", "B", "9", "30", "300", "31", "é", "z", "ß", "日本", "日", "\u{10000}",
        "\u{ffff}", "a b", "'Diana'", "Diana",
    ];
    for a in samples {
        for b in samples {
            assert_eq!(str_lt(a, b), a < b, "{:?} < {:?}", a, b);
            assert_eq!(str_eq(a, b), a == b, "{:?} == {:?}", a, b);
        }
    }
    assert!(str_lt("30", "9"));
    assert!(!str_lt("9", "30"));
    assert!(str_lt("a", "ab"));
    assert!(!str_lt("ab", "a"));
    assert!(!str_lt("", ""));
    assert_eq!(to_chars("aé日"), vec!['a', 'é', '日']);
    assert!(to_chars("").is_empty());
}
