//! The statement language: from the words of one line of text to a statement.
//!
//! ```text
//! SELECT <col>[,...] FROM <table> [WHERE <cond>]
//! INSERT INTO <table> (<col>,...) VALUES (<val>,...)
//! UPDATE <table> SET <col> = <val> [WHERE <cond>]
//! DELETE FROM <table> [WHERE <cond>]
//! ```
//!
//! Keywords are matched without regard to case; everything else is taken as
//! written, quote characters included. Structure is positional: a clause is
//! found by the first occurrence of its keyword.

use vstd::prelude::*;
use crate::condition::{opt_view, Cond, Condition};
use crate::error::DbError;
use crate::text::{list_items, list_items_spec, str_eq, to_upper, uppercase, views};

verus! {

/// One parsed statement.
#[derive(Debug)]
pub enum SqlStatement {
    Select { table: String, columns: Vec<String>, condition: Option<Condition> },
    Insert { table: String, columns: Vec<String>, values: Vec<String> },
    Update { table: String, column: String, value: String, condition: Option<Condition> },
    Delete { table: String, condition: Option<Condition> },
}

/// A statement as plain mathematics.
pub ghost enum Stmt {
    Select { table: Seq<char>, columns: Seq<Seq<char>>, condition: Option<Cond> },
    Insert { table: Seq<char>, columns: Seq<Seq<char>>, values: Seq<Seq<char>> },
    Update { table: Seq<char>, column: Seq<char>, value: Seq<char>, condition: Option<Cond> },
    Delete { table: Seq<char>, condition: Option<Cond> },
}

impl View for SqlStatement {
    type V = Stmt;

    open spec fn view(&self) -> Stmt {
        match *self {
            SqlStatement::Select { table, columns, condition } => Stmt::Select {
                table: table@,
                columns: views(columns@),
                condition: opt_view(condition),
            },
            SqlStatement::Insert { table, columns, values } => Stmt::Insert {
                table: table@,
                columns: views(columns@),
                values: views(values@),
            },
            SqlStatement::Update { table, column, value, condition } => Stmt::Update {
                table: table@,
                column: column@,
                value: value@,
                condition: opt_view(condition),
            },
            SqlStatement::Delete { table, condition } => Stmt::Delete {
                table: table@,
                condition: opt_view(condition),
            },
        }
    }
}

/// Whether `word` is the keyword `keyword`, whatever its case.
pub open spec fn is_keyword(word: Seq<char>, keyword: Seq<char>) -> bool {
    uppercase(word) == keyword
}

/// The comparison that the three words `column operator value` stand for;
/// `None` where the operator is none of `=`, `!=`, `>`, `<`.
pub open spec fn comparison(column: Seq<char>, operator: Seq<char>, value: Seq<char>) -> Option<
    Cond,
> {
    if operator == seq!['='] {
        Some(Cond::Equals(column, value))
    } else if operator == seq!['!', '='] {
        Some(Cond::NotEquals(column, value))
    } else if operator == seq!['>'] {
        Some(Cond::GreaterThan(column, value))
    } else if operator == seq!['<'] {
        Some(Cond::LessThan(column, value))
    } else {
        None
    }
}

/// `next` joined by AND to what was read before it.
pub open spec fn and_onto(before: Option<Cond>, next: Cond) -> Cond {
    match before {
        Some(b) => Cond::And(Box::new(b), Box::new(next)),
        None => next,
    }
}

/// The condition that the words of `words` from position `at` on stand for,
/// `before` being the AND-chain read so far.
///
/// A comparison is owed at `at`: it takes three words, and where fewer are
/// left the clause is cut short, which is a parse error. After a
/// comparison, `AND` continues the chain, which nests to the left. `OR`
/// closes it: the chain becomes the left side of an OR whose right side is
/// whatever the rest of the words stand for, read afresh; a right side that
/// gives no condition is a parse error. Any other word ends the condition,
/// and so does the end of the words. An unknown operator gives up the whole
/// chain: `Ok(None)`.
pub open spec fn chain_spec(words: Seq<Seq<char>>, at: int, before: Option<Cond>) -> Result<
    Option<Cond>,
    DbError,
>
    decreases words.len() - at,
{
    if 0 <= at && at + 2 < words.len() {
        match comparison(words[at], words[at + 1], words[at + 2]) {
            None => Ok(None),
            Some(c) => {
                let chain = and_onto(before, c);
                if at + 3 < words.len() && is_keyword(words[at + 3], "AND"@) {
                    chain_spec(words, at + 4, Some(chain))
                } else if at + 3 < words.len() && is_keyword(words[at + 3], "OR"@) {
                    match chain_spec(words, at + 4, None) {
                        Ok(Some(right)) => Ok(Some(Cond::Or(Box::new(chain), Box::new(right)))),
                        _ => Err(DbError::ParseError),
                    }
                } else {
                    Ok(Some(chain))
                }
            },
        }
    } else {
        Err(DbError::ParseError)
    }
}

/// The condition of the WHERE clause that starts at position `at`: none
/// where the word there is not `WHERE` or there is no word. Behind `WHERE`
/// a comparison is owed.
pub open spec fn where_spec(words: Seq<Seq<char>>, at: int) -> Result<Option<Cond>, DbError> {
    if 0 <= at < words.len() && is_keyword(words[at], "WHERE"@) {
        chain_spec(words, at + 1, None)
    } else {
        Ok(None)
    }
}

/// The view of a parsed condition or its error.
pub open spec fn cond_result_view(r: Result<Option<Condition>, DbError>) -> Result<
    Option<Cond>,
    DbError,
> {
    match r {
        Ok(c) => Ok(opt_view(c)),
        Err(e) => Err(e),
    }
}

/// Whether `word` is the keyword `keyword`, whatever its case.
pub fn word_is(word: &str, keyword: &str) -> (r: bool)
    ensures
        r == is_keyword(word@, keyword@),
{
    let upper = to_upper(word);
    str_eq(upper.as_str(), keyword)
}

/// Reads the comparison `column operator value`.
pub fn parse_comparison(column: &String, operator: &String, value: &String) -> (r: Option<
    Condition,
>)
    ensures
        opt_view(r) == comparison(column@, operator@, value@),
{
    proof {
        reveal_strlit("=");
        reveal_strlit("!=");
        reveal_strlit(">");
        reveal_strlit("<");
        assert("="@ =~= seq!['=']);
        assert("!="@ =~= seq!['!', '=']);
        assert(">"@ =~= seq!['>']);
        assert("<"@ =~= seq!['<']);
    }
    let op = operator.as_str();
    if str_eq(op, "=") {
        Some(Condition::Equals(column.clone(), value.clone()))
    } else if str_eq(op, "!=") {
        Some(Condition::NotEquals(column.clone(), value.clone()))
    } else if str_eq(op, ">") {
        Some(Condition::GreaterThan(column.clone(), value.clone()))
    } else if str_eq(op, "<") {
        Some(Condition::LessThan(column.clone(), value.clone()))
    } else {
        None
    }
}

/// Reads a chain of comparisons from position `at` of `words`, `before`
/// being the AND-chain read so far.
pub fn parse_chain(words: &Vec<String>, at: usize, before: Option<Condition>) -> (r: Result<
    Option<Condition>,
    DbError,
>)
    ensures
        cond_result_view(r) == chain_spec(views(words@), at as int, opt_view(before)),
    decreases words@.len() - at,
{
    let n = words.len();
    if at >= n || n - at <= 2 {
        return Err(DbError::ParseError);
    }
    match parse_comparison(&words[at], &words[at + 1], &words[at + 2]) {
        None => Ok(None),
        Some(c) => {
            let chain = match before {
                Some(b) => Condition::And(Box::new(b), Box::new(c)),
                None => c,
            };
            if n - at > 3 {
                if word_is(words[at + 3].as_str(), "AND") {
                    parse_chain(words, at + 4, Some(chain))
                } else if word_is(words[at + 3].as_str(), "OR") {
                    match parse_chain(words, at + 4, None) {
                        Ok(Some(right)) => Ok(Some(Condition::Or(Box::new(chain), Box::new(right)))),
                        _ => Err(DbError::ParseError),
                    }
                } else {
                    Ok(Some(chain))
                }
            } else {
                Ok(Some(chain))
            }
        },
    }
}

/// Reads the WHERE clause that starts at position `at` of `words`, if one
/// starts there.
pub fn parse_where(words: &Vec<String>, at: usize) -> (r: Result<Option<Condition>, DbError>)
    ensures
        cond_result_view(r) == where_spec(views(words@), at as int),
{
    if at < words.len() {
        if word_is(words[at].as_str(), "WHERE") {
            return parse_chain(words, at + 1, None);
        }
    }
    Ok(None)
}

/// The position of the first word from `from` on that is the keyword
/// `keyword`, or the number of words where there is none.
pub open spec fn keyword_position(words: Seq<Seq<char>>, keyword: Seq<char>, from: int) -> int
    decreases words.len() - from,
{
    if from < 0 || from >= words.len() {
        words.len() as int
    } else if is_keyword(words[from], keyword) {
        from
    } else {
        keyword_position(words, keyword, from + 1)
    }
}

/// The items of the bracketed list written in the words from `lo` up to,
/// not including, `hi`.
pub open spec fn list_between(words: Seq<Seq<char>>, lo: int, hi: int) -> Seq<Seq<char>>
    decreases hi - lo,
{
    if lo >= hi {
        Seq::empty()
    } else {
        list_between(words, lo, hi - 1) + list_items_spec(words[hi - 1])
    }
}

/// A statement that carries a condition, or the error of reading it.
pub open spec fn with_condition(
    condition: Result<Option<Cond>, DbError>,
    build: spec_fn(Option<Cond>) -> Stmt,
) -> Result<Stmt, DbError> {
    match condition {
        Ok(c) => Ok(build(c)),
        Err(e) => Err(e),
    }
}

/// `SELECT <col>.. FROM <table> [WHERE ..]`: the columns are the words
/// between `SELECT` and the first `FROM`, as written, and there is at least
/// one; the table is the word after `FROM`.
pub open spec fn select_spec(words: Seq<Seq<char>>) -> Result<Stmt, DbError> {
    let from = keyword_position(words, "FROM"@, 0);
    if from <= 1 || from + 1 >= words.len() {
        Err(DbError::ParseError)
    } else {
        with_condition(
            where_spec(words, from + 2),
            |c: Option<Cond>|
                Stmt::Select { table: words[from + 1], columns: words.subrange(1, from), condition: c },
        )
    }
}

/// `INSERT INTO <table> (<col>,..) VALUES (<val>,..)`: the table is the
/// word after the first `INTO`, the columns are listed between it and the
/// first `VALUES`, the values after that.
pub open spec fn insert_spec(words: Seq<Seq<char>>) -> Result<Stmt, DbError> {
    let into = keyword_position(words, "INTO"@, 0);
    let values = keyword_position(words, "VALUES"@, 0);
    if into >= words.len() || values >= words.len() || into + 2 > values {
        Err(DbError::ParseError)
    } else {
        Ok(
            Stmt::Insert {
                table: words[into + 1],
                columns: list_between(words, into + 2, values),
                values: list_between(words, values + 1, words.len() as int),
            },
        )
    }
}

/// `UPDATE <table> SET <col> = <val> [WHERE ..]`: the table is the second
/// word; the column and the value are the first and the third word after
/// the first `SET`, and the word between them is not looked at.
pub open spec fn update_spec(words: Seq<Seq<char>>) -> Result<Stmt, DbError> {
    let set = keyword_position(words, "SET"@, 0);
    if set + 3 >= words.len() {
        Err(DbError::ParseError)
    } else {
        with_condition(
            where_spec(words, set + 4),
            |c: Option<Cond>|
                Stmt::Update {
                    table: words[1],
                    column: words[set + 1],
                    value: words[set + 3],
                    condition: c,
                },
        )
    }
}

/// `DELETE FROM <table> [WHERE ..]`: the table is the word after the first
/// `FROM`.
pub open spec fn delete_spec(words: Seq<Seq<char>>) -> Result<Stmt, DbError> {
    let from = keyword_position(words, "FROM"@, 0);
    if from + 1 >= words.len() {
        Err(DbError::ParseError)
    } else {
        with_condition(
            where_spec(words, from + 2),
            |c: Option<Cond>| Stmt::Delete { table: words[from + 1], condition: c },
        )
    }
}

/// The statement that a line of words stands for. The first word names the
/// verb; a line without words, or one whose clause is cut short or lacks
/// its keyword, is a parse error, and a line with another first word is
/// unsupported.
pub open spec fn statement_spec(words: Seq<Seq<char>>) -> Result<Stmt, DbError> {
    if words.len() == 0 {
        Err(DbError::ParseError)
    } else if is_keyword(words[0], "SELECT"@) {
        select_spec(words)
    } else if is_keyword(words[0], "INSERT"@) {
        insert_spec(words)
    } else if is_keyword(words[0], "UPDATE"@) {
        update_spec(words)
    } else if is_keyword(words[0], "DELETE"@) {
        delete_spec(words)
    } else {
        Err(DbError::UnsupportedStatement)
    }
}

/// The view of a parsed statement or its error.
pub open spec fn statement_result_view(r: Result<SqlStatement, DbError>) -> Result<Stmt, DbError> {
    match r {
        Ok(s) => Ok(s@),
        Err(e) => Err(e),
    }
}

/// The position of the first word that is the keyword `keyword`, or the
/// number of words where there is none.
pub fn find_keyword(words: &Vec<String>, keyword: &str) -> (r: usize)
    ensures
        r == keyword_position(views(words@), keyword@, 0),
        r <= words@.len(),
{
    let mut i: usize = 0;
    while i < words.len()
        invariant
            i <= words@.len(),
            keyword_position(views(words@), keyword@, 0) == keyword_position(
                views(words@),
                keyword@,
                i as int,
            ),
        decreases words@.len() - i,
    {
        if word_is(words[i].as_str(), keyword) {
            return i;
        }
        i += 1;
    }
    i
}

/// Copies of the words from `lo` up to, not including, `hi`.
pub fn copy_words(words: &Vec<String>, lo: usize, hi: usize) -> (r: Vec<String>)
    requires
        lo <= hi <= words@.len(),
    ensures
        views(r@) == views(words@).subrange(lo as int, hi as int),
{
    let mut out: Vec<String> = Vec::new();
    let mut i: usize = lo;
    while i < hi
        invariant
            lo <= i <= hi <= words@.len(),
            out@.len() == i - lo,
            forall|j: int| 0 <= j < out@.len() ==> (#[trigger] out@[j])@ == words@[lo + j]@,
        decreases hi - i,
    {
        out.push(words[i].clone());
        i += 1;
    }
    out
}

/// The items of the bracketed list written in the words from `lo` up to,
/// not including, `hi`.
pub fn collect_list(words: &Vec<String>, lo: usize, hi: usize) -> (r: Vec<String>)
    requires
        hi <= words@.len(),
    ensures
        views(r@) == list_between(views(words@), lo as int, hi as int),
{
    let mut out: Vec<String> = Vec::new();
    if lo >= hi {
        return out;
    }
    let mut i: usize = lo;
    while i < hi
        invariant
            lo <= i <= hi <= words@.len(),
            views(out@) == list_between(views(words@), lo as int, i as int),
        decreases hi - i,
    {
        let items = list_items(words[i].as_str());
        let ghost start = out@;
        let mut k: usize = 0;
        while k < items.len()
            invariant
                k <= items@.len(),
                views(out@) == views(start) + views(items@).subrange(0, k as int),
            decreases items@.len() - k,
        {
            let ghost before = out@;
            out.push(items[k].clone());
            proof {
                assert(views(out@) =~= views(before).push(items@[k as int]@));
                assert(views(items@).subrange(0, k + 1) =~= views(items@).subrange(0, k as int).push(
                    items@[k as int]@,
                ));
            }
            k += 1;
        }
        i += 1;
    }
    out
}

/// Builds the statement that a line of words stands for.
pub fn parse_statement(words: &Vec<String>) -> (r: Result<SqlStatement, DbError>)
    ensures
        statement_result_view(r) == statement_spec(views(words@)),
{
    let n = words.len();
    if n == 0 {
        return Err(DbError::ParseError);
    }
    let verb = words[0].as_str();
    if word_is(verb, "SELECT") {
        let from = find_keyword(words, "FROM");
        if from <= 1 || n - from <= 1 {
            return Err(DbError::ParseError);
        }
        match parse_where(words, from + 2) {
            Ok(condition) => Ok(
                SqlStatement::Select {
                    table: words[from + 1].clone(),
                    columns: copy_words(words, 1, from),
                    condition,
                },
            ),
            Err(e) => Err(e),
        }
    } else if word_is(verb, "INSERT") {
        let into = find_keyword(words, "INTO");
        let values = find_keyword(words, "VALUES");
        if into >= n || values >= n || values < into || values - into < 2 {
            return Err(DbError::ParseError);
        }
        Ok(
            SqlStatement::Insert {
                table: words[into + 1].clone(),
                columns: collect_list(words, into + 2, values),
                values: collect_list(words, values + 1, n),
            },
        )
    } else if word_is(verb, "UPDATE") {
        let set = find_keyword(words, "SET");
        if set >= n || n - set <= 3 {
            return Err(DbError::ParseError);
        }
        match parse_where(words, set + 4) {
            Ok(condition) => Ok(
                SqlStatement::Update {
                    table: words[1].clone(),
                    column: words[set + 1].clone(),
                    value: words[set + 3].clone(),
                    condition,
                },
            ),
            Err(e) => Err(e),
        }
    } else if word_is(verb, "DELETE") {
        let from = find_keyword(words, "FROM");
        if from >= n || n - from <= 1 {
            return Err(DbError::ParseError);
        }
        match parse_where(words, from + 2) {
            Ok(condition) => Ok(SqlStatement::Delete { table: words[from + 1].clone(), condition }),
            Err(e) => Err(e),
        }
    } else {
        Err(DbError::UnsupportedStatement)
    }
}

} // verus!
