//! The database: a set of tables, each under its own name.

use vstd::prelude::*;
use crate::condition::{opt_view, Condition};
use crate::engine::{evaluate, ids_of, matching, selected, zip_columns, zipped};
use crate::error::DbError;
use crate::record::{all_wf, record_views, Record, RecordView};
use crate::row::RowData;
use crate::snapshot::{
    database_of, decode, decoded, encode, encoded, lemma_snapshot_valid_prefix, snapshot_valid,
    PlainTable, StoredTable,
};
use crate::table::{next_id, Table, TableView};
use crate::parser::{
    cond_result_view, parse_statement, parse_where, statement_result_view, statement_spec,
    where_spec, SqlStatement, Stmt,
};
use crate::text::{split_words, str_eq, views, whitespace_split};

verus! {

/// A database as plain mathematics: its tables by name.
pub type DbView = Map<Seq<char>, TableView>;

/// The mapping from names to tables that a sequence of tables stands for.
pub open spec fn by_name(tables: Seq<Table>) -> DbView
    decreases tables.len(),
{
    if tables.len() == 0 {
        Map::empty()
    } else {
        by_name(tables.drop_last()).insert(tables.last()@.name, tables.last()@)
    }
}

/// No two of the tables share a name.
pub open spec fn distinct_tables(tables: Seq<Table>) -> bool {
    forall|i: int, j: int|
        0 <= i < j < tables.len() ==> (#[trigger] tables[i])@.name != (#[trigger] tables[j])@.name
}

/// Whether one of the tables is named `name`.
pub open spec fn has_table(tables: Seq<Table>, name: Seq<char>) -> bool {
    exists|i: int| 0 <= i < tables.len() && (#[trigger] tables[i])@.name == name
}

/// The mapping's keys are exactly the names of the tables.
pub proof fn lemma_by_name_dom(tables: Seq<Table>, name: Seq<char>)
    ensures
        by_name(tables).dom().contains(name) <==> has_table(tables, name),
    decreases tables.len(),
{
    if tables.len() > 0 {
        let init = tables.drop_last();
        lemma_by_name_dom(init, name);
        if has_table(tables, name) && tables.last()@.name != name {
            let i = choose|i: int| 0 <= i < tables.len() && (#[trigger] tables[i])@.name == name;
            assert(init[i]@.name == name);
        }
    }
}

/// Dropping the last of tables with distinct names leaves distinct names.
pub proof fn lemma_distinct_init(tables: Seq<Table>)
    requires
        distinct_tables(tables),
        tables.len() > 0,
    ensures
        distinct_tables(tables.drop_last()),
{
}

/// With distinct names, the mapping gives each table under its own name.
pub proof fn lemma_by_name_value(tables: Seq<Table>, i: int)
    requires
        distinct_tables(tables),
        0 <= i < tables.len(),
    ensures
        by_name(tables).dom().contains(tables[i]@.name),
        by_name(tables)[tables[i]@.name] == tables[i]@,
    decreases tables.len(),
{
    let init = tables.drop_last();
    if i < tables.len() - 1 {
        lemma_distinct_init(tables);
        lemma_by_name_value(init, i);
    }
}

/// Replacing a table by one of the same name replaces what the mapping
/// gives under that name and changes nothing else.
pub proof fn lemma_by_name_update(tables: Seq<Table>, i: int, t: Table)
    requires
        distinct_tables(tables),
        0 <= i < tables.len(),
        t@.name == tables[i]@.name,
    ensures
        distinct_tables(tables.update(i, t)),
        by_name(tables.update(i, t)) == by_name(tables).insert(t@.name, t@),
{
    let after = tables.update(i, t);
    let want = by_name(tables).insert(t@.name, t@);
    assert forall|k: Seq<char>| by_name(after).dom().contains(k) <==> want.dom().contains(k) by {
        lemma_by_name_dom(after, k);
        lemma_by_name_dom(tables, k);
        if has_table(tables, k) {
            let a = choose|a: int| 0 <= a < tables.len() && (#[trigger] tables[a])@.name == k;
            assert(after[a]@.name == k);
        }
    }
    assert forall|k: Seq<char>| by_name(after).dom().contains(k) implies by_name(after)[k]
        == want[k] by {
        lemma_by_name_dom(after, k);
        let a = choose|a: int| 0 <= a < after.len() && (#[trigger] after[a])@.name == k;
        lemma_by_name_value(after, a);
        lemma_by_name_value(tables, a);
    }
}

/// With distinct names there are as many keys as tables.
pub proof fn lemma_by_name_len(tables: Seq<Table>)
    requires
        distinct_tables(tables),
    ensures
        by_name(tables).dom().finite(),
        by_name(tables).dom().len() == tables.len(),
    decreases tables.len(),
{
    if tables.len() > 0 {
        let init = tables.drop_last();
        lemma_distinct_init(tables);
        lemma_by_name_len(init);
        lemma_by_name_dom(init, tables.last()@.name);
    }
}

/// The empty table of a given name.
pub open spec fn empty_table(name: Seq<char>) -> TableView {
    TableView { name, records: Seq::empty(), index: Map::empty() }
}

/// A set of named tables.
#[derive(Debug)]
pub struct Database {
    tables: Vec<Table>,
}

impl View for Database {
    type V = DbView;

    closed spec fn view(&self) -> DbView {
        by_name(self.tables@)
    }
}

impl Database {
    /// The representation invariant: every table is well formed and no
    /// name is held twice.
    pub closed spec fn wf(&self) -> bool {
        &&& distinct_tables(self.tables@)
        &&& forall|i: int| 0 <= i < self.tables@.len() ==> (#[trigger] self.tables@[i]).wf()
    }

    /// Every table stands under its own name and its index is consistent
    /// with its records.
    pub proof fn lemma_tables_consistent(&self, name: Seq<char>)
        requires
            self.wf(),
            self@.contains_key(name),
        ensures
            self@[name].name == name,
            self@[name].consistent(),
    {
        lemma_by_name_dom(self.tables@, name);
        let i = choose|i: int| 0 <= i < self.tables@.len() && (#[trigger] self.tables@[i])@.name == name;
        lemma_by_name_value(self.tables@, i);
        self.tables@[i].lemma_view_records();
    }

    /// A database without tables.
    pub fn new() -> (db: Database)
        ensures
            db.wf(),
            db@ == Map::<Seq<char>, TableView>::empty(),
    {
        Database { tables: Vec::new() }
    }

    /// The position of the table named `name`, if there is one.
    fn find(&self, name: &str) -> (r: Option<usize>)
        requires
            self.wf(),
        ensures
            r is Some == self@.contains_key(name@),
            r is Some ==> r->0 < self.tables@.len() && self.tables@[r->0 as int]@.name == name@
                && self@[name@] == self.tables@[r->0 as int]@,
    {
        let mut i: usize = 0;
        while i < self.tables.len()
            invariant
                i <= self.tables@.len(),
                self.wf(),
                forall|j: int| 0 <= j < i ==> (#[trigger] self.tables@[j])@.name != name@,
            decreases self.tables@.len() - i,
        {
            if str_eq(self.tables[i].name().as_str(), name) {
                proof {
                    lemma_by_name_value(self.tables@, i as int);
                }
                return Some(i);
            }
            i += 1;
        }
        proof {
            lemma_by_name_dom(self.tables@, name@);
        }
        None
    }

    /// Registers an empty table under `name`, unless the name is taken.
    pub fn create_table(&mut self, name: String) -> (r: Result<(), DbError>)
        requires
            old(self).wf(),
        ensures
            final(self).wf(),
            r == create(old(self)@, name@).answer,
            final(self)@ == create(old(self)@, name@).db,
    {
        if self.find(name.as_str()).is_some() {
            return Err(DbError::TableAlreadyExists);
        }
        let ghost before = self.tables@;
        proof {
            lemma_by_name_dom(before, name@);
        }
        self.tables.push(Table::new(name));
        proof {
            assert(self.tables@.drop_last() =~= before);
        }
        Ok(())
    }

    /// Appends a record to the table `table_name`, unless its id is
    /// indexed there already.
    pub fn insert(&mut self, table_name: &str, id: u64, data: RowData) -> (r: Result<(), DbError>)
        requires
            old(self).wf(),
            data.wf(),
        ensures
            final(self).wf(),
            r == insert_record(old(self)@, table_name@, id, data@).answer,
            final(self)@ == insert_record(old(self)@, table_name@, id, data@).db,
    {
        let i = match self.find(table_name) {
            Some(i) => i,
            None => {
                return Err(DbError::TableNotFound);
            },
        };
        let ghost before = self.tables@;
        let r = self.tables[i].insert(id, data);
        proof {
            lemma_by_name_update(before, i as int, self.tables@[i as int]);
            if r is Ok {
                assert(r->Ok_0 == ());
            }
        }
        r
    }
}

impl Database {
    /// The records of the table `name` as they are held, in storage order.
    pub closed spec fn stored(&self, name: Seq<char>) -> Seq<Record> {
        let i = choose|i: int| 0 <= i < self.tables@.len() && (#[trigger] self.tables@[i])@.name == name;
        self.tables@[i].spec_records()
    }

    /// The records held for a table are well formed, and their views are
    /// the records of the table's view.
    pub proof fn lemma_stored(&self, name: Seq<char>)
        requires
            self.wf(),
            self@.contains_key(name),
        ensures
            all_wf(self.stored(name)),
            record_views(self.stored(name)) == self@[name].records,
    {
        lemma_by_name_dom(self.tables@, name);
        let i = choose|i: int| 0 <= i < self.tables@.len() && (#[trigger] self.tables@[i])@.name == name;
        lemma_by_name_value(self.tables@, i);
        self.tables@[i].lemma_view_records();
    }

    /// What is held at the position that `find` gave is what `stored` names.
    proof fn lemma_stored_at(&self, name: Seq<char>, i: int)
        requires
            self.wf(),
            0 <= i < self.tables@.len(),
            self.tables@[i]@.name == name,
        ensures
            self.stored(name) == self.tables@[i].spec_records(),
    {
    }

    /// The record indexed under `id` in the table `table_name`; `None`
    /// where the table holds no such record, which is no error.
    pub fn get(&self, table_name: &str, id: u64) -> (r: Result<Option<&Record>, DbError>)
        requires
            self.wf(),
        ensures
            lookup_view(r) == get_record(self@, table_name@, id),
            r is Ok && r->Ok_0 is Some ==> r->Ok_0->0.wf(),
    {
        match self.find(table_name) {
            Some(i) => Ok(self.tables[i].get(id)),
            None => Err(DbError::TableNotFound),
        }
    }

    /// All records of the table `table_name`, in storage order.
    pub fn get_all(&self, table_name: &str) -> (r: Result<Vec<&Record>, DbError>)
        requires
            self.wf(),
        ensures
            r is Ok == self@.contains_key(table_name@),
            r is Err ==> r->Err_0 == DbError::TableNotFound,
            r is Ok ==> r->Ok_0@.len() == self@[table_name@].records.len(),
            r is Ok ==> forall|i: int|
                0 <= i < r->Ok_0@.len() ==> (#[trigger] r->Ok_0@[i])@ == self@[table_name@].records[i]
                    && r->Ok_0@[i].wf(),
    {
        match self.find(table_name) {
            Some(i) => Ok(self.tables[i].get_all()),
            None => Err(DbError::TableNotFound),
        }
    }

    /// Replaces the columns of the record indexed under `id` in the table
    /// `table_name` as a whole.
    pub fn update(&mut self, table_name: &str, id: u64, data: RowData) -> (r: Result<(), DbError>)
        requires
            old(self).wf(),
            data.wf(),
        ensures
            final(self).wf(),
            r == update_record(old(self)@, table_name@, id, data@).answer,
            final(self)@ == update_record(old(self)@, table_name@, id, data@).db,
    {
        let i = match self.find(table_name) {
            Some(i) => i,
            None => {
                return Err(DbError::TableNotFound);
            },
        };
        let ghost before = self.tables@;
        let r = self.tables[i].update(id, data);
        proof {
            lemma_by_name_update(before, i as int, self.tables@[i as int]);
            if r is Ok {
                assert(r->Ok_0 == ());
            }
        }
        r
    }

    /// Removes the record indexed under `id` from the table `table_name`;
    /// the records behind it move one position down.
    pub fn delete(&mut self, table_name: &str, id: u64) -> (r: Result<(), DbError>)
        requires
            old(self).wf(),
        ensures
            final(self).wf(),
            r == delete_record(old(self)@, table_name@, id).answer,
            final(self)@ == delete_record(old(self)@, table_name@, id).db,
    {
        let i = match self.find(table_name) {
            Some(i) => i,
            None => {
                return Err(DbError::TableNotFound);
            },
        };
        let ghost before = self.tables@;
        let r = self.tables[i].delete(id);
        proof {
            lemma_by_name_update(before, i as int, self.tables@[i as int]);
            if r is Ok {
                assert(r->Ok_0 == ());
            }
        }
        r
    }

    /// The names of the tables, each once, in no particular order.
    pub fn list_tables(&self) -> (r: Vec<&str>)
        requires
            self.wf(),
        ensures
            r@.len() == self@.dom().len(),
            forall|i: int| 0 <= i < r@.len() ==> self@.contains_key((#[trigger] r@[i])@),
            forall|name: Seq<char>|
                self@.contains_key(name) ==> exists|i: int|
                    0 <= i < r@.len() && (#[trigger] r@[i])@ == name,
            forall|i: int, j: int| 0 <= i < j < r@.len() ==> (#[trigger] r@[i])@ != (#[trigger] r@[j])@,
    {
        let mut out: Vec<&str> = Vec::new();
        let mut i: usize = 0;
        while i < self.tables.len()
            invariant
                i <= self.tables@.len(),
                out@.len() == i,
                forall|j: int| 0 <= j < i ==> (#[trigger] out@[j])@ == self.tables@[j]@.name,
            decreases self.tables@.len() - i,
        {
            out.push(self.tables[i].name().as_str());
            i += 1;
        }
        proof {
            lemma_by_name_len(self.tables@);
            assert forall|j: int| 0 <= j < out@.len() implies self@.contains_key(
                (#[trigger] out@[j])@,
            ) by {
                lemma_by_name_value(self.tables@, j);
            }
            assert forall|name: Seq<char>| self@.contains_key(name) implies exists|j: int|
                0 <= j < out@.len() && (#[trigger] out@[j])@ == name by {
                lemma_by_name_dom(self.tables@, name);
                let k = choose|k: int|
                    0 <= k < self.tables@.len() && (#[trigger] self.tables@[k])@.name == name;
                assert(out@[k]@ == name);
            }
        }
        out
    }

    /// The records of the table `table_name` for which `keep` answers
    /// true, in storage order.
    pub fn query<F: Fn(&Record) -> bool>(&self, table_name: &str, keep: F) -> (r: Result<
        Vec<&Record>,
        DbError,
    >)
        requires
            self.wf(),
            forall|record: &Record| record.wf() ==> #[trigger] keep.requires((record,)),
        ensures
            r is Ok == self@.contains_key(table_name@),
            r is Err ==> r->Err_0 == DbError::TableNotFound,
            r is Ok ==> crate::table::kept_by(self.stored(table_name@), keep, r->Ok_0@),
            r is Ok ==> forall|i: int| 0 <= i < r->Ok_0@.len() ==> (#[trigger] r->Ok_0@[i]).wf(),
    {
        match self.find(table_name) {
            Some(i) => {
                proof {
                    self.lemma_stored_at(table_name@, i as int);
                }
                Ok(self.tables[i].query(keep))
            },
            None => Err(DbError::TableNotFound),
        }
    }
}

/// What an operation leaves of the database and what it answers.
pub ghost struct Change {
    pub db: DbView,
    pub answer: Result<(), DbError>,
}

/// An operation that fails changes nothing.
pub open spec fn refused(db: DbView, e: DbError) -> Change {
    Change { db, answer: Err(e) }
}

/// Creating a table registers an empty table under a name that is free,
/// and fails on a name that is taken.
pub open spec fn create(db: DbView, name: Seq<char>) -> Change {
    if db.contains_key(name) {
        refused(db, DbError::TableAlreadyExists)
    } else {
        Change { db: db.insert(name, empty_table(name)), answer: Ok(()) }
    }
}

/// Inserting appends a record to a table and indexes it, and fails where
/// the table is missing or the id is indexed already.
pub open spec fn insert_record(
    db: DbView,
    table: Seq<char>,
    id: u64,
    data: Map<Seq<char>, Seq<char>>,
) -> Change {
    if !db.contains_key(table) {
        refused(db, DbError::TableNotFound)
    } else if db[table].contains(id) {
        refused(db, DbError::RecordAlreadyExists)
    } else {
        Change { db: db.insert(table, db[table].inserted(id, data)), answer: Ok(()) }
    }
}

/// Updating replaces the columns of an indexed record, and fails where
/// the table is missing or the id is not indexed.
pub open spec fn update_record(
    db: DbView,
    table: Seq<char>,
    id: u64,
    data: Map<Seq<char>, Seq<char>>,
) -> Change {
    if !db.contains_key(table) {
        refused(db, DbError::TableNotFound)
    } else if !db[table].contains(id) {
        refused(db, DbError::RecordNotFound)
    } else {
        Change { db: db.insert(table, db[table].updated(id, data)), answer: Ok(()) }
    }
}

/// Deleting removes an indexed record and closes the gap, and fails where
/// the table is missing or the id is not indexed.
pub open spec fn delete_record(db: DbView, table: Seq<char>, id: u64) -> Change {
    if !db.contains_key(table) {
        refused(db, DbError::TableNotFound)
    } else if !db[table].contains(id) {
        refused(db, DbError::RecordNotFound)
    } else {
        Change { db: db.insert(table, db[table].deleted(id)), answer: Ok(()) }
    }
}

/// Looking up an id gives the indexed record or nothing, and fails where
/// the table is missing.
pub open spec fn get_record(db: DbView, table: Seq<char>, id: u64) -> Result<
    Option<RecordView>,
    DbError,
> {
    if !db.contains_key(table) {
        Err(DbError::TableNotFound)
    } else if db[table].contains(id) {
        Ok(Some(db[table].record_of(id)))
    } else {
        Ok(None)
    }
}

/// The view of what a lookup gave.
pub open spec fn lookup_view(r: Result<Option<&Record>, DbError>) -> Result<
    Option<RecordView>,
    DbError,
> {
    match r {
        Ok(Some(record)) => Ok(Some(record@)),
        Ok(None) => Ok(None),
        Err(e) => Err(e),
    }
}

/// What a statement leaves of the database and what it answers.
pub ghost struct Outcome {
    pub db: DbView,
    pub answer: Result<Seq<RecordView>, DbError>,
}

/// A statement on a table that is not there changes nothing and fails.
pub open spec fn no_table(db: DbView) -> Outcome {
    Outcome { db, answer: Err(DbError::TableNotFound) }
}

/// Selecting reads the table and changes nothing.
pub open spec fn run_select(
    db: DbView,
    table: Seq<char>,
    columns: Seq<Seq<char>>,
    condition: Option<crate::condition::Cond>,
) -> Outcome {
    if !db.contains_key(table) {
        no_table(db)
    } else {
        Outcome { db, answer: Ok(selected(db[table].records, columns, condition)) }
    }
}

/// Inserting appends one record, whose id is the table's record count
/// plus one and whose columns pair the listed columns with the listed
/// values, and answers with that record.
pub open spec fn run_insert(
    db: DbView,
    table: Seq<char>,
    columns: Seq<Seq<char>>,
    values: Seq<Seq<char>>,
) -> Outcome {
    if !db.contains_key(table) {
        no_table(db)
    } else {
        let id = next_id(db[table].records.len());
        let data = zipped(columns, values);
        Outcome {
            db: db.insert(table, db[table].inserted(id, data)),
            answer: Ok(seq![RecordView { id, data }]),
        }
    }
}

/// Updating sets one column in the records that satisfy the condition and
/// have the column, and answers with the records it changed.
pub open spec fn run_update(
    db: DbView,
    table: Seq<char>,
    column: Seq<char>,
    value: Seq<char>,
    condition: Option<crate::condition::Cond>,
) -> Outcome {
    if !db.contains_key(table) {
        no_table(db)
    } else {
        let ids = ids_of(matching(db[table].records, condition));
        Outcome {
            db: db.insert(table, db[table].update_each(ids, column, value)),
            answer: Ok(db[table].update_reports(ids, column, value)),
        }
    }
}

/// Deleting removes the records that satisfy the condition and answers
/// with them.
pub open spec fn run_delete(
    db: DbView,
    table: Seq<char>,
    condition: Option<crate::condition::Cond>,
) -> Outcome {
    if !db.contains_key(table) {
        no_table(db)
    } else {
        let ids = ids_of(matching(db[table].records, condition));
        Outcome {
            db: db.insert(table, db[table].delete_each(ids)),
            answer: Ok(db[table].delete_reports(ids)),
        }
    }
}

/// What running a statement leaves and answers.
pub open spec fn run(db: DbView, statement: Stmt) -> Outcome {
    match statement {
        Stmt::Select { table, columns, condition } => run_select(db, table, columns, condition),
        Stmt::Insert { table, columns, values } => run_insert(db, table, columns, values),
        Stmt::Update { table, column, value, condition } => run_update(
            db,
            table,
            column,
            value,
            condition,
        ),
        Stmt::Delete { table, condition } => run_delete(db, table, condition),
    }
}

/// What running a line of words leaves and answers: a line that is no
/// statement changes nothing and answers with its parse error.
pub open spec fn run_words(db: DbView, words: Seq<Seq<char>>) -> Outcome {
    match statement_spec(words) {
        Ok(statement) => run(db, statement),
        Err(e) => Outcome { db, answer: Err(e) },
    }
}

/// The view of a statement's answer.
pub open spec fn answer_view(r: Result<Vec<Record>, DbError>) -> Result<Seq<RecordView>, DbError> {
    match r {
        Ok(records) => Ok(record_views(records@)),
        Err(e) => Err(e),
    }
}

/// Every record of an answer is well formed.
pub open spec fn answer_wf(r: Result<Vec<Record>, DbError>) -> bool {
    r is Ok ==> all_wf(r->Ok_0@)
}

impl Database {
    /// Splits a line of text into words and builds the statement that they
    /// stand for.
    pub fn parse_sql(&self, sql: &str) -> (r: Result<SqlStatement, DbError>)
        ensures
            statement_result_view(r) == statement_spec(whitespace_split(sql@)),
    {
        let words = split_words(sql);
        parse_statement(&words)
    }

    /// Reads the WHERE clause that starts at position `at` of `words`, if
    /// one starts there.
    pub fn parse_where_clause(&self, words: &Vec<String>, at: usize) -> (r: Result<
        Option<Condition>,
        DbError,
    >)
        ensures
            cond_result_view(r) == where_spec(views(words@), at as int),
    {
        parse_where(words, at)
    }

    /// Whether a record satisfies an optional condition.
    pub fn evaluate_condition(&self, record: &Record, condition: &Option<Condition>) -> (r: bool)
        requires
            record.wf(),
        ensures
            r == crate::condition::holds_opt(opt_view(*condition), record@.data),
    {
        evaluate(record, condition)
    }

    /// Runs a selection on the table `table`.
    pub fn execute_select(
        &self,
        table: &str,
        columns: &Vec<String>,
        condition: Option<Condition>,
    ) -> (r: Result<Vec<Record>, DbError>)
        requires
            self.wf(),
        ensures
            answer_wf(r),
            answer_view(r) == run_select(self@, table@, views(columns@), opt_view(condition)).answer,
    {
        match self.find(table) {
            Some(i) => Ok(self.tables[i].select(columns, &condition)),
            None => Err(DbError::TableNotFound),
        }
    }

    /// Runs an insertion on the table `table`.
    pub fn execute_insert(&mut self, table: &str, columns: &Vec<String>, values: &Vec<String>) -> (r:
        Result<Vec<Record>, DbError>)
        requires
            old(self).wf(),
        ensures
            final(self).wf(),
            answer_wf(r),
            answer_view(r) == run_insert(old(self)@, table@, views(columns@), views(values@)).answer,
            final(self)@ == run_insert(old(self)@, table@, views(columns@), views(values@)).db,
            r is Ok ==> r->Ok_0@.len() == 1 && r->Ok_0@[0]@.id == old(self)@[table@].records.len() + 1,
    {
        let i = match self.find(table) {
            Some(i) => i,
            None => {
                return Err(DbError::TableNotFound);
            },
        };
        let ghost before = self.tables@;
        let data = zip_columns(columns, values);
        let record = self.tables[i].insert_next(data);
        proof {
            lemma_by_name_update(before, i as int, self.tables@[i as int]);
        }
        let mut out: Vec<Record> = Vec::new();
        out.push(record);
        assert(record_views(out@) =~= seq![record@]);
        Ok(out)
    }

    /// Runs an update on the table `table`.
    pub fn execute_update(
        &mut self,
        table: &str,
        column: &str,
        value: &str,
        condition: Option<Condition>,
    ) -> (r: Result<Vec<Record>, DbError>)
        requires
            old(self).wf(),
        ensures
            final(self).wf(),
            answer_wf(r),
            answer_view(r) == run_update(old(self)@, table@, column@, value@, opt_view(condition)).answer,
            final(self)@ == run_update(old(self)@, table@, column@, value@, opt_view(condition)).db,
    {
        let i = match self.find(table) {
            Some(i) => i,
            None => {
                return Err(DbError::TableNotFound);
            },
        };
        let ghost before = self.tables@;
        let out = self.tables[i].update_where(column, value, &condition);
        proof {
            lemma_update_each_name(
                before[i as int]@,
                ids_of(matching(before[i as int]@.records, opt_view(condition))),
                column@,
                value@,
            );
            lemma_by_name_update(before, i as int, self.tables@[i as int]);
        }
        Ok(out)
    }

    /// Runs a removal on the table `table`.
    pub fn execute_delete(&mut self, table: &str, condition: Option<Condition>) -> (r: Result<
        Vec<Record>,
        DbError,
    >)
        requires
            old(self).wf(),
        ensures
            final(self).wf(),
            answer_wf(r),
            answer_view(r) == run_delete(old(self)@, table@, opt_view(condition)).answer,
            final(self)@ == run_delete(old(self)@, table@, opt_view(condition)).db,
    {
        let i = match self.find(table) {
            Some(i) => i,
            None => {
                return Err(DbError::TableNotFound);
            },
        };
        let ghost before = self.tables@;
        let out = self.tables[i].delete_where(&condition);
        proof {
            lemma_delete_each_name(
                before[i as int]@,
                ids_of(matching(before[i as int]@.records, opt_view(condition))),
            );
            lemma_by_name_update(before, i as int, self.tables@[i as int]);
        }
        Ok(out)
    }

    /// Runs a parsed statement.
    pub fn execute(&mut self, statement: SqlStatement) -> (r: Result<Vec<Record>, DbError>)
        requires
            old(self).wf(),
        ensures
            final(self).wf(),
            answer_wf(r),
            answer_view(r) == run(old(self)@, statement@).answer,
            final(self)@ == run(old(self)@, statement@).db,
    {
        match statement {
            SqlStatement::Select { table, columns, condition } => self.execute_select(
                table.as_str(),
                &columns,
                condition,
            ),
            SqlStatement::Insert { table, columns, values } => self.execute_insert(
                table.as_str(),
                &columns,
                &values,
            ),
            SqlStatement::Update { table, column, value, condition } => self.execute_update(
                table.as_str(),
                column.as_str(),
                value.as_str(),
                condition,
            ),
            SqlStatement::Delete { table, condition } => self.execute_delete(table.as_str(), condition),
        }
    }

    /// Parses one line of text and runs the statement that it holds.
    pub fn execute_sql(&mut self, sql: &str) -> (r: Result<Vec<Record>, DbError>)
        requires
            old(self).wf(),
        ensures
            final(self).wf(),
            answer_wf(r),
            answer_view(r) == run_words(old(self)@, whitespace_split(sql@)).answer,
            final(self)@ == run_words(old(self)@, whitespace_split(sql@)).db,
    {
        match self.parse_sql(sql) {
            Ok(statement) => self.execute(statement),
            Err(e) => Err(e),
        }
    }
}

impl Database {
    /// The database as the plain values that `export` hands out.
    pub closed spec fn snapshot(&self) -> Seq<PlainTable> {
        Seq::new(self.tables@.len(), |i: int| self.tables@[i].snapshot())
    }

    /// The whole database as plain values.
    pub fn export(&self) -> (r: Vec<StoredTable>)
        requires
            self.wf(),
        ensures
            r.deep_view() == self.snapshot(),
            snapshot_valid(r.deep_view()),
            database_of(r.deep_view()) == self@,
    {
        let mut out: Vec<StoredTable> = Vec::new();
        let mut i: usize = 0;
        while i < self.tables.len()
            invariant
                i <= self.tables@.len(),
                self.wf(),
                out.deep_view() == self.snapshot().take(i as int),
                snapshot_valid(out.deep_view()),
                database_of(out.deep_view()) == by_name(self.tables@.take(i as int)),
            decreases self.tables@.len() - i,
        {
            let ghost before = out.deep_view();
            let table = self.tables[i].export();
            out.push(table);
            proof {
                let head = self.tables@.take(i as int);
                assert(out.deep_view().drop_last() =~= before);
                assert(self.tables@.take(i + 1).drop_last() =~= head);
                lemma_by_name_dom(head, self.tables@[i as int]@.name);
            }
            i += 1;
        }
        proof {
            assert(self.tables@.take(i as int) =~= self.tables@);
        }
        out
    }

    /// The database that a snapshot stands for. A snapshot that cannot be
    /// that of a database is refused as a whole.
    pub fn import(snapshot: &Vec<StoredTable>) -> (r: Result<Database, DbError>)
        ensures
            r is Ok == snapshot_valid(snapshot.deep_view()),
            r is Ok ==> r->Ok_0.wf() && r->Ok_0@ == database_of(snapshot.deep_view()),
            r is Err ==> r->Err_0 == DbError::PersistenceError,
    {
        let ghost all = snapshot.deep_view();
        let mut db = Database::new();
        let mut i: usize = 0;
        while i < snapshot.len()
            invariant
                i <= all.len(),
                all == snapshot.deep_view(),
                all.len() == snapshot@.len(),
                db.wf(),
                snapshot_valid(all.take(i as int)),
                db@ == database_of(all.take(i as int)),
            decreases all.len() - i,
        {
            proof {
                assert(all.take(i + 1).drop_last() =~= all.take(i as int));
                if snapshot_valid(all) {
                    lemma_snapshot_valid_prefix(all, i + 1);
                }
            }
            let table = match Table::import(&snapshot[i]) {
                Some(table) => table,
                None => {
                    return Err(DbError::PersistenceError);
                },
            };
            if db.find(table.name().as_str()).is_some() {
                return Err(DbError::PersistenceError);
            }
            let ghost before = db.tables@;
            proof {
                lemma_by_name_dom(before, table@.name);
            }
            db.tables.push(table);
            proof {
                assert(db.tables@.drop_last() =~= before);
            }
            i += 1;
        }
        assert(all.take(i as int) =~= all);
        Ok(db)
    }

    /// A copy of the database, made by way of its snapshot: what is taken
    /// out as plain values and put back is the same database.
    pub fn duplicate(&self) -> (r: Database)
        requires
            self.wf(),
        ensures
            r.wf(),
            r@ == self@,
    {
        let snapshot = self.export();
        match Database::import(&snapshot) {
            Ok(db) => db,
            Err(_) => Database::new(),
        }
    }

    /// The whole database as bytes, in the encoding of `bincode`. The
    /// database is only read, so a failure leaves it as it was.
    pub fn save(&self) -> (r: Result<Vec<u8>, DbError>)
        requires
            self.wf(),
        ensures
            snapshot_valid(self.snapshot()),
            database_of(self.snapshot()) == self@,
            match r {
                Ok(bytes) => encoded(self.snapshot()) == Some(bytes@),
                Err(e) => e == DbError::PersistenceError && encoded(self.snapshot()) is None,
            },
    {
        let snapshot = self.export();
        match encode(&snapshot) {
            Some(bytes) => Ok(bytes),
            None => Err(DbError::PersistenceError),
        }
    }

    /// The database that bytes hold. Bytes that cannot be decoded, or that
    /// decode to what is no database, give no database at all; bytes that
    /// are the encoding of a valid snapshot give the database of that
    /// snapshot.
    pub fn load(bytes: &[u8]) -> (r: Result<Database, DbError>)
        ensures
            r is Ok == (decoded(bytes@) is Some && snapshot_valid(decoded(bytes@)->0)),
            r is Ok ==> r->Ok_0.wf() && r->Ok_0@ == database_of(decoded(bytes@)->0),
            r is Err ==> r->Err_0 == DbError::PersistenceError,
            forall|tables: Seq<PlainTable>|
                #[trigger] encoded(tables) == Some(bytes@) && snapshot_valid(tables) ==> r is Ok
                    && r->Ok_0@ == database_of(tables),
    {
        match decode(bytes) {
            Some(snapshot) => Database::import(&snapshot),
            None => Err(DbError::PersistenceError),
        }
    }

    /// A copy of the database made by way of its bytes: what is saved and
    /// loaded back is the same database. It fails only where the encoder
    /// does.
    pub fn reload(&self) -> (r: Result<Database, DbError>)
        requires
            self.wf(),
        ensures
            r is Ok == encoded(self.snapshot()) is Some,
            r is Ok ==> r->Ok_0.wf() && r->Ok_0@ == self@,
            r is Err ==> r->Err_0 == DbError::PersistenceError,
    {
        match self.save() {
            Ok(bytes) => Database::load(bytes.as_slice()),
            Err(e) => Err(e),
        }
    }
}

/// Update steps leave a table's name as it is.
pub proof fn lemma_update_each_name(t: TableView, ids: Seq<u64>, column: Seq<char>, value: Seq<char>)
    ensures
        t.update_each(ids, column, value).name == t.name,
    decreases ids.len(),
{
    if ids.len() > 0 {
        lemma_update_each_name(t, ids.drop_last(), column, value);
    }
}

/// Removal steps leave a table's name as it is.
pub proof fn lemma_delete_each_name(t: TableView, ids: Seq<u64>)
    ensures
        t.delete_each(ids).name == t.name,
    decreases ids.len(),
{
    if ids.len() > 0 {
        lemma_delete_each_name(t, ids.drop_last());
    }
}

} // verus!
