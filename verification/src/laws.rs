//! What holds of the store across its operations, proved from the
//! definitions that the operations' contracts use.

use vstd::prelude::*;
use crate::condition::{holds, holds_opt, Cond};
use crate::database::{
    create, delete_record, empty_table, get_record, insert_record, run_words, DbView,
};
use crate::engine::{ids_of, lemma_filter_none, lemma_filter_step, matching, satisfies};
use crate::error::DbError;
use crate::parser::{
    chain_spec, comparison, is_keyword, keyword_position, statement_spec, where_spec,
};
use crate::record::RecordView;
use crate::table::TableView;
use crate::text::lex_lt;

verus! {

/// Creating a table a second time under the same name fails, and the
/// failed call leaves the tables as they were.
pub proof fn law_create_twice(db: DbView, name: Seq<char>)
    ensures
        create(create(db, name).db, name).answer == Err::<(), DbError>(DbError::TableAlreadyExists),
        create(create(db, name).db, name).db == create(db, name).db,
{
}

/// After a record was inserted, looking up its id gives the id and the
/// columns that were inserted.
pub proof fn law_insert_then_get(db: DbView, table: Seq<char>, id: u64, data: Map<Seq<char>, Seq<char>>)
    requires
        insert_record(db, table, id, data).answer is Ok,
    ensures
        get_record(insert_record(db, table, id, data).db, table, id) == Ok::<
            Option<RecordView>,
            DbError,
        >(Some(RecordView { id, data })),
{
}

/// Inserting a second record under an id that was inserted fails, and the
/// failed call leaves the database as it was.
pub proof fn law_insert_twice(
    db: DbView,
    table: Seq<char>,
    id: u64,
    first: Map<Seq<char>, Seq<char>>,
    second: Map<Seq<char>, Seq<char>>,
)
    requires
        insert_record(db, table, id, first).answer is Ok,
    ensures
        insert_record(insert_record(db, table, id, first).db, table, id, second).answer == Err::<
            (),
            DbError,
        >(DbError::RecordAlreadyExists),
        insert_record(insert_record(db, table, id, first).db, table, id, second).db
            == insert_record(db, table, id, first).db,
{
}

/// After a record was deleted, looking up its id finds nothing.
pub proof fn law_delete_then_get(db: DbView, table: Seq<char>, id: u64)
    requires
        delete_record(db, table, id).answer is Ok,
    ensures
        get_record(delete_record(db, table, id).db, table, id) == Ok::<Option<RecordView>, DbError>(
            None,
        ),
{
}

/// Deleting the record at position `p` moves every record behind it one
/// position down and leaves those before it where they were; each other
/// id is still indexed, at the position where its record now is.
pub proof fn law_delete_shifts(t: TableView, id: u64)
    requires
        t.consistent(),
        t.contains(id),
    ensures
        t.deleted(id).consistent(),
        t.deleted(id).records.len() == t.records.len() - 1,
        forall|i: int| 0 <= i < t.index[id] ==> t.deleted(id).records[i] == t.records[i],
        forall|i: int|
            t.index[id] < i < t.records.len() ==> t.deleted(id).records[i - 1] == t.records[i],
        forall|k: u64|
            k != id && #[trigger] t.contains(k) ==> t.deleted(id).contains(k) && t.deleted(
                id,
            ).record_of(k) == t.record_of(k) && t.deleted(id).index[k] == if t.index[k]
                > t.index[id] {
                t.index[k] - 1
            } else {
                t.index[k] as int
            },
        forall|k: u64| #[trigger] t.deleted(id).contains(k) ==> t.contains(k) && k != id,
{
}

/// An empty table is consistent and fully indexed.
pub proof fn law_empty_table(name: Seq<char>)
    ensures
        empty_table(name).consistent(),
        empty_table(name).fully_indexed(),
{
}

/// Inserting under an id that is not indexed keeps a table consistent and
/// fully indexed.
pub proof fn law_insert_keeps_index(t: TableView, id: u64, data: Map<Seq<char>, Seq<char>>)
    requires
        t.consistent(),
        t.fully_indexed(),
        !t.contains(id),
    ensures
        t.inserted(id, data).consistent(),
        t.inserted(id, data).fully_indexed(),
{
}

/// Replacing the columns of an indexed record keeps a table consistent
/// and fully indexed.
pub proof fn law_update_keeps_index(t: TableView, id: u64, data: Map<Seq<char>, Seq<char>>)
    requires
        t.consistent(),
        t.fully_indexed(),
        t.contains(id),
    ensures
        t.updated(id, data).consistent(),
        t.updated(id, data).fully_indexed(),
{
}

/// Deleting an indexed record keeps a table consistent and fully indexed,
/// and removes exactly the record at the id's position.
pub proof fn law_delete_keeps_index(t: TableView, id: u64)
    requires
        t.consistent(),
        t.fully_indexed(),
        t.contains(id),
    ensures
        t.deleted(id).consistent(),
        t.deleted(id).fully_indexed(),
{
    law_delete_shifts(t, id);
}

/// A comparison of strings is decided by the first character in which
/// they differ, not by their value as numbers: a string that starts with
/// the greater character is the greater one.
pub proof fn law_first_character_decides(a: Seq<char>, b: Seq<char>)
    requires
        a.len() > 0,
        b.len() > 0,
        (a[0] as u32) < (b[0] as u32),
    ensures
        lex_lt(a, b),
        !lex_lt(b, a),
        forall|data: Map<Seq<char>, Seq<char>>, column: Seq<char>|
            data.contains_key(column) && data[column] == b ==> #[trigger] holds(
                Cond::GreaterThan(column, a),
                data,
            ),
        forall|data: Map<Seq<char>, Seq<char>>, column: Seq<char>|
            data.contains_key(column) && data[column] == a ==> !#[trigger] holds(
                Cond::GreaterThan(column, b),
                data,
            ),
{
}

/// No string is greater than itself.
pub proof fn law_not_greater_than_itself(a: Seq<char>)
    ensures
        !lex_lt(a, a),
    decreases a.len(),
{
    if a.len() > 0 {
        law_not_greater_than_itself(a.subrange(1, a.len() as int));
    }
}

/// A clause is found by the first occurrence of its keyword: the position
/// lies at or after `from`, within the words or at their end, the word
/// there is the keyword, and no earlier word from `from` on is.
pub proof fn law_keyword_position_is_first(words: Seq<Seq<char>>, keyword: Seq<char>, from: int)
    requires
        0 <= from <= words.len(),
    ensures
        from <= keyword_position(words, keyword, from) <= words.len(),
        keyword_position(words, keyword, from) < words.len() ==> is_keyword(
            words[keyword_position(words, keyword, from)],
            keyword,
        ),
        forall|j: int|
            from <= j < keyword_position(words, keyword, from) ==> !is_keyword(
                #[trigger] words[j],
                keyword,
            ),
    decreases words.len() - from,
{
    if from < words.len() && !is_keyword(words[from], keyword) {
        law_keyword_position_is_first(words, keyword, from + 1);
    }
}

/// A WHERE clause that is cut short is a parse error, not an absent
/// condition: behind `WHERE` a comparison of three words is owed.
pub proof fn law_cut_off_where(words: Seq<Seq<char>>, at: int)
    requires
        0 <= at < words.len(),
        is_keyword(words[at], "WHERE"@),
        words.len() - at <= 3,
    ensures
        where_spec(words, at) == Err::<Option<Cond>, DbError>(DbError::ParseError),
{
}

/// A comparison that is cut short behind `AND` is a parse error too.
pub proof fn law_cut_off_and(words: Seq<Seq<char>>, at: int, before: Option<Cond>)
    requires
        0 <= at,
        at + 3 < words.len() <= at + 6,
        comparison(words[at], words[at + 1], words[at + 2]) is Some,
        is_keyword(words[at + 3], "AND"@),
    ensures
        chain_spec(words, at, before) == Err::<Option<Cond>, DbError>(DbError::ParseError),
{
    reveal_with_fuel(chain_spec, 2);
}

/// A line that is no statement changes nothing and answers with its error.
pub proof fn law_failed_parse_changes_nothing(db: DbView, words: Seq<Seq<char>>)
    requires
        statement_spec(words) is Err,
    ensures
        run_words(db, words).db == db,
        run_words(db, words).answer == Err::<Seq<RecordView>, DbError>(statement_spec(words)->Err_0),
{
}

/// The words `WHERE c1 = v1 AND c2 = v2` stand for a condition that holds
/// of exactly the records in which both columns have their value.
pub proof fn law_and_needs_both(
    kw_where: Seq<char>,
    kw_and: Seq<char>,
    c1: Seq<char>,
    v1: Seq<char>,
    c2: Seq<char>,
    v2: Seq<char>,
)
    requires
        is_keyword(kw_where, "WHERE"@),
        is_keyword(kw_and, "AND"@),
    ensures
        where_spec(seq![kw_where, c1, seq!['='], v1, kw_and, c2, seq!['='], v2], 0) == Ok::<
            Option<Cond>,
            DbError,
        >(Some(Cond::And(Box::new(Cond::Equals(c1, v1)), Box::new(Cond::Equals(c2, v2))))),
        forall|data: Map<Seq<char>, Seq<char>>| #[trigger]
            holds(Cond::And(Box::new(Cond::Equals(c1, v1)), Box::new(Cond::Equals(c2, v2))), data)
                <==> data.contains_key(c1) && data[c1] == v1 && data.contains_key(c2) && data[c2]
                == v2,
{
    reveal_with_fuel(chain_spec, 3);
    reveal_with_fuel(holds, 3);
}

/// The words `WHERE c1 = v1 OR c2 = v2` stand for a condition that holds
/// of exactly the records in which at least one of the two columns has
/// its value.
pub proof fn law_or_needs_one(
    kw_where: Seq<char>,
    kw_or: Seq<char>,
    c1: Seq<char>,
    v1: Seq<char>,
    c2: Seq<char>,
    v2: Seq<char>,
)
    requires
        is_keyword(kw_where, "WHERE"@),
        is_keyword(kw_or, "OR"@),
    ensures
        where_spec(seq![kw_where, c1, seq!['='], v1, kw_or, c2, seq!['='], v2], 0) == Ok::<
            Option<Cond>,
            DbError,
        >(Some(Cond::Or(Box::new(Cond::Equals(c1, v1)), Box::new(Cond::Equals(c2, v2))))),
        forall|data: Map<Seq<char>, Seq<char>>| #[trigger]
            holds(Cond::Or(Box::new(Cond::Equals(c1, v1)), Box::new(Cond::Equals(c2, v2))), data)
                <==> (data.contains_key(c1) && data[c1] == v1) || (data.contains_key(c2) && data[c2]
                == v2),
{
    reveal_with_fuel(chain_spec, 3);
    reveal_with_fuel(holds, 3);
    reveal_strlit("OR");
    reveal_strlit("AND");
    assert("OR"@.len() != "AND"@.len());
}

/// An update changes nothing but the one column, and only in records
/// that have it: every record keeps its id and its position, and its
/// columns either stay as they were or have the one column, which was
/// there before, set to the new value. A record that lacks the column
/// stays as it was, and every record that is returned has the column with
/// the new value, so none that lacks it is returned.
pub proof fn law_update_one_column(t: TableView, ids: Seq<u64>, column: Seq<char>, value: Seq<char>)
    requires
        t.consistent(),
    ensures
        t.update_each(ids, column, value).consistent(),
        t.update_each(ids, column, value).index == t.index,
        t.update_each(ids, column, value).records.len() == t.records.len(),
        forall|i: int|
            0 <= i < t.records.len() ==> {
                let before = t.records[i];
                let after = #[trigger] t.update_each(ids, column, value).records[i];
                &&& after.id == before.id
                &&& after.data == before.data || (before.data.contains_key(column) && after.data
                    == before.data.insert(column, value))
                &&& !before.data.contains_key(column) ==> after == before
            },
        forall|j: int|
            0 <= j < t.update_reports(ids, column, value).len() ==> (#[trigger] t.update_reports(
                ids,
                column,
                value,
            )[j]).data.contains_key(column) && t.update_reports(ids, column, value)[j].data[column]
                == value,
    decreases ids.len(),
{
    if ids.len() > 0 {
        let init = ids.drop_last();
        law_update_one_column(t, init, column, value);
        let mid = t.update_each(init, column, value);
        let id = ids.last();
        if mid.has_column(id, column) {
            let after = mid.column_set(id, column, value);
            assert(t.update_reports(ids, column, value) == t.update_reports(init, column, value).push(
                after.record_of(id),
            ));
            assert forall|i: int| 0 <= i < t.records.len() implies {
                let b = t.records[i];
                let a = #[trigger] after.records[i];
                &&& a.id == b.id
                &&& a.data == b.data || (b.data.contains_key(column) && a.data == b.data.insert(
                    column,
                    value,
                ))
                &&& !b.data.contains_key(column) ==> a == b
            } by {
                let m = mid.records[i];
                if i == mid.index[id] {
                    if m.data != t.records[i].data {
                        assert(m.data.insert(column, value) =~= t.records[i].data.insert(
                            column,
                            value,
                        ));
                    }
                }
            }
        }
    }
}

/// What an update makes of one record: a record that satisfies the
/// condition and has the column gets the column set, any other stays.
pub open spec fn touched(r: RecordView, cond: Option<Cond>, column: Seq<char>, value: Seq<char>) -> RecordView {
    if holds_opt(cond, r.data) && r.data.contains_key(column) {
        RecordView { id: r.id, data: r.data.insert(column, value) }
    } else {
        r
    }
}

/// The test that a record satisfies the condition and has the column.
pub open spec fn touches(cond: Option<Cond>, column: Seq<char>) -> spec_fn(RecordView) -> bool {
    |r: RecordView| holds_opt(cond, r.data) && r.data.contains_key(column)
}

/// The test that a record does not satisfy the condition.
pub open spec fn fails(cond: Option<Cond>) -> spec_fn(RecordView) -> bool {
    |r: RecordView| !holds_opt(cond, r.data)
}

/// The records of `records` that an update changes, as it leaves them.
pub open spec fn changed(
    records: Seq<RecordView>,
    cond: Option<Cond>,
    column: Seq<char>,
    value: Seq<char>,
) -> Seq<RecordView> {
    records.filter(touches(cond, column)).map_values(
        |r: RecordView| touched(r, cond, column, value),
    )
}

/// In a fully indexed table, the update steps for the matching records
/// among the first `n` change exactly those of the first `n` records that
/// satisfy the condition and have the column.
proof fn lemma_update_prefix(
    t: TableView,
    cond: Option<Cond>,
    column: Seq<char>,
    value: Seq<char>,
    n: int,
)
    requires
        t.consistent(),
        t.fully_indexed(),
        0 <= n <= t.records.len(),
    ensures
        ({
            let ids = ids_of(matching(t.records.take(n), cond));
            let u = t.update_each(ids, column, value);
            &&& u.index == t.index
            &&& u.name == t.name
            &&& u.records.len() == t.records.len()
            &&& forall|i: int| 0 <= i < n ==> #[trigger] u.records[i] == touched(t.records[i], cond, column, value)
            &&& forall|i: int| n <= i < t.records.len() ==> #[trigger] u.records[i] == t.records[i]
            &&& t.update_reports(ids, column, value) == changed(t.records.take(n), cond, column, value)
        }),
    decreases n,
{
    if n == 0 {
        lemma_filter_none(t.records, satisfies(cond));
        lemma_filter_none(t.records, touches(cond, column));
    } else {
        lemma_update_prefix(t, cond, column, value, n - 1);
        lemma_filter_step(t.records, n - 1, satisfies(cond));
        lemma_filter_step(t.records, n - 1, touches(cond, column));
        let r = t.records[n - 1];
        let ids0 = ids_of(matching(t.records.take(n - 1), cond));
        let ids = ids_of(matching(t.records.take(n), cond));
        if holds_opt(cond, r.data) {
            assert(ids.drop_last() =~= ids0);
        }
    }
}

/// In a table in which every record is indexed, an update changes
/// exactly the records that satisfy the condition and have the column,
/// sets that column in them, and returns them as it leaves them, in
/// storage order. The index stays as it is.
pub proof fn law_update_where(t: TableView, cond: Option<Cond>, column: Seq<char>, value: Seq<char>)
    requires
        t.consistent(),
        t.fully_indexed(),
    ensures
        ({
            let ids = ids_of(matching(t.records, cond));
            let u = t.update_each(ids, column, value);
            &&& u.index == t.index
            &&& u.name == t.name
            &&& u.records == t.records.map_values(|r: RecordView| touched(r, cond, column, value))
            &&& t.update_reports(ids, column, value) == changed(t.records, cond, column, value)
            &&& u.consistent()
            &&& u.fully_indexed()
        }),
{
    let n = t.records.len() as int;
    lemma_update_prefix(t, cond, column, value, n);
    assert(t.records.take(n) =~= t.records);
    let ids = ids_of(matching(t.records, cond));
    law_update_one_column(t, ids, column, value);
}

/// In a fully indexed table, the removal steps for the matching records
/// among the first `n` remove exactly those.
proof fn lemma_delete_prefix(t: TableView, cond: Option<Cond>, n: int)
    requires
        t.consistent(),
        t.fully_indexed(),
        0 <= n <= t.records.len(),
    ensures
        ({
            let ids = ids_of(matching(t.records.take(n), cond));
            let d = t.delete_each(ids);
            &&& d.name == t.name
            &&& d.consistent()
            &&& d.fully_indexed()
            &&& d.records == t.records.take(n).filter(fails(cond)) + t.records.skip(n)
            &&& t.delete_reports(ids) == matching(t.records.take(n), cond)
        }),
    decreases n,
{
    if n == 0 {
        lemma_filter_none(t.records, satisfies(cond));
        lemma_filter_none(t.records, fails(cond));
    } else {
        lemma_delete_prefix(t, cond, n - 1);
        lemma_filter_step(t.records, n - 1, satisfies(cond));
        lemma_filter_step(t.records, n - 1, fails(cond));
        let r = t.records[n - 1];
        let ids0 = ids_of(matching(t.records.take(n - 1), cond));
        let ids = ids_of(matching(t.records.take(n), cond));
        let mid = t.delete_each(ids0);
        let kept0 = t.records.take(n - 1).filter(fails(cond));
        let m = kept0.len() as int;
        assert(mid.records[m] == t.records.skip(n - 1)[0]);
        if holds_opt(cond, r.data) {
            assert(ids.drop_last() =~= ids0);
            law_delete_keeps_index(mid, r.id);
        }
    }
}

/// In a table in which every record is indexed, a removal takes out
/// exactly the records that satisfy the condition and returns them in
/// storage order; the others stay, in their order, and every one of them
/// is indexed at its new position.
pub proof fn law_delete_where(t: TableView, cond: Option<Cond>)
    requires
        t.consistent(),
        t.fully_indexed(),
    ensures
        ({
            let ids = ids_of(matching(t.records, cond));
            let d = t.delete_each(ids);
            &&& d.name == t.name
            &&& d.records == t.records.filter(fails(cond))
            &&& t.delete_reports(ids) == matching(t.records, cond)
            &&& d.consistent()
            &&& d.fully_indexed()
        }),
{
    let n = t.records.len() as int;
    lemma_delete_prefix(t, cond, n);
    assert(t.records.take(n) =~= t.records);
}

} // verus!
