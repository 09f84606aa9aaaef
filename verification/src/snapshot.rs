//! The whole state of a database as plain values and as bytes: each table
//! with its records in storage order, each record with a mark that says
//! whether the index points at it.
//!
//! The two functions at the end of this file call into `bincode`; their
//! contracts are taken on trust.

use vstd::prelude::*;
use crate::database::DbView;
use crate::record::RecordView;
use crate::row::{distinct_names, map_of, Pairs};
use crate::table::TableView;

verus! {

/// One record of a snapshot: its id, its columns, and whether the table's
/// index entry for the id points at this record.
pub type StoredRecord = (u64, Vec<(String, String)>, bool);

/// One table of a snapshot: its name and its records in storage order.
pub type StoredTable = (String, Vec<StoredRecord>);

/// A record of a snapshot as plain mathematics.
pub type PlainRecord = (u64, Pairs, bool);

/// A table of a snapshot as plain mathematics.
pub type PlainTable = (Seq<char>, Seq<PlainRecord>);

/// The bytes that `bincode::serialize` gives for a snapshot under its
/// default configuration, or `None` where it reports an error. The layout
/// is bincode's own and is not spelled out here.
pub uninterp spec fn encoded(
    tables: Seq<(Seq<char>, Seq<(u64, Seq<(Seq<char>, Seq<char>)>, bool)>)>,
) -> Option<Seq<u8>>;

/// The snapshot that `bincode::deserialize` reads from bytes under its
/// default configuration, or `None` where it reports an error.
pub uninterp spec fn decoded(bytes: Seq<u8>) -> Option<
    Seq<(Seq<char>, Seq<(u64, Seq<(Seq<char>, Seq<char>)>, bool)>)>,
>;

/// The record that a record of a snapshot stands for.
pub open spec fn record_of(r: PlainRecord) -> RecordView {
    RecordView { id: r.0, data: map_of(r.1) }
}

/// The records that the records of a snapshot stand for.
pub open spec fn records_of(records: Seq<PlainRecord>) -> Seq<RecordView> {
    records.map_values(|r: PlainRecord| record_of(r))
}

/// The index that the marks of a snapshot's records stand for.
pub open spec fn index_of(records: Seq<PlainRecord>) -> Map<u64, int>
    decreases records.len(),
{
    if records.len() == 0 {
        Map::empty()
    } else if records.last().2 {
        index_of(records.drop_last()).insert(records.last().0, records.len() - 1)
    } else {
        index_of(records.drop_last())
    }
}

/// Whether records of a snapshot can be those of a table: no record
/// names a column twice, and no two marked records share an id.
pub open spec fn records_valid(records: Seq<PlainRecord>) -> bool
    decreases records.len(),
{
    records.len() == 0 || {
        &&& records_valid(records.drop_last())
        &&& distinct_names(records.last().1)
        &&& records.last().2 ==> !index_of(records.drop_last()).contains_key(
            records.last().0,
        )
    }
}

/// The table that a table of a snapshot stands for.
pub open spec fn table_of(t: PlainTable) -> TableView {
    TableView { name: t.0, records: records_of(t.1), index: index_of(t.1) }
}

/// The database that the tables of a snapshot stand for.
pub open spec fn database_of(tables: Seq<PlainTable>) -> DbView
    decreases tables.len(),
{
    if tables.len() == 0 {
        Map::empty()
    } else {
        database_of(tables.drop_last()).insert(tables.last().0, table_of(tables.last()))
    }
}

/// Whether a snapshot can be that of a database: every table's records
/// are valid and no two tables share a name.
pub open spec fn snapshot_valid(tables: Seq<PlainTable>) -> bool
    decreases tables.len(),
{
    tables.len() == 0 || {
        &&& snapshot_valid(tables.drop_last())
        &&& records_valid(tables.last().1)
        &&& !database_of(tables.drop_last()).contains_key(tables.last().0)
    }
}

/// Every beginning of valid records is valid.
pub proof fn lemma_records_valid_prefix(records: Seq<PlainRecord>, n: int)
    requires
        records_valid(records),
        0 <= n <= records.len(),
    ensures
        records_valid(records.take(n)),
    decreases records.len(),
{
    if n < records.len() {
        lemma_records_valid_prefix(records.drop_last(), n);
        assert(records.drop_last().take(n) =~= records.take(n));
    } else {
        assert(records.take(n) =~= records);
    }
}

/// Every beginning of a valid snapshot is valid.
pub proof fn lemma_snapshot_valid_prefix(tables: Seq<PlainTable>, n: int)
    requires
        snapshot_valid(tables),
        0 <= n <= tables.len(),
    ensures
        snapshot_valid(tables.take(n)),
    decreases tables.len(),
{
    if n < tables.len() {
        lemma_snapshot_valid_prefix(tables.drop_last(), n);
        assert(tables.drop_last().take(n) =~= tables.take(n));
    } else {
        assert(tables.take(n) =~= tables);
    }
}

/// The index of a snapshot's records points only at marked records, each
/// under its own id.
pub proof fn lemma_index_of(records: Seq<PlainRecord>)
    ensures
        forall|k: u64| #[trigger]
            index_of(records).contains_key(k) ==> 0 <= index_of(records)[k] < records.len()
                && records[index_of(records)[k]].0 == k && records[index_of(records)[k]].2,
    decreases records.len(),
{
    if records.len() > 0 {
        let init = records.drop_last();
        lemma_index_of(init);
        assert forall|k: u64| #[trigger] index_of(records).contains_key(k) implies 0 <= index_of(
            records,
        )[k] < records.len() && records[index_of(records)[k]].0 == k && records[index_of(
            records,
        )[k]].2 by {
            if !(records.last().2 && k == records.last().0) {
                assert(index_of(init).contains_key(k));
            }
        }
    }
}

/// Calls `bincode::serialize` on a snapshot.
/// Trusted: the outcome depends on the snapshot alone; an error of the
/// encoder comes back as `None`.
#[verifier::external_body]
pub(crate) fn encode(tables: &Vec<StoredTable>) -> (r: Option<Vec<u8>>)
    ensures
        match r {
            Some(bytes) => encoded(tables.deep_view()) == Some(bytes@),
            None => encoded(tables.deep_view()) is None,
        },
{
    bincode::serialize(tables).ok()
}

/// Calls `bincode::deserialize` for a snapshot.
/// Trusted: the outcome depends on the bytes alone; an error of the
/// decoder comes back as `None`; and bytes that the encoder gave for a
/// snapshot are read back as that snapshot.
#[verifier::external_body]
pub(crate) fn decode(bytes: &[u8]) -> (r: Option<Vec<StoredTable>>)
    ensures
        match r {
            Some(tables) => decoded(bytes@) == Some(tables.deep_view()),
            None => decoded(bytes@) is None,
        },
        forall|tables: Seq<PlainTable>| #[trigger]
            encoded(tables) == Some(bytes@) ==> r is Some && r->0.deep_view() == tables,
{
    bincode::deserialize(bytes).ok()
}

} // verus!
