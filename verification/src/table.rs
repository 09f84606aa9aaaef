//! A table: records in insertion order, and an index from id to position.
//!
//! The sequence is kept dense. Removing the record at position `p` moves
//! every later record one position down, and the index follows: each entry
//! that pointed past `p` is lowered by one.

use vstd::prelude::*;
use std::collections::HashMap;
use crate::error::DbError;
use crate::record::{all_wf, record_views, Record, RecordView};
use crate::row::RowData;
use crate::snapshot::{
    index_of, lemma_index_of, lemma_records_valid_prefix, record_of, records_of, records_valid,
    table_of, PlainTable, StoredRecord, StoredTable,
};

verus! {

broadcast use vstd::std_specs::hash::group_hash_axioms;

/// A table as plain mathematics.
pub ghost struct TableView {
    pub name: Seq<char>,
    pub records: Seq<RecordView>,
    pub index: Map<u64, int>,
}

impl TableView {
    /// Every index entry points at a record that carries the entry's id.
    /// Two entries therefore never share a position.
    pub open spec fn consistent(self) -> bool {
        forall|id: u64| #[trigger]
            self.index.contains_key(id) ==> 0 <= self.index[id] < self.records.len()
                && self.records[self.index[id]].id == id
    }

    /// Every record is indexed at its own position, so no id is held twice.
    /// Inserting by statement into a table that has shrunk can break this;
    /// the other operations keep it.
    pub open spec fn fully_indexed(self) -> bool {
        forall|i: int|
            0 <= i < self.records.len() ==> self.index.contains_key((#[trigger] self.records[i]).id)
                && self.index[self.records[i].id] == i
    }

    /// Whether a record with this id is indexed.
    pub open spec fn contains(self, id: u64) -> bool {
        self.index.contains_key(id)
    }

    /// The record that the index gives for `id`.
    pub open spec fn record_of(self, id: u64) -> RecordView {
        self.records[self.index[id]]
    }

    /// The table after a record was appended and indexed under its id.
    pub open spec fn inserted(self, id: u64, data: Map<Seq<char>, Seq<char>>) -> TableView {
        TableView {
            name: self.name,
            records: self.records.push(RecordView { id, data }),
            index: self.index.insert(id, self.records.len() as int),
        }
    }

    /// The table after the columns of the record indexed under `id` were
    /// replaced as a whole.
    pub open spec fn updated(self, id: u64, data: Map<Seq<char>, Seq<char>>) -> TableView {
        TableView {
            name: self.name,
            records: self.records.update(self.index[id], RecordView { id, data }),
            index: self.index,
        }
    }

    /// Whether a record is indexed under `id` and has the column `column`.
    pub open spec fn has_column(self, id: u64, column: Seq<char>) -> bool {
        self.contains(id) && self.record_of(id).data.contains_key(column)
    }

    /// The table after the one column `column` of the record indexed under
    /// `id` was set to `value`; the record's other columns stay.
    pub open spec fn column_set(self, id: u64, column: Seq<char>, value: Seq<char>) -> TableView {
        let p = self.index[id];
        TableView {
            name: self.name,
            records: self.records.update(
                p,
                RecordView { id: self.records[p].id, data: self.records[p].data.insert(column, value) },
            ),
            index: self.index,
        }
    }

    /// The table after the record indexed under `id` was removed: the
    /// records behind it move one position down and the index follows them.
    pub open spec fn deleted(self, id: u64) -> TableView {
        let p = self.index[id];
        TableView {
            name: self.name,
            records: self.records.remove(p),
            index: Map::new(
                |k: u64| self.index.contains_key(k) && k != id,
                |k: u64|
                    if self.index[k] > p {
                        self.index[k] - 1
                    } else {
                        self.index[k]
                    },
            ),
        }
    }
}

/// The index as a mapping to mathematical positions.
pub open spec fn positions(index: Map<u64, usize>) -> Map<u64, int> {
    index.map_values(|p: usize| p as int)
}

/// The positions are those of the index, key by key; adding an entry adds
/// the same entry to them.
pub proof fn lemma_positions(index: Map<u64, usize>)
    ensures
        positions(index).dom() == index.dom(),
        forall|k: u64| #[trigger] index.contains_key(k) ==> positions(index)[k] == index[k] as int,
        forall|k: u64, p: usize| #[trigger]
            positions(index.insert(k, p)) == positions(index).insert(k, p as int),
{
}

/// A table that got one record appended and its id's index entry pointed
/// at it is well formed, and is what `inserted` describes, whether or not
/// the id was indexed before.
proof fn lemma_appended(
    before: Table,
    after: Table,
    position: usize,
    id: u64,
    data: Map<Seq<char>, Seq<char>>,
)
    requires
        before.wf(),
        after.name == before.name,
        position == before.records@.len(),
        after.records@.len() == before.records@.len() + 1,
        after.records@.drop_last() == before.records@,
        after.records@.last().wf(),
        after.records@.last()@ == (RecordView { id, data }),
        after.index@ == before.index@.insert(id, position),
    ensures
        after.wf(),
        after@ == before@.inserted(id, data),
{
    lemma_positions(before.index@);
    assert(record_views(after.records@) =~= record_views(before.records@).push(
        RecordView { id, data },
    )) by {
        assert forall|i: int| 0 <= i < before.records@.len() implies after.records@[i]
            == before.records@[i] by {
            assert(after.records@.drop_last()[i] == after.records@[i]);
        }
    }
    assert forall|i: int| 0 <= i < after.records@.len() implies (#[trigger] after.records@[i]).wf() by {
        if i < before.records@.len() {
            assert(after.records@.drop_last()[i] == after.records@[i]);
        }
    }
    assert forall|k: u64| #[trigger] after@.index.contains_key(k) implies 0 <= after@.index[k]
        < after@.records.len() && after@.records[after@.index[k]].id == k by {
        if k != id {
            assert(before@.index.contains_key(k));
        }
    }
}

/// A named collection of records with an index from id to position.
#[derive(Clone, Debug)]
pub struct Table {
    name: String,
    records: Vec<Record>,
    index: HashMap<u64, usize>,
}

impl View for Table {
    type V = TableView;

    closed spec fn view(&self) -> TableView {
        TableView {
            name: self.name@,
            records: record_views(self.records@),
            index: positions(self.index@),
        }
    }
}

impl Table {
    /// The representation invariant: every record is well formed and the
    /// index is consistent with the records.
    pub closed spec fn wf(&self) -> bool {
        &&& all_wf(self.records@)
        &&& self@.consistent()
    }

    /// The records as they are held, in storage order.
    pub closed spec fn spec_records(&self) -> Seq<Record> {
        self.records@
    }

    /// The view's records are the views of the records held.
    pub proof fn lemma_view_records(&self)
        ensures
            self@.records == record_views(self.spec_records()),
            self.wf() ==> all_wf(self.spec_records()) && self@.consistent(),
    {
    }

    /// An empty table of the given name.
    pub fn new(name: String) -> (t: Table)
        ensures
            t.wf(),
            t@.name == name@,
            t@.records == Seq::<RecordView>::empty(),
            t@.index == Map::<u64, int>::empty(),
    {
        let t = Table { name, records: Vec::new(), index: HashMap::new() };
        t
    }

    /// The table's name.
    pub fn name(&self) -> (r: &String)
        ensures
            r@ == self@.name,
    {
        &self.name
    }

    /// The number of records held.
    pub fn len(&self) -> (n: usize)
        ensures
            n == self@.records.len(),
    {
        self.records.len()
    }

    /// Whether a record with this id is indexed.
    pub fn contains(&self, id: u64) -> (r: bool)
        ensures
            r == self@.contains(id),
    {
        self.index.contains_key(&id)
    }

    /// Appends a record with the given id and columns, unless the id is
    /// indexed already.
    pub fn insert(&mut self, id: u64, data: RowData) -> (r: Result<(), DbError>)
        requires
            old(self).wf(),
            data.wf(),
        ensures
            final(self).wf(),
            r is Ok == !old(self)@.contains(id),
            r is Ok ==> final(self)@ == old(self)@.inserted(id, data@),
            r is Err ==> r == Err::<(), DbError>(DbError::RecordAlreadyExists) && final(self)@ == old(
                self,
            )@,
    {
        if self.index.contains_key(&id) {
            return Err(DbError::RecordAlreadyExists);
        }
        self.append(id, data);
        Ok(())
    }

    /// Appends a record and points the index entry of its id at it,
    /// whether or not the id was indexed before.
    fn append(&mut self, id: u64, data: RowData)
        requires
            old(self).wf(),
            data.wf(),
        ensures
            final(self).wf(),
            final(self)@ == old(self)@.inserted(id, data@),
    {
        let position = self.records.len();
        self.records.push(Record::new(id, data));
        self.index.insert(id, position);
        proof {
            assert(self.records@.drop_last() =~= old(self).records@);
            lemma_appended(*old(self), *self, position, id, data@);
        }
    }

    /// The record indexed under `id`, or `None` where there is none.
    pub fn get(&self, id: u64) -> (r: Option<&Record>)
        requires
            self.wf(),
        ensures
            r is Some == self@.contains(id),
            r is Some ==> r->0@ == self@.record_of(id) && r->0.wf(),
    {
        match self.index.get(&id) {
            Some(position) => {
                assert(self@.index.contains_key(id));
                Some(&self.records[*position])
            },
            None => None,
        }
    }

    /// All records, in storage order.
    pub fn get_all(&self) -> (r: Vec<&Record>)
        requires
            self.wf(),
        ensures
            r@.len() == self@.records.len(),
            forall|i: int| 0 <= i < r@.len() ==> (#[trigger] r@[i])@ == self@.records[i] && r@[i].wf(),
    {
        let mut out: Vec<&Record> = Vec::new();
        let mut i: usize = 0;
        while i < self.records.len()
            invariant
                i <= self.records@.len(),
                out@.len() == i,
                self.wf(),
                forall|j: int|
                    0 <= j < i ==> (#[trigger] out@[j])@ == self@.records[j] && out@[j].wf(),
            decreases self.records@.len() - i,
        {
            out.push(&self.records[i]);
            i += 1;
        }
        out
    }

    /// Replaces the columns of the record indexed under `id` as a whole.
    pub fn update(&mut self, id: u64, data: RowData) -> (r: Result<(), DbError>)
        requires
            old(self).wf(),
            data.wf(),
        ensures
            final(self).wf(),
            r is Ok == old(self)@.contains(id),
            r is Ok ==> final(self)@ == old(self)@.updated(id, data@),
            r is Err ==> r == Err::<(), DbError>(DbError::RecordNotFound) && final(self)@ == old(
                self,
            )@,
    {
        let position = match self.index.get(&id) {
            Some(p) => *p,
            None => {
                return Err(DbError::RecordNotFound);
            },
        };
        assert(self@.index.contains_key(id));
        let ghost before = self.records@;
        self.records.set(position, Record::new(id, data));
        proof {
            assert(record_views(self.records@) =~= record_views(before).update(
                position as int,
                RecordView { id, data: data@ },
            ));
        }
        Ok(())
    }
}

impl Table {
    /// Removes the record indexed under `id` and returns it; the records
    /// behind it move one position down and the index follows them.
    pub fn remove(&mut self, id: u64) -> (r: Option<Record>)
        requires
            old(self).wf(),
        ensures
            final(self).wf(),
            r is Some == old(self)@.contains(id),
            r is Some ==> r->0.wf() && r->0@ == old(self)@.record_of(id) && final(self)@ == old(
                self,
            )@.deleted(id),
            r is None ==> final(self)@ == old(self)@,
    {
        let position = match self.index.remove(&id) {
            Some(p) => p,
            None => {
                assert(self.index@ =~= old(self).index@);
                return None;
            },
        };
        let ghost stale = old(self).index@;
        let ghost before = old(self).records@;
        proof {
            lemma_positions(stale);
            assert(old(self)@.index.contains_key(id));
        }
        let removed = self.records.remove(position);
        let mut i: usize = position;
        while i < self.records.len()
            invariant
                position <= i <= self.records@.len(),
                self.name == old(self).name,
                self.records@ == before.remove(position as int),
                position < before.len(),
                old(self)@.consistent(),
                stale == old(self).index@,
                before == old(self).records@,
                stale.contains_key(id),
                stale[id] == position,
                self.index@.dom() == stale.dom().remove(id),
                forall|k: u64| #[trigger]
                    self.index@.contains_key(k) ==> self.index@[k] == if position < stale[k] <= i {
                        (stale[k] - 1) as usize
                    } else {
                        stale[k]
                    },
            decreases self.records@.len() - i,
        {
            let moved = self.records[i].id();
            let points_past = match self.index.get(&moved) {
                Some(p) => *p == i + 1,
                None => false,
            };
            proof {
                assert forall|k: u64| #[trigger]
                    self.index@.contains_key(k) && stale[k] == i + 1 implies k == moved by {
                    lemma_positions(stale);
                    assert(old(self)@.index.contains_key(k));
                }
            }
            if points_past {
                self.index.insert(moved, i);
            }
            i += 1;
        }
        proof {
            let want = old(self)@.deleted(id);
            lemma_positions(stale);
            lemma_positions(self.index@);
            assert(positions(self.index@) =~= want.index);
            assert(record_views(self.records@) =~= record_views(before).remove(position as int));
        }
        Some(removed)
    }

    /// Removes the record indexed under `id`.
    pub fn delete(&mut self, id: u64) -> (r: Result<(), DbError>)
        requires
            old(self).wf(),
        ensures
            final(self).wf(),
            r is Ok == old(self)@.contains(id),
            r is Ok ==> final(self)@ == old(self)@.deleted(id),
            r is Err ==> r == Err::<(), DbError>(DbError::RecordNotFound) && final(self)@ == old(
                self,
            )@,
    {
        match self.remove(id) {
            Some(_) => Ok(()),
            None => Err(DbError::RecordNotFound),
        }
    }

    /// Appends a record whose id is the number of records held plus one,
    /// and returns a copy of it. The id is not looked up first: where a
    /// record of that id is indexed, the index entry moves to the new one.
    pub fn insert_next(&mut self, data: RowData) -> (r: Record)
        requires
            old(self).wf(),
            data.wf(),
        ensures
            final(self).wf(),
            r.wf(),
            r@.id == old(self)@.records.len() + 1,
            r@ == (RecordView { id: next_id(old(self)@.records.len()), data: data@ }),
            final(self)@ == old(self)@.inserted(next_id(old(self)@.records.len()), data@),
    {
        let ghost before = self.records@;
        let position = self.records.len();
        let copy = data.duplicate();
        // The length after the push is the new id: it is at most the
        // largest length, so it fits.
        self.records.push(Record::new(0, RowData::new()));
        let id = self.records.len() as u64;
        self.records.set(position, Record::new(id, data));
        self.index.insert(id, position);
        proof {
            assert(self.records@.drop_last() =~= before);
            lemma_appended(*old(self), *self, position, id, data@);
        }
        Record::new(id, copy)
    }
}

impl Table {
    /// The record at position `i` of the storage order.
    pub fn record_at(&self, i: usize) -> (r: &Record)
        requires
            self.wf(),
            i < self@.records.len(),
        ensures
            r.wf(),
            r@ == self@.records[i as int],
    {
        &self.records[i]
    }

    /// Sets the column `column` of the record indexed under `id` to
    /// `value`, where there is such a record and it has that column, and
    /// returns a copy of the record as it then is. Otherwise nothing
    /// changes and `None` is returned.
    pub fn set_column(&mut self, id: u64, column: &str, value: String) -> (r: Option<Record>)
        requires
            old(self).wf(),
        ensures
            final(self).wf(),
            r is Some == old(self)@.has_column(id, column@),
            r is Some ==> r->0.wf() && final(self)@ == old(self)@.column_set(id, column@, value@)
                && r->0@ == final(self)@.record_of(id),
            r is None ==> final(self)@ == old(self)@,
    {
        let position = match self.index.get(&id) {
            Some(p) => *p,
            None => {
                return None;
            },
        };
        assert(self@.index.contains_key(id));
        let ghost before = self.records@;
        let mut record = self.records[position].duplicate();
        if !record.set_existing(column, value) {
            return None;
        }
        let copy = record.duplicate();
        self.records.set(position, record);
        proof {
            assert(record_views(self.records@) =~= record_views(before).update(
                position as int,
                copy@,
            ));
        }
        Some(copy)
    }
}

/// Whether `out` is what filtering `records` by `keep` can give: the
/// records for which `keep` answered true, in their order, and none for
/// which it answered false.
pub open spec fn kept_by<F: Fn(&Record) -> bool>(records: Seq<Record>, keep: F, out: Seq<&Record>) -> bool
    decreases records.len(),
{
    if records.len() == 0 {
        out.len() == 0
    } else {
        ||| keep.ensures((&records.last(),), true) && out.len() > 0 && *out.last() == records.last()
            && kept_by(records.drop_last(), keep, out.drop_last())
        ||| keep.ensures((&records.last(),), false) && kept_by(records.drop_last(), keep, out)
    }
}

impl Table {
    /// The records for which `keep` answers true, in storage order.
    pub fn query<F: Fn(&Record) -> bool>(&self, keep: F) -> (r: Vec<&Record>)
        requires
            self.wf(),
            forall|record: &Record| record.wf() ==> #[trigger] keep.requires((record,)),
        ensures
            kept_by(self.spec_records(), keep, r@),
            forall|i: int| 0 <= i < r@.len() ==> (#[trigger] r@[i]).wf(),
    {
        let mut out: Vec<&Record> = Vec::new();
        let mut i: usize = 0;
        while i < self.records.len()
            invariant
                i <= self.records@.len(),
                self.wf(),
                forall|record: &Record| record.wf() ==> #[trigger] keep.requires((record,)),
                kept_by(self.records@.take(i as int), keep, out@),
                forall|j: int| 0 <= j < out@.len() ==> (#[trigger] out@[j]).wf(),
            decreases self.records@.len() - i,
        {
            let record = &self.records[i];
            let ghost before = out@;
            proof {
                let next = self.records@.take(i + 1);
                assert(next.drop_last() =~= self.records@.take(i as int));
            }
            if keep(record) {
                out.push(record);
                assert(out@.drop_last() =~= before);
            }
            i += 1;
        }
        assert(self.records@.take(self.records@.len() as int) =~= self.records@);
        out
    }
}

impl Table {
    /// The table as the plain values that `export` hands out.
    pub closed spec fn snapshot(&self) -> PlainTable {
        (
            self.name@,
            Seq::new(
                self.records@.len(),
                |i: int|
                    (
                        self.records@[i]@.id,
                        self.records@[i].spec_data().pairs(),
                        self.index@.contains_key(self.records@[i]@.id) && self.index@[self.records@[i]@.id]
                            == i,
                    ),
            ),
        )
    }

    /// The table as plain values.
    pub fn export(&self) -> (r: StoredTable)
        requires
            self.wf(),
        ensures
            r.deep_view() == self.snapshot(),
            records_valid(r.deep_view().1),
            table_of(r.deep_view()) == self@,
    {
        let mut out: Vec<StoredRecord> = Vec::new();
        let mut i: usize = 0;
        let ghost raw = self.index@;
        let ghost want = self.snapshot().1;
        proof {
            lemma_positions(raw);
            assert(index_of(out.deep_view()) =~= Map::new(
                |k: u64| raw.contains_key(k) && raw[k] < 0,
                |k: u64| raw[k] as int,
            ));
        }
        while i < self.records.len()
            invariant
                i <= self.records@.len(),
                self.wf(),
                raw == self.index@,
                want == self.snapshot().1,
                out.deep_view() == want.take(i as int),
                records_valid(out.deep_view()),
                records_of(out.deep_view()) == self@.records.take(i as int),
                index_of(out.deep_view()) == Map::new(
                    |k: u64| raw.contains_key(k) && raw[k] < i,
                    |k: u64| raw[k] as int,
                ),
            decreases self.records@.len() - i,
        {
            let record = &self.records[i];
            let id = record.id();
            let indexed = match self.index.get(&id) {
                Some(p) => *p == i,
                None => false,
            };
            let ghost before = out.deep_view();
            let columns = record.data().entries();
            out.push((id, columns, indexed));
            proof {
                lemma_positions(raw);
                assert(out.deep_view().drop_last() =~= before);
                assert forall|k: u64| raw.contains_key(k) && raw[k] == i implies k == id by {
                    assert(self@.index.contains_key(k));
                }
                assert(index_of(out.deep_view()) =~= Map::new(
                    |k: u64| raw.contains_key(k) && raw[k] < i + 1,
                    |k: u64| raw[k] as int,
                ));
            }
            i += 1;
        }
        proof {
            lemma_positions(raw);
            assert(self@.records.take(i as int) =~= self@.records);
            assert forall|k: u64| raw.contains_key(k) implies raw[k] < i by {
                assert(self@.index.contains_key(k));
            }
            assert(index_of(out.deep_view()) =~= self@.index);
        }
        (self.name.clone(), out)
    }

    /// The table that a table of a snapshot stands for; `None` where the
    /// snapshot cannot be that of a table.
    pub fn import(snapshot: &StoredTable) -> (r: Option<Table>)
        ensures
            r is Some == records_valid(snapshot.deep_view().1),
            r is Some ==> r->0.wf() && r->0@ == table_of(snapshot.deep_view()),
    {
        let ghost all = snapshot.deep_view().1;
        let mut records: Vec<Record> = Vec::new();
        let mut index: HashMap<u64, usize> = HashMap::new();
        let mut i: usize = 0;
        while i < snapshot.1.len()
            invariant
                i <= all.len(),
                all == snapshot.deep_view().1,
                all.len() == snapshot.1@.len(),
                all_wf(records@),
                records_valid(all.take(i as int)),
                record_views(records@) == records_of(all.take(i as int)),
                positions(index@) == index_of(all.take(i as int)),
            decreases all.len() - i,
        {
            let item = &snapshot.1[i];
            proof {
                assert(all.take(i + 1).drop_last() =~= all.take(i as int));
                lemma_positions(index@);
                if records_valid(all) {
                    lemma_records_valid_prefix(all, i + 1);
                }
            }
            let data = match RowData::from_entries(&item.1) {
                Some(data) => data,
                None => {
                    return None;
                },
            };
            if item.2 {
                if index.contains_key(&item.0) {
                    return None;
                }
                index.insert(item.0, i);
            }
            let ghost before = records@;
            records.push(Record::new(item.0, data));
            proof {
                assert(record_views(records@) =~= record_views(before).push(
                    record_of(item.deep_view()),
                ));
                assert(records_of(all.take(i + 1)) =~= records_of(all.take(i as int)).push(
                    record_of(item.deep_view()),
                ));
            }
            i += 1;
        }
        let t = Table { name: snapshot.0.clone(), records, index };
        proof {
            assert(all.take(i as int) =~= all);
            lemma_index_of(all);
        }
        Some(t)
    }
}

/// The id that a statement gives a new record of a table with `count`
/// records: one more than the count.
pub open spec fn next_id(count: nat) -> u64 {
    (count + 1) as u64
}

} // verus!
