//! A record: an id and its column mapping.

use vstd::prelude::*;
use crate::row::RowData;

verus! {

/// What a record is, as plain mathematics.
pub ghost struct RecordView {
    pub id: u64,
    pub data: Map<Seq<char>, Seq<char>>,
}

/// One stored row: an id and an arbitrary set of string-valued columns.
#[derive(Clone, Debug)]
pub struct Record {
    id: u64,
    data: RowData,
}

impl View for Record {
    type V = RecordView;

    closed spec fn view(&self) -> RecordView {
        RecordView { id: self.id, data: self.data@ }
    }
}

impl Record {
    /// The representation invariant: the column mapping is well formed.
    pub closed spec fn wf(&self) -> bool {
        self.data.wf()
    }

    /// The column mapping as it is held.
    pub closed spec fn spec_data(&self) -> RowData {
        self.data
    }

    /// A record with the given id and columns.
    pub fn new(id: u64, data: RowData) -> (r: Record)
        requires
            data.wf(),
        ensures
            r.wf(),
            r@ == (RecordView { id, data: data@ }),
            r.spec_data() == data,
    {
        Record { id, data }
    }

    /// The record's id.
    pub fn id(&self) -> (r: u64)
        ensures
            r == self@.id,
    {
        self.id
    }

    /// The record's columns.
    pub fn data(&self) -> (r: &RowData)
        ensures
            r@ == self@.data,
            *r == self.spec_data(),
            self.wf() ==> r.wf(),
    {
        &self.data
    }

    /// The value of the column `key`, or `None` where the record lacks it.
    pub fn get(&self, key: &str) -> (r: Option<&String>)
        requires
            self.wf(),
        ensures
            r is Some == self@.data.contains_key(key@),
            r is Some ==> r->0@ == self@.data[key@],
    {
        self.data.get(key)
    }

    /// Replaces the whole column mapping; the id stays.
    pub fn set_data(&mut self, data: RowData)
        requires
            data.wf(),
        ensures
            final(self).wf(),
            final(self)@ == (RecordView { id: old(self)@.id, data: data@ }),
    {
        self.data = data;
    }

    /// Sets the column `key` to `value` where the record has that column.
    /// Returns whether it has; a record without the column stays as it is.
    pub fn set_existing(&mut self, key: &str, value: String) -> (changed: bool)
        requires
            old(self).wf(),
        ensures
            final(self).wf(),
            final(self)@.id == old(self)@.id,
            changed == old(self)@.data.contains_key(key@),
            changed ==> final(self)@.data == old(self)@.data.insert(key@, value@),
            !changed ==> final(self)@ == old(self)@,
    {
        self.data.replace_existing(key, value)
    }

    /// A copy with the same id whose columns are restricted to `columns`.
    pub fn project(&self, columns: &Vec<String>) -> (r: Record)
        requires
            self.wf(),
        ensures
            r.wf(),
            r@ == project_view(self@, crate::text::views(columns@)),
    {
        Record { id: self.id, data: self.data.project(columns) }
    }

    /// A copy with the same id and columns.
    pub fn duplicate(&self) -> (r: Record)
        requires
            self.wf(),
        ensures
            r.wf(),
            r@ == self@,
    {
        Record { id: self.id, data: self.data.duplicate() }
    }
}

/// A record restricted to the columns named in `columns`.
pub open spec fn project_view(r: RecordView, columns: Seq<Seq<char>>) -> RecordView {
    RecordView { id: r.id, data: r.data.restrict(columns.to_set()) }
}

/// The views of a sequence of records.
pub open spec fn record_views(records: Seq<Record>) -> Seq<RecordView> {
    records.map_values(|r: Record| r@)
}

/// Every record of the sequence is well formed.
pub open spec fn all_wf(records: Seq<Record>) -> bool {
    forall|i: int| 0 <= i < records.len() ==> (#[trigger] records[i]).wf()
}

} // verus!
