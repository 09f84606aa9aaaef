//! Running a statement against one table: filtering by a condition,
//! projecting columns, setting one column, removing records.

use vstd::prelude::*;
use crate::condition::{holds_opt, opt_view, Cond, Condition};
use crate::record::{project_view, record_views, Record, RecordView};
use crate::row::RowData;
use crate::table::{Table, TableView};
use crate::text::{str_eq, views};

verus! {

/// The test that a record satisfies the optional condition `cond`.
pub open spec fn satisfies(cond: Option<Cond>) -> spec_fn(RecordView) -> bool {
    |r: RecordView| holds_opt(cond, r.data)
}

/// The records that satisfy `cond`, in their order.
pub open spec fn matching(records: Seq<RecordView>, cond: Option<Cond>) -> Seq<RecordView> {
    records.filter(satisfies(cond))
}

/// The ids of a sequence of records.
pub open spec fn ids_of(records: Seq<RecordView>) -> Seq<u64> {
    records.map_values(|r: RecordView| r.id)
}

/// Whether a column list is the single word `*`.
pub open spec fn is_star(columns: Seq<Seq<char>>) -> bool {
    columns.len() == 1 && columns[0] == seq!['*']
}

/// What a selection returns: the records that satisfy `cond`, whole where
/// the column list is `*`, otherwise each restricted to the listed columns.
pub open spec fn selected(
    records: Seq<RecordView>,
    columns: Seq<Seq<char>>,
    cond: Option<Cond>,
) -> Seq<RecordView> {
    if is_star(columns) {
        matching(records, cond)
    } else {
        matching(records, cond).map_values(|r: RecordView| project_view(r, columns))
    }
}

/// The column mapping that pairs the first `n` of `columns` with the
/// first `n` of `values`, position by position. A later pair replaces an
/// earlier one of the same column.
pub open spec fn zipped_to(columns: Seq<Seq<char>>, values: Seq<Seq<char>>, n: int) -> Map<
    Seq<char>,
    Seq<char>,
>
    decreases n,
{
    if n <= 0 {
        Map::empty()
    } else {
        zipped_to(columns, values, n - 1).insert(columns[n - 1], values[n - 1])
    }
}

/// The column mapping that pairs `columns` with `values` position by
/// position, as far as the shorter list goes.
pub open spec fn zipped(columns: Seq<Seq<char>>, values: Seq<Seq<char>>) -> Map<
    Seq<char>,
    Seq<char>,
> {
    if columns.len() <= values.len() {
        zipped_to(columns, values, columns.len() as int)
    } else {
        zipped_to(columns, values, values.len() as int)
    }
}

impl TableView {
    /// The table after one step of an update: the record indexed under
    /// `id` has `column` set where it has that column.
    pub open spec fn update_step(self, id: u64, column: Seq<char>, value: Seq<char>) -> TableView {
        if self.has_column(id, column) {
            self.column_set(id, column, value)
        } else {
            self
        }
    }

    /// The table after the update steps for `ids`, taken in order.
    pub open spec fn update_each(self, ids: Seq<u64>, column: Seq<char>, value: Seq<char>) -> TableView
        decreases ids.len(),
    {
        if ids.len() == 0 {
            self
        } else {
            self.update_each(ids.drop_last(), column, value).update_step(ids.last(), column, value)
        }
    }

    /// The records that the update steps for `ids` changed, each as it was
    /// right after its step, in order.
    pub open spec fn update_reports(self, ids: Seq<u64>, column: Seq<char>, value: Seq<char>) -> Seq<
        RecordView,
    >
        decreases ids.len(),
    {
        if ids.len() == 0 {
            Seq::empty()
        } else {
            let before = self.update_each(ids.drop_last(), column, value);
            let reports = self.update_reports(ids.drop_last(), column, value);
            if before.has_column(ids.last(), column) {
                reports.push(before.column_set(ids.last(), column, value).record_of(ids.last()))
            } else {
                reports
            }
        }
    }

    /// The table after one step of a removal: the record indexed under
    /// `id` is removed where there is one.
    pub open spec fn delete_step(self, id: u64) -> TableView {
        if self.contains(id) {
            self.deleted(id)
        } else {
            self
        }
    }

    /// The table after the removal steps for `ids`, taken in order.
    pub open spec fn delete_each(self, ids: Seq<u64>) -> TableView
        decreases ids.len(),
    {
        if ids.len() == 0 {
            self
        } else {
            self.delete_each(ids.drop_last()).delete_step(ids.last())
        }
    }

    /// The records that the removal steps for `ids` removed, in order.
    pub open spec fn delete_reports(self, ids: Seq<u64>) -> Seq<RecordView>
        decreases ids.len(),
    {
        if ids.len() == 0 {
            Seq::empty()
        } else {
            let before = self.delete_each(ids.drop_last());
            let reports = self.delete_reports(ids.drop_last());
            if before.contains(ids.last()) {
                reports.push(before.record_of(ids.last()))
            } else {
                reports
            }
        }
    }
}

/// Filtering the first `i + 1` of a sequence is filtering the first `i`
/// and then looking at the one at `i`.
pub proof fn lemma_filter_step<A>(s: Seq<A>, i: int, keep: spec_fn(A) -> bool)
    requires
        0 <= i < s.len(),
    ensures
        s.take(i + 1).filter(keep) == if keep(s[i]) {
            s.take(i).filter(keep).push(s[i])
        } else {
            s.take(i).filter(keep)
        },
{
    reveal(Seq::filter);
    assert(s.take(i + 1).drop_last() =~= s.take(i));
}

/// Filtering none of a sequence gives nothing.
pub proof fn lemma_filter_none<A>(s: Seq<A>, keep: spec_fn(A) -> bool)
    ensures
        s.take(0).filter(keep) == Seq::<A>::empty(),
{
    reveal(Seq::filter);
}

/// Whether a record satisfies an optional condition; every record
/// satisfies the absent one.
pub fn evaluate(record: &Record, condition: &Option<Condition>) -> (r: bool)
    requires
        record.wf(),
    ensures
        r == holds_opt(opt_view(*condition), record@.data),
{
    match condition {
        Some(c) => c.eval(record),
        None => true,
    }
}

/// The column mapping that pairs `columns` with `values` position by position.
pub fn zip_columns(columns: &Vec<String>, values: &Vec<String>) -> (r: RowData)
    ensures
        r.wf(),
        r@ == zipped(views(columns@), views(values@)),
{
    let n = if columns.len() <= values.len() {
        columns.len()
    } else {
        values.len()
    };
    let mut data = RowData::new();
    let mut i: usize = 0;
    while i < n
        invariant
            i <= n,
            n <= columns@.len(),
            n <= values@.len(),
            data.wf(),
            data@ == zipped_to(views(columns@), views(values@), i as int),
        decreases n - i,
    {
        data.insert(columns[i].clone(), values[i].clone());
        i += 1;
    }
    data
}

impl Table {
    /// The ids of the records that satisfy `condition`, in storage order.
    pub fn matching_ids(&self, condition: &Option<Condition>) -> (r: Vec<u64>)
        requires
            self.wf(),
        ensures
            r@ == ids_of(matching(self@.records, opt_view(*condition))),
    {
        let ghost cond = opt_view(*condition);
        let ghost all = self@.records;
        let mut out: Vec<u64> = Vec::new();
        let mut i: usize = 0;
        let n = self.len();
        proof {
            lemma_filter_none(all, satisfies(cond));
        }
        while i < n
            invariant
                i <= n,
                n == all.len(),
                all == self@.records,
                cond == opt_view(*condition),
                self.wf(),
                out@ == ids_of(matching(all.take(i as int), cond)),
            decreases n - i,
        {
            let record = self.record_at(i);
            proof {
                lemma_filter_step(all, i as int, satisfies(cond));
            }
            if evaluate(record, condition) {
                out.push(record.id());
            }
            i += 1;
        }
        assert(all.take(n as int) =~= all);
        out
    }

    /// Copies of the records that satisfy `condition`, whole where
    /// `columns` is the single word `*`, otherwise restricted to `columns`.
    pub fn select(&self, columns: &Vec<String>, condition: &Option<Condition>) -> (r: Vec<Record>)
        requires
            self.wf(),
        ensures
            crate::record::all_wf(r@),
            record_views(r@) == selected(self@.records, views(columns@), opt_view(*condition)),
    {
        let ghost cond = opt_view(*condition);
        let ghost cols = views(columns@);
        let ghost all = self@.records;
        proof {
            reveal_strlit("*");
            assert("*"@ =~= seq!['*']);
        }
        let star = columns.len() == 1 && str_eq(columns[0].as_str(), "*");
        let mut out: Vec<Record> = Vec::new();
        let mut i: usize = 0;
        let n = self.len();
        proof {
            lemma_filter_none(all, satisfies(cond));
        }
        while i < n
            invariant
                i <= n,
                n == all.len(),
                all == self@.records,
                cond == opt_view(*condition),
                cols == views(columns@),
                star == is_star(cols),
                self.wf(),
                crate::record::all_wf(out@),
                record_views(out@) == selected(all.take(i as int), cols, cond),
            decreases n - i,
        {
            let record = self.record_at(i);
            proof {
                lemma_filter_step(all, i as int, satisfies(cond));
            }
            let ghost found = matching(all.take(i as int), cond);
            if evaluate(record, condition) {
                if star {
                    out.push(record.duplicate());
                } else {
                    out.push(record.project(columns));
                    proof {
                        let cut = |r: RecordView| project_view(r, cols);
                        assert(found.push(record@).map_values(cut) =~= found.map_values(cut).push(
                            cut(record@),
                        ));
                    }
                }
            }
            i += 1;
        }
        assert(all.take(n as int) =~= all);
        out
    }

    /// Sets `column` to `value` in the records that satisfy `condition` and
    /// have that column, and returns copies of the records so changed.
    ///
    /// The records are found first and then looked up by id, one after the
    /// other; a record that lacks the column is neither changed nor returned.
    pub fn update_where(&mut self, column: &str, value: &str, condition: &Option<Condition>) -> (r:
        Vec<Record>)
        requires
            old(self).wf(),
        ensures
            final(self).wf(),
            crate::record::all_wf(r@),
            final(self)@ == old(self)@.update_each(
                ids_of(matching(old(self)@.records, opt_view(*condition))),
                column@,
                value@,
            ),
            record_views(r@) == old(self)@.update_reports(
                ids_of(matching(old(self)@.records, opt_view(*condition))),
                column@,
                value@,
            ),
    {
        let ids = self.matching_ids(condition);
        let mut out: Vec<Record> = Vec::new();
        let mut i: usize = 0;
        while i < ids.len()
            invariant
                i <= ids@.len(),
                self.wf(),
                crate::record::all_wf(out@),
                self@ == old(self)@.update_each(ids@.take(i as int), column@, value@),
                record_views(out@) == old(self)@.update_reports(ids@.take(i as int), column@, value@),
            decreases ids@.len() - i,
        {
            proof {
                let next = ids@.take(i + 1);
                assert(next.drop_last() =~= ids@.take(i as int));
            }
            match self.set_column(ids[i], column, crate::text::own(value)) {
                Some(changed) => {
                    out.push(changed);
                },
                None => {},
            }
            i += 1;
        }
        assert(ids@.take(ids@.len() as int) =~= ids@);
        out
    }

    /// Removes the records that satisfy `condition` and returns them.
    ///
    /// The records are found first and then removed by id, one after the
    /// other, the index being brought up to date after each removal.
    pub fn delete_where(&mut self, condition: &Option<Condition>) -> (r: Vec<Record>)
        requires
            old(self).wf(),
        ensures
            final(self).wf(),
            crate::record::all_wf(r@),
            final(self)@ == old(self)@.delete_each(
                ids_of(matching(old(self)@.records, opt_view(*condition))),
            ),
            record_views(r@) == old(self)@.delete_reports(
                ids_of(matching(old(self)@.records, opt_view(*condition))),
            ),
    {
        let ids = self.matching_ids(condition);
        let mut out: Vec<Record> = Vec::new();
        let mut i: usize = 0;
        while i < ids.len()
            invariant
                i <= ids@.len(),
                self.wf(),
                crate::record::all_wf(out@),
                self@ == old(self)@.delete_each(ids@.take(i as int)),
                record_views(out@) == old(self)@.delete_reports(ids@.take(i as int)),
            decreases ids@.len() - i,
        {
            proof {
                let next = ids@.take(i + 1);
                assert(next.drop_last() =~= ids@.take(i as int));
            }
            match self.remove(ids[i]) {
                Some(removed) => {
                    out.push(removed);
                },
                None => {},
            }
            i += 1;
        }
        assert(ids@.take(ids@.len() as int) =~= ids@);
        out
    }
}

} // verus!
