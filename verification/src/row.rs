//! The column mapping of a record: column names to string values, each name
//! at most once.

use vstd::prelude::*;
use crate::text::{str_eq, views};

verus! {

/// Column names with their values, as plain mathematics.
pub type Pairs = Seq<(Seq<char>, Seq<char>)>;

/// The mapping that a sequence of entries stands for. Where a name occurs
/// more than once the last occurrence counts.
pub open spec fn map_of(entries: Pairs) -> Map<Seq<char>, Seq<char>>
    decreases entries.len(),
{
    if entries.len() == 0 {
        Map::empty()
    } else {
        map_of(entries.drop_last()).insert(entries.last().0, entries.last().1)
    }
}

/// No column name occurs twice among the entries.
pub open spec fn distinct_names(entries: Pairs) -> bool {
    forall|i: int, j: int|
        0 <= i < j < entries.len() ==> (#[trigger] entries[i]).0 != (#[trigger] entries[j]).0
}

/// Whether some entry carries the name `key`.
pub open spec fn has_name(entries: Pairs, key: Seq<char>) -> bool {
    exists|i: int| 0 <= i < entries.len() && (#[trigger] entries[i]).0 == key
}

/// The mapping's keys are exactly the names that occur.
pub proof fn lemma_map_of_dom(entries: Pairs, key: Seq<char>)
    ensures
        map_of(entries).dom().contains(key) <==> has_name(entries, key),
    decreases entries.len(),
{
    if entries.len() > 0 {
        let init = entries.drop_last();
        lemma_map_of_dom(init, key);
        if has_name(entries, key) && entries.last().0 != key {
            let i = choose|i: int| 0 <= i < entries.len() && (#[trigger] entries[i]).0 == key;
            assert(init[i].0 == key);
        }
    }
}

/// With distinct names, each entry's value is the one the mapping gives its name.
pub proof fn lemma_map_of_value(entries: Pairs, i: int)
    requires
        distinct_names(entries),
        0 <= i < entries.len(),
    ensures
        map_of(entries).dom().contains(entries[i].0),
        map_of(entries)[entries[i].0] == entries[i].1,
    decreases entries.len(),
{
    let init = entries.drop_last();
    if i < entries.len() - 1 {
        lemma_map_of_value(init, i);
    }
}

/// The column mapping of one record.
#[derive(Clone, Debug)]
pub struct RowData {
    entries: Vec<(String, String)>,
}

impl View for RowData {
    type V = Map<Seq<char>, Seq<char>>;

    closed spec fn view(&self) -> Map<Seq<char>, Seq<char>> {
        map_of(self.entries.deep_view())
    }
}

impl RowData {
    /// The representation invariant: no column name is held twice.
    pub closed spec fn wf(&self) -> bool {
        distinct_names(self.entries.deep_view())
    }

    /// The columns with their values in the order in which they are held.
    pub closed spec fn pairs(&self) -> Pairs {
        self.entries.deep_view()
    }

    /// The number of entries held, which for a well-formed value is the
    /// number of columns.
    pub closed spec fn spec_len(&self) -> nat {
        self.entries.deep_view().len()
    }

    /// A mapping with no columns.
    pub fn new() -> (r: RowData)
        ensures
            r.wf(),
            r@ == Map::<Seq<char>, Seq<char>>::empty(),
            r.spec_len() == 0,
    {
        RowData { entries: Vec::new() }
    }

    /// The number of columns.
    pub fn len(&self) -> (n: usize)
        requires
            self.wf(),
        ensures
            n == self.spec_len(),
            n == self@.dom().len(),
            self@.dom().finite(),
    {
        proof {
            lemma_dom_len(self.entries.deep_view());
        }
        self.entries.len()
    }

    /// The position of the entry named `key`, if there is one.
    fn position(&self, key: &str) -> (r: Option<usize>)
        ensures
            match r {
                Some(i) => i < self.entries.deep_view().len() && self.entries.deep_view()[i as int].0 == key@,
                None => !has_name(self.entries.deep_view(), key@),
            },
    {
        let mut i: usize = 0;
        while i < self.entries.len()
            invariant
                i <= self.entries.deep_view().len(),
                forall|j: int| 0 <= j < i ==> (#[trigger] self.entries.deep_view()[j]).0 != key@,
            decreases self.entries.deep_view().len() - i,
        {
            if str_eq(self.entries[i].0.as_str(), key) {
                return Some(i);
            }
            i += 1;
        }
        None
    }

    /// Whether the column `key` is present.
    pub fn contains_key(&self, key: &str) -> (r: bool)
        ensures
            r == self@.contains_key(key@),
    {
        proof {
            lemma_map_of_dom(self.entries.deep_view(), key@);
        }
        self.position(key).is_some()
    }

    /// The value of the column `key`, or `None` where the column is absent.
    pub fn get(&self, key: &str) -> (r: Option<&String>)
        requires
            self.wf(),
        ensures
            r is Some == self@.contains_key(key@),
            r is Some ==> r->0@ == self@[key@],
    {
        proof {
            lemma_map_of_dom(self.entries.deep_view(), key@);
        }
        match self.position(key) {
            Some(i) => {
                proof {
                    lemma_map_of_value(self.entries.deep_view(), i as int);
                }
                Some(&self.entries[i].1)
            },
            None => None,
        }
    }

    /// Sets the column `key` to `value`, adding the column where it is
    /// absent. Returns whether the column was present before.
    pub fn insert(&mut self, key: String, value: String) -> (replaced: bool)
        requires
            old(self).wf(),
        ensures
            final(self).wf(),
            final(self)@ == old(self)@.insert(key@, value@),
            replaced == old(self)@.contains_key(key@),
    {
        proof {
            lemma_map_of_dom(self.entries.deep_view(), key@);
        }
        match self.position(key.as_str()) {
            Some(i) => {
                proof {
                    lemma_map_of_update(self.entries.deep_view(), i as int, (key@, value@));
                }
                self.entries.set(i, (key, value));
                assert(self.entries.deep_view() =~= old(self).entries.deep_view().update(
                    i as int,
                    (key@, value@),
                ));
                true
            },
            None => {
                let ghost before = self.entries.deep_view();
                self.entries.push((key, value));
                proof {
                    assert(self.entries.deep_view() =~= before.push((key@, value@)));
                    assert(self.entries.deep_view().drop_last() =~= before);
                }
                false
            },
        }
    }

    /// Sets the column `key` to `value` only where the column is present.
    /// Returns whether it was; an absent column leaves the mapping as it is.
    pub fn replace_existing(&mut self, key: &str, value: String) -> (changed: bool)
        requires
            old(self).wf(),
        ensures
            final(self).wf(),
            changed == old(self)@.contains_key(key@),
            changed ==> final(self)@ == old(self)@.insert(key@, value@),
            !changed ==> final(self)@ == old(self)@,
    {
        proof {
            lemma_map_of_dom(self.entries.deep_view(), key@);
        }
        match self.position(key) {
            Some(i) => {
                let name = self.entries[i].0.clone();
                proof {
                    lemma_map_of_update(self.entries.deep_view(), i as int, (name@, value@));
                }
                self.entries.set(i, (name, value));
                assert(self.entries.deep_view() =~= old(self).entries.deep_view().update(
                    i as int,
                    (name@, value@),
                ));
                true
            },
            None => false,
        }
    }

    /// A copy that keeps only the columns named in `columns`. A name in
    /// `columns` that is no column here adds nothing.
    pub fn project(&self, columns: &Vec<String>) -> (r: RowData)
        requires
            self.wf(),
        ensures
            r.wf(),
            r@ == self@.restrict(views(columns@).to_set()),
    {
        let mut out: Vec<(String, String)> = Vec::new();
        let ghost mut src: Seq<int> = Seq::empty();
        let mut i: usize = 0;
        while i < self.entries.len()
            invariant
                i <= self.entries.deep_view().len(),
                self.wf(),
                src.len() == out.deep_view().len(),
                forall|a: int| 0 <= a < src.len() ==> 0 <= #[trigger] src[a] < i,
                forall|a: int, b: int| 0 <= a < b < src.len() ==> #[trigger] src[a] < #[trigger] src[b],
                forall|a: int|
                    0 <= a < out.deep_view().len() ==> (#[trigger] out.deep_view()[a]).0 == self.entries.deep_view()[src[a]].0
                        && out.deep_view()[a].1 == self.entries.deep_view()[src[a]].1 && views(
                        columns@,
                    ).contains(out.deep_view()[a].0),
                forall|j: int|
                    0 <= j < i && views(columns@).contains((#[trigger] self.entries.deep_view()[j]).0)
                        ==> has_name(out.deep_view(), self.entries.deep_view()[j].0),
            decreases self.entries.deep_view().len() - i,
        {
            if contains_str(columns, self.entries[i].0.as_str()) {
                let ghost before = out.deep_view();
                out.push((self.entries[i].0.clone(), self.entries[i].1.clone()));
                proof {
                    src = src.push(i as int);
                    assert(out.deep_view() =~= before.push(self.entries.deep_view()[i as int]));
                    assert forall|j: int|
                        0 <= j < i + 1 && views(columns@).contains(
                            (#[trigger] self.entries.deep_view()[j]).0,
                        ) implies has_name(out.deep_view(), self.entries.deep_view()[j].0) by {
                        if j < i {
                            let a = choose|a: int|
                                0 <= a < before.len() && (#[trigger] before[a]).0
                                    == self.entries.deep_view()[j].0;
                            assert(out.deep_view()[a].0 == self.entries.deep_view()[j].0);
                        } else {
                            assert(out.deep_view()[out.deep_view().len() - 1].0 == self.entries.deep_view()[j].0);
                        }
                    }
                }
            }
            i += 1;
        }
        let r = RowData { entries: out };
        proof {
            let want = self@.restrict(views(columns@).to_set());
            assert forall|k: Seq<char>| r@.dom().contains(k) <==> want.dom().contains(k) by {
                lemma_map_of_dom(out.deep_view(), k);
                lemma_map_of_dom(self.entries.deep_view(), k);
            }
            assert forall|k: Seq<char>| r@.dom().contains(k) implies r@[k] == want[k] by {
                lemma_map_of_dom(out.deep_view(), k);
                let a = choose|a: int| 0 <= a < out.deep_view().len() && (#[trigger] out.deep_view()[a]).0 == k;
                lemma_map_of_value(out.deep_view(), a);
                lemma_map_of_value(self.entries.deep_view(), src[a]);
            }
        }
        r
    }

    /// A copy with the same columns and values.
    pub fn duplicate(&self) -> (r: RowData)
        requires
            self.wf(),
        ensures
            r.wf(),
            r@ == self@,
            r.spec_len() == self.spec_len(),
    {
        RowData { entries: self.entries() }
    }

    /// Copies of the columns with their values, one pair for each column.
    pub fn entries(&self) -> (r: Vec<(String, String)>)
        requires
            self.wf(),
        ensures
            r.deep_view() == self.pairs(),
            distinct_names(r.deep_view()),
            map_of(r.deep_view()) == self@,
            r@.len() == self.spec_len(),
    {
        let mut out: Vec<(String, String)> = Vec::new();
        let mut i: usize = 0;
        while i < self.entries.len()
            invariant
                i <= self.entries@.len(),
                out@.len() == i,
                forall|a: int| 0 <= a < i ==> (#[trigger] out.deep_view()[a]) == self.entries.deep_view()[a],
            decreases self.entries@.len() - i,
        {
            let ghost before = out.deep_view();
            out.push((self.entries[i].0.clone(), self.entries[i].1.clone()));
            assert(out.deep_view() =~= before.push(self.entries.deep_view()[i as int]));
            i += 1;
        }
        out
    }

    /// The mapping that the entries stand for, where no column name occurs
    /// twice among them; `None` where one does.
    pub fn from_entries(entries: &Vec<(String, String)>) -> (r: Option<RowData>)
        ensures
            r is Some == distinct_names(entries.deep_view()),
            r is Some ==> r->0.wf() && r->0@ == map_of(entries.deep_view()),
    {
        let mut out: Vec<(String, String)> = Vec::new();
        let mut i: usize = 0;
        while i < entries.len()
            invariant
                i <= entries.deep_view().len(),
                out.deep_view().len() == i,
                forall|a: int| 0 <= a < i ==> (#[trigger] out.deep_view()[a]) == entries.deep_view()[a],
                forall|a: int, b: int|
                    0 <= a < b < i ==> (#[trigger] entries.deep_view()[a]).0 != (#[trigger] entries.deep_view()[b]).0,
            decreases entries.deep_view().len() - i,
        {
            let mut k: usize = 0;
            while k < i
                invariant
                    k <= i < entries.deep_view().len(),
                    forall|a: int| 0 <= a < k ==> (#[trigger] entries.deep_view()[a]).0 != entries.deep_view()[i as int].0,
                decreases i - k,
            {
                if str_eq(entries[k].0.as_str(), entries[i].0.as_str()) {
                    assert(entries.deep_view()[k as int].0 == entries.deep_view()[i as int].0);
                    return None;
                }
                k += 1;
            }
            let ghost before = out.deep_view();
            out.push((entries[i].0.clone(), entries[i].1.clone()));
            assert(out.deep_view() =~= before.push(entries.deep_view()[i as int]));
            i += 1;
        }
        assert(out.deep_view() =~= entries.deep_view());
        Some(RowData { entries: out })
    }
}

/// Whether `key` is one of `columns`.
pub fn contains_str(columns: &Vec<String>, key: &str) -> (r: bool)
    ensures
        r == views(columns@).contains(key@),
{
    let mut i: usize = 0;
    while i < columns.len()
        invariant
            i <= columns@.len(),
            forall|j: int| 0 <= j < i ==> (#[trigger] views(columns@)[j]) != key@,
        decreases columns@.len() - i,
    {
        if str_eq(columns[i].as_str(), key) {
            assert(views(columns@)[i as int] == key@);
            return true;
        }
        i += 1;
    }
    false
}

/// Replacing the entry that carries a name by another of the same name
/// sets that name's value and changes nothing else.
pub proof fn lemma_map_of_update(entries: Pairs, i: int, e: (Seq<char>, Seq<char>))
    requires
        distinct_names(entries),
        0 <= i < entries.len(),
        e.0 == entries[i].0,
    ensures
        distinct_names(entries.update(i, e)),
        map_of(entries.update(i, e)) == map_of(entries).insert(e.0, e.1),
{
    let after = entries.update(i, e);
    let want = map_of(entries).insert(e.0, e.1);
    assert forall|k: Seq<char>| map_of(after).dom().contains(k) <==> want.dom().contains(k) by {
        lemma_map_of_dom(after, k);
        lemma_map_of_dom(entries, k);
        if has_name(entries, k) {
            let a = choose|a: int| 0 <= a < entries.len() && (#[trigger] entries[a]).0 == k;
            assert(after[a].0 == k);
        }
    }
    assert forall|k: Seq<char>| map_of(after).dom().contains(k) implies map_of(after)[k]
        == want[k] by {
        lemma_map_of_dom(after, k);
        let a = choose|a: int| 0 <= a < after.len() && (#[trigger] after[a]).0 == k;
        lemma_map_of_value(after, a);
        lemma_map_of_value(entries, a);
    }
}

/// With distinct names the mapping has as many keys as there are entries.
pub proof fn lemma_dom_len(entries: Pairs)
    requires
        distinct_names(entries),
    ensures
        map_of(entries).dom().finite(),
        map_of(entries).dom().len() == entries.len(),
    decreases entries.len(),
{
    if entries.len() > 0 {
        let init = entries.drop_last();
        lemma_dom_len(init);
        lemma_map_of_dom(init, entries.last().0);
    }
}

} // verus!
