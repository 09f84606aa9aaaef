//! Conditions: trees of column comparisons joined by AND and OR, and their
//! evaluation against a record.

use vstd::prelude::*;
use crate::record::Record;
use crate::text::{lex_lt, str_eq, str_lt};

verus! {

/// A condition over the columns of one record.
#[derive(Debug)]
pub enum Condition {
    /// The column is present and holds exactly the operand.
    Equals(String, String),
    /// The column is absent, or holds something other than the operand.
    NotEquals(String, String),
    /// The column is present and its value sorts after the operand.
    GreaterThan(String, String),
    /// The column is present and its value sorts before the operand.
    LessThan(String, String),
    /// Both sides hold.
    And(Box<Condition>, Box<Condition>),
    /// At least one side holds.
    Or(Box<Condition>, Box<Condition>),
}

/// A condition as plain mathematics.
pub ghost enum Cond {
    Equals(Seq<char>, Seq<char>),
    NotEquals(Seq<char>, Seq<char>),
    GreaterThan(Seq<char>, Seq<char>),
    LessThan(Seq<char>, Seq<char>),
    And(Box<Cond>, Box<Cond>),
    Or(Box<Cond>, Box<Cond>),
}

/// The mathematical condition that a condition tree stands for.
pub open spec fn cond_view(c: Condition) -> Cond
    decreases c,
{
    match c {
        Condition::Equals(c, v) => Cond::Equals(c@, v@),
        Condition::NotEquals(c, v) => Cond::NotEquals(c@, v@),
        Condition::GreaterThan(c, v) => Cond::GreaterThan(c@, v@),
        Condition::LessThan(c, v) => Cond::LessThan(c@, v@),
        Condition::And(l, r) => Cond::And(Box::new(cond_view(*l)), Box::new(cond_view(*r))),
        Condition::Or(l, r) => Cond::Or(Box::new(cond_view(*l)), Box::new(cond_view(*r))),
    }
}

impl View for Condition {
    type V = Cond;

    open spec fn view(&self) -> Cond {
        cond_view(*self)
    }
}

/// Whether a record with the columns `data` satisfies `cond`. Comparison is
/// on strings: `"9"` sorts after `"30"`.
pub open spec fn holds(cond: Cond, data: Map<Seq<char>, Seq<char>>) -> bool
    decreases cond,
{
    match cond {
        Cond::Equals(c, v) => data.contains_key(c) && data[c] == v,
        Cond::NotEquals(c, v) => !data.contains_key(c) || data[c] != v,
        Cond::GreaterThan(c, v) => data.contains_key(c) && lex_lt(v, data[c]),
        Cond::LessThan(c, v) => data.contains_key(c) && lex_lt(data[c], v),
        Cond::And(l, r) => holds(*l, data) && holds(*r, data),
        Cond::Or(l, r) => holds(*l, data) || holds(*r, data),
    }
}

/// Whether a record satisfies an optional condition; no condition is
/// satisfied by every record.
pub open spec fn holds_opt(cond: Option<Cond>, data: Map<Seq<char>, Seq<char>>) -> bool {
    match cond {
        Some(c) => holds(c, data),
        None => true,
    }
}

/// The view of an optional condition.
pub open spec fn opt_view(cond: Option<Condition>) -> Option<Cond> {
    match cond {
        Some(c) => Some(c@),
        None => None,
    }
}

impl Condition {
    /// Evaluates the condition against a record.
    pub fn eval(&self, record: &Record) -> (r: bool)
        requires
            record.wf(),
        ensures
            r == holds(self@, record@.data),
        decreases self,
    {
        match self {
            Condition::Equals(c, v) => match record.get(c.as_str()) {
                Some(x) => str_eq(x.as_str(), v.as_str()),
                None => false,
            },
            Condition::NotEquals(c, v) => match record.get(c.as_str()) {
                Some(x) => !str_eq(x.as_str(), v.as_str()),
                None => true,
            },
            Condition::GreaterThan(c, v) => match record.get(c.as_str()) {
                Some(x) => str_lt(v.as_str(), x.as_str()),
                None => false,
            },
            Condition::LessThan(c, v) => match record.get(c.as_str()) {
                Some(x) => str_lt(x.as_str(), v.as_str()),
                None => false,
            },
            Condition::And(l, r) => l.eval(record) && r.eval(record),
            Condition::Or(l, r) => l.eval(record) || r.eval(record),
        }
    }
}

} // verus!
