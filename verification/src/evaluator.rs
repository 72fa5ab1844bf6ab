use vstd::prelude::*;

use crate::parser::{well_formed, Column, Op, Query, QueryView};
use crate::record::{level_text, LogLine, LogRecord};
use crate::text::{chars_of, text_eq};

verus! {

/// `a` comes strictly before `b` in the order of their characters, looked at
/// from index `i` on; a proper prefix comes first. Strings in Rust order by
/// their UTF-8 bytes, and UTF-8 keeps the order of code points, so this is the
/// order of `<` on `String`.
pub open spec fn text_less_from(a: Seq<char>, b: Seq<char>, i: int) -> bool
    decreases a.len() - i,
{
    if i < 0 {
        false
    } else if i >= a.len() {
        i < b.len()
    } else if i >= b.len() {
        false
    } else if a[i] != b[i] {
        (a[i] as u32) < (b[i] as u32)
    } else {
        text_less_from(a, b, i + 1)
    }
}

/// `a < b` in lexicographic order.
pub open spec fn text_less(a: Seq<char>, b: Seq<char>) -> bool {
    text_less_from(a, b, 0)
}

/// `sub` occurs in `s` starting at index `i`.
pub open spec fn occurs_at(s: Seq<char>, sub: Seq<char>, i: int) -> bool {
    0 <= i && i + sub.len() <= s.len() && s.subrange(i, i + sub.len()) == sub
}

/// `sub` occurs somewhere in `s` (the empty text occurs everywhere).
pub open spec fn contains(s: Seq<char>, sub: Seq<char>) -> bool {
    exists|i: int| occurs_at(s, sub, i)
}

/// Whether `column op value` holds of record `r`.
pub open spec fn comparison_holds(column: Column, op: Op, value: Seq<char>, r: LogLine) -> bool {
    match column {
        Column::Level => match op {
            Op::Eq => level_text(r.level) == value,
            _ => level_text(r.level) != value,
        },
        Column::Source => match op {
            Op::Eq => r.source == value,
            _ => r.source != value,
        },
        Column::Message => contains(r.message, value),
        Column::Timestamp => match op {
            Op::Eq => r.timestamp == value,
            Op::Gt => text_less(value, r.timestamp),
            Op::Gte => !text_less(r.timestamp, value),
            Op::Lt => text_less(r.timestamp, value),
            _ => !text_less(value, r.timestamp),
        },
    }
}

/// Whether record `r` satisfies query `q`.
pub open spec fn satisfies(q: QueryView, r: LogLine) -> bool
    decreases q,
{
    match q {
        QueryView::Compare(c, o, v) => comparison_holds(c, o, v, r),
        QueryView::And(a, b) => satisfies(*a, r) && satisfies(*b, r),
        QueryView::Or(a, b) => satisfies(*a, r) || satisfies(*b, r),
        QueryView::Not(a) => !satisfies(*a, r),
    }
}

/// Whether `a` comes strictly before `b`.
fn text_lt(a: &Vec<char>, b: &Vec<char>) -> (r: bool)
    ensures
        r == text_less(a@, b@),
{
    let mut i: usize = 0;
    while i < a.len() && i < b.len() && a[i] == b[i]
        invariant
            i <= a.len(),
            i <= b.len(),
            text_less(a@, b@) == text_less_from(a@, b@, i as int),
        decreases a.len() - i,
    {
        i = i + 1;
    }
    if i >= a.len() {
        i < b.len()
    } else if i >= b.len() {
        false
    } else {
        (a[i] as u32) < (b[i] as u32)
    }
}

/// Whether `sub` occurs in `s`.
fn contains_text(s: &Vec<char>, sub: &Vec<char>) -> (r: bool)
    ensures
        r == contains(s@, sub@),
{
    if sub.len() > s.len() {
        return false;
    }
    let last = s.len() - sub.len();
    let mut i: usize = 0;
    while i <= last
        invariant
            last == s.len() - sub.len(),
            sub.len() <= s.len(),
            i <= last + 1,
            forall|k: int| 0 <= k < i ==> !occurs_at(s@, sub@, k),
        decreases last + 1 - i,
    {
        let mut j: usize = 0;
        while j < sub.len() && s[i + j] == sub[j]
            invariant
                i <= last,
                last == s.len() - sub.len(),
                j <= sub.len(),
                forall|k: int| 0 <= k < j ==> s@[i + k] == sub@[k],
            decreases sub.len() - j,
        {
            j = j + 1;
        }
        if j == sub.len() {
            assert(s@.subrange(i as int, i + sub.len()) =~= sub@);
            assert(occurs_at(s@, sub@, i as int));
            return true;
        }
        assert(s@.subrange(i as int, i + sub.len())[j as int] != sub@[j as int]);
        i = i + 1;
    }
    assert forall|k: int| !occurs_at(s@, sub@, k) by {
        if 0 <= k < i {
        }
    }
    false
}

/// Decides whether `record` satisfies `query`.
///
/// The query must come from `parse`, which allows on each column only the
/// operators that the grammar gives it.
pub fn evaluate(query: &Query, record: &LogRecord) -> (r: bool)
    requires
        well_formed(query@),
    ensures
        r == satisfies(query@, record@),
    decreases query,
{
    match query {
        Query::Comparison(comp) => match comp.column {
            Column::Level => {
                let same = text_eq(record.level.as_text(), comp.value.as_str());
                match comp.op {
                    Op::Eq => same,
                    _ => !same,
                }
            },
            Column::Source => {
                let same = record.source == comp.value;
                match comp.op {
                    Op::Eq => same,
                    _ => !same,
                }
            },
            Column::Message => {
                let m = chars_of(record.message.as_str());
                let v = chars_of(comp.value.as_str());
                contains_text(&m, &v)
            },
            Column::Timestamp => {
                let t = chars_of(record.timestamp.as_str());
                let v = chars_of(comp.value.as_str());
                match comp.op {
                    Op::Eq => text_eq(record.timestamp.as_str(), comp.value.as_str()),
                    Op::Gt => text_lt(&v, &t),
                    Op::Gte => !text_lt(&t, &v),
                    Op::Lt => text_lt(&t, &v),
                    _ => !text_lt(&v, &t),
                }
            },
        },
        Query::And(left, right) => evaluate(left, record) && evaluate(right, record),
        Query::Or(left, right) => evaluate(left, record) || evaluate(right, record),
        Query::Not(inner) => !evaluate(inner, record),
    }
}

} // verus!
