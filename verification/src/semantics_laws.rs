use vstd::prelude::*;

use crate::evaluator::{contains, occurs_at, satisfies, text_less, text_less_from};
use crate::laws::{lemma_column_word, query_tokens};
use crate::parser::{
    is_keyword_at, kw_and, kw_not, kw_or, op_of, p_and, p_and_tail, p_atom, p_comparison, p_expr,
    p_expr_tail, p_not, parse_spec, well_formed, Column, Op, ParseErrorView, QueryView,
};
use crate::record::{Level, LogLine};
use crate::token::TokenView;

verus! {

/// `a` and `b` agree on their first `k` characters.
pub open spec fn same_prefix(a: Seq<char>, b: Seq<char>, k: int) -> bool {
    forall|j: int| 0 <= j < k ==> a[j] == b[j]
}

/// `a` comes before `b` in dictionary order: `a` is a proper prefix of `b`, or
/// at the first position where they differ `a` has the smaller character.
pub open spec fn dictionary_before(a: Seq<char>, b: Seq<char>) -> bool {
    ||| (a.len() < b.len() && same_prefix(a, b, a.len() as int))
    ||| exists|k: int|
        0 <= k < a.len() && k < b.len() && same_prefix(a, b, k) && (#[trigger] a[k] as u32) < (
        b[k] as u32)
}

proof fn lemma_less_from_is_dictionary(a: Seq<char>, b: Seq<char>, i: int)
    requires
        0 <= i <= a.len(),
        i <= b.len(),
        same_prefix(a, b, i),
    ensures
        text_less_from(a, b, i) <==> dictionary_before(a, b),
    decreases a.len() - i,
{
    if i == a.len() {
        if dictionary_before(a, b) && !(a.len() < b.len()) {
            let k = choose|k: int|
                0 <= k < a.len() && k < b.len() && same_prefix(a, b, k) && (#[trigger] a[k] as u32)
                    < (b[k] as u32);
            assert(a[k] == b[k]);
        }
    } else if i == b.len() {
        if dictionary_before(a, b) {
            let k = choose|k: int|
                0 <= k < a.len() && k < b.len() && same_prefix(a, b, k) && (#[trigger] a[k] as u32)
                    < (b[k] as u32);
            assert(a[k] == b[k]);
        }
    } else if a[i] != b[i] {
        if (a[i] as u32) < (b[i] as u32) {
            assert(dictionary_before(a, b));
        } else {
            if dictionary_before(a, b) {
                if a.len() < b.len() && same_prefix(a, b, a.len() as int) {
                    assert(a[i] == b[i]);
                } else {
                    let k = choose|k: int|
                        0 <= k < a.len() && k < b.len() && same_prefix(a, b, k) && (
                        #[trigger] a[k] as u32) < (b[k] as u32);
                    if k < i {
                        assert(a[k] == b[k]);
                    } else if k > i {
                        assert(a[i] == b[i]);
                    }
                }
            }
        }
    } else {
        lemma_less_from_is_dictionary(a, b, i + 1);
    }
}

/// The order in which timestamps are compared is dictionary order on their
/// characters: a proper prefix comes first, and otherwise the first
/// differing character decides.
pub proof fn law_text_order_is_dictionary_order(a: Seq<char>, b: Seq<char>)
    ensures
        text_less(a, b) <==> dictionary_before(a, b),
{
    lemma_less_from_is_dictionary(a, b, 0);
}

proof fn lemma_trichotomy_from(a: Seq<char>, b: Seq<char>, i: int)
    requires
        0 <= i <= a.len(),
        i <= b.len(),
        same_prefix(a, b, i),
    ensures
        text_less_from(a, b, i) || a == b || text_less_from(b, a, i),
        text_less_from(a, b, i) ==> a != b && !text_less_from(b, a, i),
        a == b ==> !text_less_from(a, b, i),
    decreases a.len() - i,
{
    if i == a.len() {
        if i == b.len() {
            assert(a =~= b);
        }
    } else if i == b.len() {
    } else if a[i] != b[i] {
        vstd::utf8::char_u32_cast(a[i], a[i] as u32);
        vstd::utf8::char_u32_cast(b[i], b[i] as u32);
        assert((a[i] as u32) != (b[i] as u32));
    } else {
        lemma_trichotomy_from(a, b, i + 1);
    }
}

/// Text order is a strict total order: of `a < b`, `a == b` and `b < a`
/// exactly one holds.
pub proof fn law_text_order_is_total(a: Seq<char>, b: Seq<char>)
    ensures
        text_less(a, b) || a == b || text_less(b, a),
        text_less(a, b) ==> a != b && !text_less(b, a),
        !text_less(a, a),
{
    lemma_trichotomy_from(a, b, 0);
    lemma_trichotomy_from(a, a, 0);
}

/// `a` and `b` are the same text, character for character.
pub open spec fn same_text(a: Seq<char>, b: Seq<char>) -> bool {
    a.len() == b.len() && forall|i: int| 0 <= i < a.len() ==> a[i] == b[i]
}

proof fn lemma_same_text(a: Seq<char>, b: Seq<char>)
    ensures
        same_text(a, b) <==> a == b,
{
    if same_text(a, b) {
        assert(a =~= b);
    }
}

/// `v` stands in `m` from position `i` on, character for character.
pub open spec fn stands_at(m: Seq<char>, v: Seq<char>, i: int) -> bool {
    0 <= i && i + v.len() <= m.len() && forall|j: int| 0 <= j < v.len() ==> #[trigger] m[i + j] == v[j]
}

/// A comparison query.
pub open spec fn compare(c: Column, o: Op, v: Seq<char>) -> QueryView {
    QueryView::Compare(c, o, v)
}

/// What each timestamp operator asks of a record: `=` the same text; `>` and
/// `<` the record's timestamp after or before the value; `>=` after or equal,
/// which is not before; `<=` before or equal, which is not after.
pub proof fn law_timestamp_operators(r: LogLine, v: Seq<char>)
    ensures
        satisfies(compare(Column::Timestamp, Op::Eq, v), r) <==> same_text(r.timestamp, v),
        satisfies(compare(Column::Timestamp, Op::Gt, v), r) <==> dictionary_before(v, r.timestamp),
        satisfies(compare(Column::Timestamp, Op::Lt, v), r) <==> dictionary_before(r.timestamp, v),
        satisfies(compare(Column::Timestamp, Op::Gte, v), r) <==> (satisfies(
            compare(Column::Timestamp, Op::Gt, v),
            r,
        ) || satisfies(compare(Column::Timestamp, Op::Eq, v), r)),
        satisfies(compare(Column::Timestamp, Op::Gte, v), r) <==> !satisfies(
            compare(Column::Timestamp, Op::Lt, v),
            r,
        ),
        satisfies(compare(Column::Timestamp, Op::Lte, v), r) <==> (satisfies(
            compare(Column::Timestamp, Op::Lt, v),
            r,
        ) || satisfies(compare(Column::Timestamp, Op::Eq, v), r)),
        satisfies(compare(Column::Timestamp, Op::Lte, v), r) <==> !satisfies(
            compare(Column::Timestamp, Op::Gt, v),
            r,
        ),
{
    lemma_same_text(r.timestamp, v);
    law_text_order_is_dictionary_order(v, r.timestamp);
    law_text_order_is_dictionary_order(r.timestamp, v);
    law_text_order_is_total(r.timestamp, v);
    law_text_order_is_total(v, r.timestamp);
}

/// What the `source`, `level` and `message` operators ask of a record:
/// `source = v` the same text as `v`, `source != v` a different one; `level = v`
/// that `v` spells the record's level exactly (`ERROR`, `WARN`, `INFO` or
/// `DEBUG`), `level != v` that it does not; `message CONTAINS v` that `v`
/// stands somewhere in the message, character for character.
pub proof fn law_field_operators(r: LogLine, v: Seq<char>)
    ensures
        satisfies(compare(Column::Source, Op::Eq, v), r) <==> same_text(r.source, v),
        satisfies(compare(Column::Source, Op::Ne, v), r) <==> !same_text(r.source, v),
        satisfies(compare(Column::Level, Op::Eq, v), r) <==> ({
            ||| r.level == Level::Error && v == seq!['E', 'R', 'R', 'O', 'R']
            ||| r.level == Level::Warn && v == seq!['W', 'A', 'R', 'N']
            ||| r.level == Level::Info && v == seq!['I', 'N', 'F', 'O']
            ||| r.level == Level::Debug && v == seq!['D', 'E', 'B', 'U', 'G']
        }),
        satisfies(compare(Column::Level, Op::Ne, v), r) <==> !satisfies(
            compare(Column::Level, Op::Eq, v),
            r,
        ),
        satisfies(compare(Column::Message, Op::Contains, v), r) <==> exists|i: int|
            stands_at(r.message, v, i),
{
    lemma_same_text(r.source, v);
    let m = r.message;
    if contains(m, v) {
        let i = choose|i: int| occurs_at(m, v, i);
        assert forall|j: int| 0 <= j < v.len() implies #[trigger] m[i + j] == v[j] by {
            assert(m.subrange(i, i + v.len())[j] == v[j]);
        }
    }
    if contains(m, v) {
        let i = choose|i: int| occurs_at(m, v, i);
        assert(stands_at(m, v, i));
    }
    if exists|i: int| stands_at(m, v, i) {
        let i = choose|i: int| stands_at(m, v, i);
        assert(m.subrange(i, i + v.len()) =~= v) by {
            assert forall|j: int| 0 <= j < v.len() implies m.subrange(i, i + v.len())[j] == v[j] by {
                assert(m[i + j] == v[j]);
            }
        }
        assert(occurs_at(m, v, i));
    }
}

/// `AND`, `OR` and `NOT` combine what their parts decide as the boolean
/// connectives do.
pub proof fn law_connectives(a: QueryView, b: QueryView, r: LogLine)
    ensures
        satisfies(QueryView::And(Box::new(a), Box::new(b)), r) <==> (satisfies(a, r) && satisfies(b, r)),
        satisfies(QueryView::Or(Box::new(a), Box::new(b)), r) <==> (satisfies(a, r) || satisfies(b, r)),
        satisfies(QueryView::Not(Box::new(a)), r) <==> !satisfies(a, r),
{
}

/// The operators that the grammar gives each column: `timestamp` takes
/// `= > < >= <=`, `level` and `source` take `= !=`, `message` takes `CONTAINS`.
pub open spec fn grammar_operator(c: Column, o: Op) -> bool {
    ||| c == Column::Timestamp && (o == Op::Eq || o == Op::Gt || o == Op::Lt || o == Op::Gte || o
        == Op::Lte)
    ||| (c == Column::Level || c == Column::Source) && (o == Op::Eq || o == Op::Ne)
    ||| c == Column::Message && o == Op::Contains
}

/// A single comparison parses when its operator is one that the grammar gives
/// its column, and is rejected with `InvalidOperatorForColumn` otherwise; the
/// queries that reach the evaluator are exactly those built of such comparisons.
pub proof fn law_operators_each_column_takes(c: Column, o: Op, v: Seq<char>)
    ensures
        grammar_operator(c, o) ==> parse_spec(query_tokens(compare(c, o, v))) == Ok::<
            QueryView,
            ParseErrorView,
        >(compare(c, o, v)),
        !grammar_operator(c, o) ==> parse_spec(query_tokens(compare(c, o, v))) == Err::<
            QueryView,
            ParseErrorView,
        >(ParseErrorView::InvalidOperatorForColumn(c, o)),
        well_formed(compare(c, o, v)) <==> grammar_operator(c, o),
{
    let q = compare(c, o, v);
    let s = query_tokens(q);
    lemma_column_word(c);
    assert(op_of(s[1]) == Some(o));
    assert(!is_keyword_at(s, 0, kw_not()));
    assert(p_not(s, 0) == p_atom(s, 0));
    assert(p_atom(s, 0) == p_comparison(s, 0));
    if grammar_operator(c, o) {
        assert(p_comparison(s, 0) == Ok::<(QueryView, int), ParseErrorView>((q, 3)));
        assert(!is_keyword_at(s, 3, kw_and()));
        assert(!is_keyword_at(s, 3, kw_or()));
        assert(p_and_tail(s, q, 3) == Ok::<(QueryView, int), ParseErrorView>((q, 3)));
        assert(p_and(s, 0) == Ok::<(QueryView, int), ParseErrorView>((q, 3)));
        assert(p_expr_tail(s, q, 3) == Ok::<(QueryView, int), ParseErrorView>((q, 3)));
        assert(p_expr(s, 0) == Ok::<(QueryView, int), ParseErrorView>((q, 3)));
    } else {
        assert(p_comparison(s, 0) == Err::<(QueryView, int), ParseErrorView>(
            ParseErrorView::InvalidOperatorForColumn(c, o),
        ));
        assert(p_and(s, 0) == p_comparison(s, 0));
        assert(p_expr(s, 0) == p_comparison(s, 0));
    }
}

} // verus!
