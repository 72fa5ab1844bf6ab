use vstd::prelude::*;

use crate::parser::{
    is_keyword_at, kw_and, kw_not, kw_or, p_and, p_and_tail, p_atom, p_comparison, p_expr,
    p_expr_tail, p_not, parse_spec, token_at, Parsed, ParseErrorView, QueryView,
};
use crate::laws::{lemma_keywords_differ, lemma_unit, query_tokens};
use crate::parser::well_formed;
use crate::token::TokenView;

verus! {

/// `r` with its end position moved on by `k`.
pub open spec fn shifted(r: Parsed, k: int) -> Parsed {
    match r {
        Ok((q, j)) => Ok((q, j + k)),
        Err(e) => Err(e),
    }
}

/// The end position of a successful parse.
pub open spec fn end_of(r: Parsed) -> int {
    r->Ok_0.1
}

/// What follows a parsed stretch cannot continue it: it is not `AND` or `OR`.
pub open spec fn closes(post: Seq<TokenView>) -> bool {
    !is_keyword_at(post, 0, kw_and()) && !is_keyword_at(post, 0, kw_or())
}

/// Tokens `s` with `pre` before them and `post` after them.
pub open spec fn framed(pre: Seq<TokenView>, s: Seq<TokenView>, post: Seq<TokenView>) -> Seq<TokenView> {
    pre + s + post
}

proof fn lemma_framed_tokens(pre: Seq<TokenView>, s: Seq<TokenView>, post: Seq<TokenView>, j: int)
    requires
        0 <= j <= s.len(),
    ensures
        j < s.len() ==> token_at(framed(pre, s, post), pre.len() + j) == token_at(s, j),
        j < s.len() ==> forall|kw: Seq<char>|
            #[trigger] is_keyword_at(framed(pre, s, post), pre.len() + j, kw) == is_keyword_at(s, j, kw),
        j == s.len() && closes(post) ==> !is_keyword_at(framed(pre, s, post), pre.len() + j, kw_and())
            && !is_keyword_at(framed(pre, s, post), pre.len() + j, kw_or()),
        framed(pre, s, post).len() == pre.len() + s.len() + post.len(),
{
    let t = framed(pre, s, post);
    if j < s.len() {
        assert(t[pre.len() + j] == s[j]);
    } else if post.len() > 0 {
        assert(t[pre.len() + j] == post[0]);
    }
}

proof fn lemma_frame_comparison(pre: Seq<TokenView>, s: Seq<TokenView>, post: Seq<TokenView>, i: int)
    requires
        0 <= i <= s.len(),
        p_comparison(s, i) is Ok,
    ensures
        i + 3 <= s.len(),
        p_comparison(framed(pre, s, post), pre.len() + i) == shifted(p_comparison(s, i), pre.len() as int),
        end_of(p_comparison(s, i)) == i + 3,
{
    lemma_framed_tokens(pre, s, post, i);
    if i + 1 <= s.len() {
        lemma_framed_tokens(pre, s, post, i + 1);
    }
    if i + 2 <= s.len() {
        lemma_framed_tokens(pre, s, post, i + 2);
    }
}

proof fn lemma_frame_expr(pre: Seq<TokenView>, s: Seq<TokenView>, post: Seq<TokenView>, i: int)
    requires
        0 <= i <= s.len(),
        p_expr(s, i) is Ok,
        closes(post),
    ensures
        p_expr(framed(pre, s, post), pre.len() + i) == shifted(p_expr(s, i), pre.len() as int),
        i < end_of(p_expr(s, i)) <= s.len(),
    decreases s.len() - i, 5int,
{
    let t = framed(pre, s, post);
    let k = pre.len() as int;
    lemma_frame_and(pre, s, post, i);
    let (l, p1) = p_and(s, i)->Ok_0;
    lemma_framed_tokens(pre, s, post, 0);
    assert(i <= p1 <= s.len());
    lemma_frame_expr_tail(pre, s, post, l, p1);
}

proof fn lemma_frame_expr_tail(
    pre: Seq<TokenView>,
    s: Seq<TokenView>,
    post: Seq<TokenView>,
    left: QueryView,
    i: int,
)
    requires
        0 <= i <= s.len(),
        p_expr_tail(s, left, i) is Ok,
        closes(post),
    ensures
        p_expr_tail(framed(pre, s, post), left, pre.len() + i) == shifted(
            p_expr_tail(s, left, i),
            pre.len() as int,
        ),
        i <= end_of(p_expr_tail(s, left, i)) <= s.len(),
    decreases s.len() - i, 4int,
{
    let k = pre.len() as int;
    lemma_framed_tokens(pre, s, post, i);
    if is_keyword_at(s, i, kw_or()) {
        lemma_frame_and(pre, s, post, i + 1);
        let (r, p2) = p_and(s, i + 1)->Ok_0;
        lemma_framed_tokens(pre, s, post, 0);
        lemma_frame_expr_tail(pre, s, post, QueryView::Or(Box::new(left), Box::new(r)), p2);
    }
}

proof fn lemma_frame_and(pre: Seq<TokenView>, s: Seq<TokenView>, post: Seq<TokenView>, i: int)
    requires
        0 <= i <= s.len(),
        p_and(s, i) is Ok,
        closes(post),
    ensures
        p_and(framed(pre, s, post), pre.len() + i) == shifted(p_and(s, i), pre.len() as int),
        i < end_of(p_and(s, i)) <= s.len(),
    decreases s.len() - i, 3int,
{
    lemma_frame_not(pre, s, post, i);
    let (l, p1) = p_not(s, i)->Ok_0;
    lemma_framed_tokens(pre, s, post, 0);
    lemma_frame_and_tail(pre, s, post, l, p1);
}

proof fn lemma_frame_and_tail(
    pre: Seq<TokenView>,
    s: Seq<TokenView>,
    post: Seq<TokenView>,
    left: QueryView,
    i: int,
)
    requires
        0 <= i <= s.len(),
        p_and_tail(s, left, i) is Ok,
        closes(post),
    ensures
        p_and_tail(framed(pre, s, post), left, pre.len() + i) == shifted(
            p_and_tail(s, left, i),
            pre.len() as int,
        ),
        i <= end_of(p_and_tail(s, left, i)) <= s.len(),
    decreases s.len() - i, 2int,
{
    lemma_framed_tokens(pre, s, post, i);
    if is_keyword_at(s, i, kw_and()) {
        lemma_frame_not(pre, s, post, i + 1);
        let (r, p2) = p_not(s, i + 1)->Ok_0;
        lemma_framed_tokens(pre, s, post, 0);
        lemma_frame_and_tail(pre, s, post, QueryView::And(Box::new(left), Box::new(r)), p2);
    }
}

proof fn lemma_frame_not(pre: Seq<TokenView>, s: Seq<TokenView>, post: Seq<TokenView>, i: int)
    requires
        0 <= i <= s.len(),
        p_not(s, i) is Ok,
        closes(post),
    ensures
        p_not(framed(pre, s, post), pre.len() + i) == shifted(p_not(s, i), pre.len() as int),
        i < end_of(p_not(s, i)) <= s.len(),
    decreases s.len() - i, 1int,
{
    lemma_framed_tokens(pre, s, post, i);
    if is_keyword_at(s, i, kw_not()) {
        lemma_frame_not(pre, s, post, i + 1);
    } else {
        if i == s.len() {
            assert(token_at(s, i) is None);
            assert(p_comparison(s, i) is Err);
            assert(false);
        }
        lemma_frame_atom(pre, s, post, i);
    }
}

proof fn lemma_frame_atom(pre: Seq<TokenView>, s: Seq<TokenView>, post: Seq<TokenView>, i: int)
    requires
        0 <= i <= s.len(),
        p_atom(s, i) is Ok,
        closes(post),
    ensures
        p_atom(framed(pre, s, post), pre.len() + i) == shifted(p_atom(s, i), pre.len() as int),
        i < end_of(p_atom(s, i)) <= s.len(),
    decreases s.len() - i, 0int,
{
    lemma_framed_tokens(pre, s, post, i);
    if token_at(s, i) == Some(TokenView::LParen) {
        lemma_frame_expr(pre, s, post, i + 1);
        let (inner, p1) = p_expr(s, i + 1)->Ok_0;
        lemma_framed_tokens(pre, s, post, p1);
    } else {
        if i == s.len() {
            assert(p_comparison(s, i) is Err);
            assert(false);
        }
        lemma_frame_comparison(pre, s, post, i);
    }
}

proof fn lemma_parsed_whole(s: Seq<TokenView>, q: QueryView)
    requires
        parse_spec(s) == Ok::<QueryView, ParseErrorView>(q),
    ensures
        p_expr(s, 0) == Ok::<(QueryView, int), ParseErrorView>((q, s.len() as int)),
{
    lemma_frame_expr(seq![], s, seq![], 0);
}

/// Parentheses around tokens that parse add no node to the query, and a
/// `NOT` before the parentheses wraps it.
pub proof fn law_parentheses_add_no_node(s: Seq<TokenView>, q: QueryView)
    requires
        parse_spec(s) == Ok::<QueryView, ParseErrorView>(q),
    ensures
        parse_spec(seq![TokenView::LParen] + s + seq![TokenView::RParen]) == Ok::<
            QueryView,
            ParseErrorView,
        >(q),
        parse_spec(seq![TokenView::Word(kw_not()), TokenView::LParen] + s + seq![TokenView::RParen])
            == Ok::<QueryView, ParseErrorView>(QueryView::Not(Box::new(q))),
{
    lemma_parsed_whole(s, q);
    let n = s.len() as int;
    let close = seq![TokenView::RParen];
    assert(closes(close));
    // `( s )`
    let open1 = seq![TokenView::LParen];
    let t = framed(open1, s, close);
    assert(t =~= seq![TokenView::LParen] + s + seq![TokenView::RParen]);
    lemma_frame_expr(open1, s, close, 0);
    assert(p_expr(t, 1) == Ok::<(QueryView, int), ParseErrorView>((q, n + 1)));
    assert(t[0] == TokenView::LParen);
    assert(t[n + 1] == TokenView::RParen);
    assert(p_atom(t, 0) == Ok::<(QueryView, int), ParseErrorView>((q, n + 2)));
    assert(!is_keyword_at(t, 0, kw_not()));
    assert(p_not(t, 0) == Ok::<(QueryView, int), ParseErrorView>((q, n + 2)));
    assert(p_and_tail(t, q, n + 2) == Ok::<(QueryView, int), ParseErrorView>((q, n + 2)));
    assert(p_and(t, 0) == Ok::<(QueryView, int), ParseErrorView>((q, n + 2)));
    assert(p_expr_tail(t, q, n + 2) == Ok::<(QueryView, int), ParseErrorView>((q, n + 2)));
    assert(p_expr(t, 0) == Ok::<(QueryView, int), ParseErrorView>((q, n + 2)));
    // `NOT ( s )`
    let open2 = seq![TokenView::Word(kw_not()), TokenView::LParen];
    let u = framed(open2, s, close);
    assert(u =~= seq![TokenView::Word(kw_not()), TokenView::LParen] + s + seq![TokenView::RParen]);
    lemma_frame_expr(open2, s, close, 0);
    assert(p_expr(u, 2) == Ok::<(QueryView, int), ParseErrorView>((q, n + 2)));
    assert(u[0] == TokenView::Word(kw_not()));
    assert(u[1] == TokenView::LParen);
    assert(u[n + 2] == TokenView::RParen);
    assert(p_atom(u, 1) == Ok::<(QueryView, int), ParseErrorView>((q, n + 3)));
    assert(!is_keyword_at(u, 1, kw_not()));
    assert(p_not(u, 1) == Ok::<(QueryView, int), ParseErrorView>((q, n + 3)));
    let nq = QueryView::Not(Box::new(q));
    assert(p_not(u, 0) == Ok::<(QueryView, int), ParseErrorView>((nq, n + 3)));
    assert(p_and_tail(u, nq, n + 3) == Ok::<(QueryView, int), ParseErrorView>((nq, n + 3)));
    assert(p_and(u, 0) == Ok::<(QueryView, int), ParseErrorView>((nq, n + 3)));
    assert(p_expr_tail(u, nq, n + 3) == Ok::<(QueryView, int), ParseErrorView>((nq, n + 3)));
    assert(p_expr(u, 0) == Ok::<(QueryView, int), ParseErrorView>((nq, n + 3)));
}

/// The tokens `x` stand in `s` from position `p` on.
pub open spec fn found_at(s: Seq<TokenView>, p: int, x: Seq<TokenView>) -> bool {
    0 <= p && p + x.len() <= s.len() && s.subrange(p, p + x.len()) == x
}

proof fn lemma_found_split(s: Seq<TokenView>, p: int, x: Seq<TokenView>, y: Seq<TokenView>)
    requires
        found_at(s, p, x + y),
    ensures
        found_at(s, p, x),
        found_at(s, p + x.len(), y),
{
    assert(s.subrange(p, p + x.len()) =~= x) by {
        assert forall|i: int| 0 <= i < x.len() implies s.subrange(p, p + x.len())[i] == x[i] by {
            assert(s.subrange(p, p + (x + y).len())[i] == (x + y)[i]);
        }
    }
    assert(s.subrange(p + x.len(), p + x.len() + y.len()) =~= y) by {
        assert forall|i: int| 0 <= i < y.len() implies s.subrange(p + x.len(), p + x.len() + y.len())[i] == y[i] by {
            assert(s.subrange(p, p + (x + y).len())[x.len() + i] == (x + y)[x.len() + i]);
        }
    }
}

proof fn lemma_found_first(s: Seq<TokenView>, p: int, x: Seq<TokenView>)
    requires
        found_at(s, p, x),
        x.len() > 0,
    ensures
        s[p] == x[0],
{
    assert(s.subrange(p, p + x.len())[0] == x[0]);
}

/// `AND q0 AND q1 …`, each query written out by `query_tokens`.
pub open spec fn and_rest_tokens(qs: Seq<QueryView>) -> Seq<TokenView>
    decreases qs.len(),
{
    if qs.len() == 0 {
        seq![]
    } else {
        seq![TokenView::Word(kw_and())] + query_tokens(qs[0]) + and_rest_tokens(qs.drop_first())
    }
}

/// `q0 AND q1 AND …`, written without parentheses between the queries.
pub open spec fn and_list_tokens(qs: Seq<QueryView>) -> Seq<TokenView> {
    query_tokens(qs[0]) + and_rest_tokens(qs.drop_first())
}

/// `acc AND q0 AND q1 …`, grouped to the left.
pub open spec fn fold_and(acc: QueryView, qs: Seq<QueryView>) -> QueryView
    decreases qs.len(),
{
    if qs.len() == 0 {
        acc
    } else {
        fold_and(QueryView::And(Box::new(acc), Box::new(qs[0])), qs.drop_first())
    }
}

/// The query of `q0 AND q1 AND …`, grouped to the left.
pub open spec fn and_list(qs: Seq<QueryView>) -> QueryView {
    fold_and(qs[0], qs.drop_first())
}

/// `OR t0 OR t1 …`, each `t` an `AND` list.
pub open spec fn or_rest_tokens(terms: Seq<Seq<QueryView>>) -> Seq<TokenView>
    decreases terms.len(),
{
    if terms.len() == 0 {
        seq![]
    } else {
        seq![TokenView::Word(kw_or())] + and_list_tokens(terms[0]) + or_rest_tokens(terms.drop_first())
    }
}

/// `t0 OR t1 OR …`, each `t` an `AND` list, written without parentheses.
pub open spec fn or_list_tokens(terms: Seq<Seq<QueryView>>) -> Seq<TokenView> {
    and_list_tokens(terms[0]) + or_rest_tokens(terms.drop_first())
}

/// `acc OR t0 OR t1 …`, grouped to the left.
pub open spec fn fold_or(acc: QueryView, terms: Seq<Seq<QueryView>>) -> QueryView
    decreases terms.len(),
{
    if terms.len() == 0 {
        acc
    } else {
        fold_or(QueryView::Or(Box::new(acc), Box::new(and_list(terms[0]))), terms.drop_first())
    }
}

/// The query of `t0 OR t1 OR …`: `AND` lists first, then `OR`, both grouped to the left.
pub open spec fn or_list(terms: Seq<Seq<QueryView>>) -> QueryView {
    fold_or(and_list(terms[0]), terms.drop_first())
}

/// Every query of `qs` is well formed.
pub open spec fn all_well_formed(qs: Seq<QueryView>) -> bool {
    forall|i: int| 0 <= i < qs.len() ==> well_formed(#[trigger] qs[i])
}

/// Non-empty lists of non-empty lists of well-formed queries.
pub open spec fn valid_terms(terms: Seq<Seq<QueryView>>) -> bool {
    &&& terms.len() > 0
    &&& forall|i: int| 0 <= i < terms.len() ==> (#[trigger] terms[i]).len() > 0 && all_well_formed(terms[i])
}

proof fn lemma_and_rest(s: Seq<TokenView>, p: int, acc: QueryView, qs: Seq<QueryView>)
    requires
        found_at(s, p, and_rest_tokens(qs)),
        all_well_formed(qs),
        !is_keyword_at(s, p + and_rest_tokens(qs).len(), kw_and()),
    ensures
        p_and_tail(s, acc, p) == Ok::<(QueryView, int), ParseErrorView>(
            (fold_and(acc, qs), p + and_rest_tokens(qs).len()),
        ),
    decreases qs.len(),
{
    if qs.len() > 0 {
        let q0 = qs[0];
        let rest = qs.drop_first();
        let head = seq![TokenView::Word(kw_and())];
        lemma_found_split(s, p, head + query_tokens(q0), and_rest_tokens(rest));
        lemma_found_split(s, p, head, query_tokens(q0));
        lemma_found_first(s, p, head);
        assert(well_formed(qs[0]));
        lemma_unit(q0, s, p + 1);
        let p2 = p + 1 + query_tokens(q0).len();
        assert forall|i: int| 0 <= i < rest.len() implies well_formed(#[trigger] rest[i]) by {
            assert(rest[i] == qs[i + 1]);
        }
        lemma_and_rest(s, p2, QueryView::And(Box::new(acc), Box::new(q0)), rest);
    }
}

proof fn lemma_and_list(s: Seq<TokenView>, p: int, qs: Seq<QueryView>)
    requires
        qs.len() > 0,
        found_at(s, p, and_list_tokens(qs)),
        all_well_formed(qs),
        !is_keyword_at(s, p + and_list_tokens(qs).len(), kw_and()),
    ensures
        p_and(s, p) == Ok::<(QueryView, int), ParseErrorView>(
            (and_list(qs), p + and_list_tokens(qs).len()),
        ),
{
    let rest = qs.drop_first();
    lemma_found_split(s, p, query_tokens(qs[0]), and_rest_tokens(rest));
    assert(well_formed(qs[0]));
    lemma_unit(qs[0], s, p);
    assert forall|i: int| 0 <= i < rest.len() implies well_formed(#[trigger] rest[i]) by {
        assert(rest[i] == qs[i + 1]);
    }
    lemma_and_rest(s, p + query_tokens(qs[0]).len(), qs[0], rest);
}

proof fn lemma_or_rest(s: Seq<TokenView>, p: int, acc: QueryView, terms: Seq<Seq<QueryView>>)
    requires
        found_at(s, p, or_rest_tokens(terms)),
        forall|i: int| 0 <= i < terms.len() ==> (#[trigger] terms[i]).len() > 0 && all_well_formed(terms[i]),
        !is_keyword_at(s, p + or_rest_tokens(terms).len(), kw_and()),
        !is_keyword_at(s, p + or_rest_tokens(terms).len(), kw_or()),
    ensures
        p_expr_tail(s, acc, p) == Ok::<(QueryView, int), ParseErrorView>(
            (fold_or(acc, terms), p + or_rest_tokens(terms).len()),
        ),
    decreases terms.len(),
{
    if terms.len() > 0 {
        let t0 = terms[0];
        let rest = terms.drop_first();
        let head = seq![TokenView::Word(kw_or())];
        lemma_found_split(s, p, head + and_list_tokens(t0), or_rest_tokens(rest));
        lemma_found_split(s, p, head, and_list_tokens(t0));
        lemma_found_first(s, p, head);
        let p2 = p + 1 + and_list_tokens(t0).len();
        lemma_keywords_differ();
        if rest.len() > 0 {
            lemma_found_first(s, p2, or_rest_tokens(rest));
        }
        assert(!is_keyword_at(s, p2, kw_and()));
        lemma_and_list(s, p + 1, t0);
        assert forall|i: int| 0 <= i < rest.len() implies (#[trigger] rest[i]).len() > 0 && all_well_formed(rest[i]) by {
            assert(rest[i] == terms[i + 1]);
        }
        lemma_or_rest(s, p2, QueryView::Or(Box::new(acc), Box::new(and_list(t0))), rest);
    }
}

/// Queries written out one after another with `AND` and `OR` and no
/// parentheses between them parse with `AND` binding tighter than `OR`, and
/// both grouping to the left: `a AND b OR c` is `(a AND b) OR c`, `a OR b AND c`
/// is `a OR (b AND c)`, and `a OR b OR c` is `(a OR b) OR c`.
pub proof fn law_and_binds_tighter_than_or(terms: Seq<Seq<QueryView>>)
    requires
        valid_terms(terms),
    ensures
        parse_spec(or_list_tokens(terms)) == Ok::<QueryView, ParseErrorView>(or_list(terms)),
{
    let s = or_list_tokens(terms);
    let n = s.len() as int;
    let t0 = terms[0];
    let rest = terms.drop_first();
    assert(s.subrange(0, n) =~= s);
    lemma_found_split(s, 0, and_list_tokens(t0), or_rest_tokens(rest));
    let p1 = and_list_tokens(t0).len() as int;
    lemma_keywords_differ();
    if rest.len() > 0 {
        lemma_found_first(s, p1, or_rest_tokens(rest));
    }
    assert(!is_keyword_at(s, p1, kw_and()));
    lemma_and_list(s, 0, t0);
    assert forall|i: int| 0 <= i < rest.len() implies (#[trigger] rest[i]).len() > 0 && all_well_formed(rest[i]) by {
        assert(rest[i] == terms[i + 1]);
    }
    lemma_or_rest(s, p1, and_list(t0), rest);
    assert(p_expr(s, 0) == Ok::<(QueryView, int), ParseErrorView>((or_list(terms), n)));
}

} // verus!
