use vstd::prelude::*;

use crate::parser::{
    column_named, kw_and, kw_contains, kw_not, kw_or, op_of, p_and, p_and_tail, p_atom,
    p_comparison, p_expr, p_expr_tail, p_not, parse_spec, well_formed, Column,
    Op, ParseErrorView, QueryView,
};
use crate::cli::{line_outputs, OutputView};
use crate::evaluator::{satisfies, text_less, text_less_from};
use crate::text::unicode_alphabetic;
use crate::token::{lemma_word_end_bounds, lex, lex_from, word_end, TokenView};
use crate::record::{
    blank, index_of, lemma_index_of, lemma_index_of_is, level_named, level_text, parse_line,
    render, timestamp_char_ok, timestamp_shape, Level, LineErrorKind, LogLine,
};

verus! {

/// The field rules that every parsed record keeps: a timestamp of the shape
/// `YYYY-MM-DDTHH:MM:SSZ`, and a source that holds no `]` and is not blank.
pub open spec fn record_well_formed(r: LogLine) -> bool {
    &&& timestamp_shape(r.timestamp)
    &&& !blank(r.source, 0, r.source.len() as int)
    &&& forall|i: int| 0 <= i < r.source.len() ==> r.source[i] != ']'
}

proof fn lemma_level_round_trip(level: Level)
    ensures
        level_named(level_text(level)) == Some(level),
        forall|i: int| 0 <= i < level_text(level).len() ==> {
            let c = #[trigger] level_text(level)[i];
            c != ' ' && c != '[' && c != ']'
        },
        level_text(level).len() > 0,
{
    assert(level_text(Level::Warn) != level_text(Level::Error));
    assert(level_text(Level::Info) != level_text(Level::Error));
    assert(level_text(Level::Info) != level_text(Level::Warn));
    assert(level_text(Level::Debug) != level_text(Level::Error));
    assert(level_text(Level::Debug) != level_text(Level::Warn));
    assert(level_text(Level::Debug) != level_text(Level::Info));
}

proof fn lemma_level_named_text(w: Seq<char>)
    requires
        level_named(w) is Some,
    ensures
        level_text(level_named(w)->0) == w,
{
}

/// A log line that parses is written back, by `render`, as exactly the same
/// text: the program prints a matching line in full, unchanged.
pub proof fn law_parsed_line_renders_back(l: Seq<char>)
    requires
        parse_line(l) is Ok,
    ensures
        render(parse_line(l)->Ok_0) == l,
        record_well_formed(parse_line(l)->Ok_0),
{
    let sp1 = index_of(l, ' ', 0);
    lemma_index_of(l, ' ', 0);
    let sp2 = index_of(l, ' ', sp1 + 1);
    lemma_index_of(l, ' ', sp1 + 1);
    let open = sp2 + 1;
    let close = index_of(l, ']', open + 1);
    lemma_index_of(l, ']', open + 1);
    let r = parse_line(l)->Ok_0;
    lemma_level_named_text(l.subrange(sp1 + 1, sp2));
    assert(render(r) =~= l);
    assert(r.source =~= l.subrange(open + 1, close));
    assert forall|i: int| 0 <= i < r.source.len() implies r.source[i] != ']' by {
        assert(r.source[i] == l[open + 1 + i]);
    }
    if blank(r.source, 0, r.source.len() as int) {
        assert forall|k: int| open + 1 <= k < close implies crate::text::unicode_whitespace(#[trigger] l[k]) by {
            assert(r.source[k - open - 1] == l[k]);
        }
        assert(false);
    }
}

/// A record that keeps the field rules, written as a log line, parses back
/// to the same record.
pub proof fn law_rendered_record_parses_back(r: LogLine)
    requires
        record_well_formed(r),
    ensures
        parse_line(render(r)) == Ok::<LogLine, LineErrorKind>(r),
{
    let s = render(r);
    let lt = level_text(r.level);
    lemma_level_round_trip(r.level);
    let sp1: int = 20;
    let sp2: int = 21 + lt.len() as int;
    let open = sp2 + 1;
    let close = open + 1 + r.source.len();
    assert(s.len() == close + 2 + r.message.len());
    assert forall|k: int| 0 <= k < sp1 implies s[k] != ' ' && s[k] == r.timestamp[k] by {
        assert(s[k] == r.timestamp[k]);
        assert(timestamp_char_ok(k, r.timestamp[k]));
    }
    assert(s[sp1] == ' ');
    assert forall|k: int| sp1 + 1 <= k < sp2 implies s[k] == lt[k - sp1 - 1] by {}
    assert forall|k: int| sp1 + 1 <= k < sp2 implies s[k] != ' ' && s[k] != '[' && s[k] != ']' by {
        assert(s[k] == lt[k - sp1 - 1]);
    }
    assert(s[sp2] == ' ');
    assert(s[open] == '[');
    assert forall|k: int| open + 1 <= k < close implies s[k] == r.source[k - open - 1] && s[k] != ']' by {}
    assert(s[close] == ']');
    assert(s[close + 1] == ' ');
    lemma_index_of_is(s, ' ', 0, sp1);
    lemma_index_of_is(s, ' ', sp1 + 1, sp2);
    lemma_index_of_is(s, '[', sp1 + 1, open);
    lemma_index_of_is(s, ']', sp1 + 1, close);
    lemma_index_of_is(s, ']', open + 1, close);
    assert(s.subrange(0, sp1) =~= r.timestamp);
    assert(s.subrange(sp1 + 1, sp2) =~= lt);
    assert(s.subrange(open + 1, close) =~= r.source);
    assert(s.subrange(close + 2, s.len() as int) =~= r.message);
    if blank(s, open + 1, close) {
        assert forall|k: int| 0 <= k < r.source.len() implies crate::text::unicode_whitespace(#[trigger] r.source[k]) by {
            assert(s[open + 1 + k] == r.source[k]);
        }
        assert(false);
    }
}

/// The word that names a column in a query.
pub open spec fn column_word(c: Column) -> Seq<char> {
    match c {
        Column::Timestamp => seq!['t', 'i', 'm', 'e', 's', 't', 'a', 'm', 'p'],
        Column::Level => seq!['l', 'e', 'v', 'e', 'l'],
        Column::Source => seq!['s', 'o', 'u', 'r', 'c', 'e'],
        Column::Message => seq!['m', 'e', 's', 's', 'a', 'g', 'e'],
    }
}

/// The token that writes an operator in a query.
pub open spec fn op_token(o: Op) -> TokenView {
    match o {
        Op::Eq => TokenView::Eq,
        Op::Ne => TokenView::Ne,
        Op::Gt => TokenView::Gt,
        Op::Gte => TokenView::Gte,
        Op::Lt => TokenView::Lt,
        Op::Lte => TokenView::Lte,
        Op::Contains => TokenView::Word(kw_contains()),
    }
}

/// A query written out in the grammar's tokens, with every `AND` and `OR`
/// inside its own parentheses.
pub open spec fn query_tokens(q: QueryView) -> Seq<TokenView>
    decreases q,
{
    match q {
        QueryView::Compare(c, o, v) => seq![
            TokenView::Word(column_word(c)),
            op_token(o),
            TokenView::StringLit(v),
        ],
        QueryView::And(a, b) => seq![TokenView::LParen] + query_tokens(*a) + seq![
            TokenView::Word(kw_and()),
        ] + query_tokens(*b) + seq![TokenView::RParen],
        QueryView::Or(a, b) => seq![TokenView::LParen] + query_tokens(*a) + seq![
            TokenView::Word(kw_or()),
        ] + query_tokens(*b) + seq![TokenView::RParen],
        QueryView::Not(a) => seq![TokenView::Word(kw_not())] + query_tokens(*a),
    }
}

pub proof fn lemma_column_word(c: Column)
    ensures
        column_named(column_word(c)) == Some(c),
        column_word(c) != kw_not(),
{
    let w = column_word(c);
    assert(w.len() != 3 || w[0] != 'N');
    assert(seq!['l', 'e', 'v', 'e', 'l'] != seq!['t', 'i', 'm', 'e', 's', 't', 'a', 'm', 'p']);
    assert(seq!['s', 'o', 'u', 'r', 'c', 'e'] != seq!['t', 'i', 'm', 'e', 's', 't', 'a', 'm', 'p']);
    assert(seq!['s', 'o', 'u', 'r', 'c', 'e'] != seq!['l', 'e', 'v', 'e', 'l']);
    assert(seq!['m', 'e', 's', 's', 'a', 'g', 'e'] != seq!['t', 'i', 'm', 'e', 's', 't', 'a', 'm', 'p']);
    assert(seq!['m', 'e', 's', 's', 'a', 'g', 'e'] != seq!['l', 'e', 'v', 'e', 'l']);
    assert(seq!['m', 'e', 's', 's', 'a', 'g', 'e'] != seq!['s', 'o', 'u', 'r', 'c', 'e']);
}

pub proof fn lemma_keywords_differ()
    ensures
        kw_and() != kw_or(),
        kw_and() != kw_not(),
        kw_or() != kw_not(),
{
    assert(kw_and().len() != kw_or().len());
    assert(kw_and()[0] != kw_not()[0]);
    assert(kw_or().len() != kw_not().len());
}

proof fn lemma_query_tokens_nonempty(q: QueryView)
    ensures
        query_tokens(q).len() > 0,
    decreases q,
{
}

/// A well-formed query written out at position `p` is read back by `not_expr`
/// as the same query, ending right after it.
pub proof fn lemma_unit(q: QueryView, s: Seq<TokenView>, p: int)
    requires
        well_formed(q),
        0 <= p,
        p + query_tokens(q).len() <= s.len(),
        s.subrange(p, p + query_tokens(q).len()) == query_tokens(q),
    ensures
        p_not(s, p) == Ok::<(QueryView, int), ParseErrorView>((q, p + query_tokens(q).len())),
    decreases q,
{
    let t = query_tokens(q);
    let n = t.len() as int;
    assert forall|i: int| 0 <= i < n implies s[p + i] == t[i] by {
        assert(s.subrange(p, p + n)[i] == t[i]);
    }
    lemma_keywords_differ();
    match q {
        QueryView::Compare(c, o, v) => {
            lemma_column_word(c);
            assert(s[p] == TokenView::Word(column_word(c)));
            assert(s[p + 1] == op_token(o));
            assert(s[p + 2] == TokenView::StringLit(v));
            assert(op_of(op_token(o)) == Some(o));
            assert(!crate::parser::is_keyword_at(s, p, kw_not()));
            assert(p_comparison(s, p) == Ok::<(QueryView, int), ParseErrorView>((q, p + 3)));
            assert(p_atom(s, p) == p_comparison(s, p));
        },
        QueryView::Not(a) => {
            let ta = query_tokens(*a);
            assert(t == seq![TokenView::Word(kw_not())] + ta);
            assert(t[0] == TokenView::Word(kw_not()));
            assert(s[p] == TokenView::Word(kw_not()));
            assert(s.subrange(p + 1, p + 1 + ta.len()) =~= ta) by {
                assert forall|i: int| 0 <= i < ta.len() implies s.subrange(p + 1, p + 1 + ta.len())[i] == ta[i] by {
                    assert(s[p + 1 + i] == t[1 + i]);
                }
            }
            lemma_unit(*a, s, p + 1);
        },
        QueryView::And(a, b) => {
            let ta = query_tokens(*a);
            let tb = query_tokens(*b);
            let p1 = p + 1 + ta.len();
            let p2 = p1 + 1 + tb.len();
            lemma_query_tokens_nonempty(*a);
            lemma_query_tokens_nonempty(*b);
            assert(t == seq![TokenView::LParen] + ta + seq![TokenView::Word(kw_and())] + tb + seq![TokenView::RParen]);
            assert(t[0] == TokenView::LParen);
            assert(s[p] == TokenView::LParen);
            assert(s.subrange(p + 1, p1) =~= ta) by {
                assert forall|i: int| 0 <= i < ta.len() implies s.subrange(p + 1, p1)[i] == ta[i] by {
                    assert(s[p + 1 + i] == t[1 + i]);
                }
            }
            assert(s[p1] == t[1 + ta.len() as int]);
            assert(s[p1] == TokenView::Word(kw_and()));
            assert(s.subrange(p1 + 1, p2) =~= tb) by {
                assert forall|i: int| 0 <= i < tb.len() implies s.subrange(p1 + 1, p2)[i] == tb[i] by {
                    assert(s[p1 + 1 + i] == t[ta.len() as int + 2 + i]);
                }
            }
            assert(s[p2] == t[n - 1]);
            assert(s[p2] == TokenView::RParen);
            lemma_unit(*a, s, p + 1);
            lemma_unit(*b, s, p1 + 1);
            assert(p_and_tail(s, q, p2) == Ok::<(QueryView, int), ParseErrorView>((q, p2)));
            assert(p_and_tail(s, *a, p1) == p_and_tail(s, q, p2));
            assert(p_and(s, p + 1) == Ok::<(QueryView, int), ParseErrorView>((q, p2)));
            assert(p_expr_tail(s, q, p2) == Ok::<(QueryView, int), ParseErrorView>((q, p2)));
            assert(p_expr(s, p + 1) == Ok::<(QueryView, int), ParseErrorView>((q, p2)));
            assert(p_atom(s, p) == Ok::<(QueryView, int), ParseErrorView>((q, p2 + 1)));
        },
        QueryView::Or(a, b) => {
            let ta = query_tokens(*a);
            let tb = query_tokens(*b);
            let p1 = p + 1 + ta.len();
            let p2 = p1 + 1 + tb.len();
            lemma_query_tokens_nonempty(*a);
            lemma_query_tokens_nonempty(*b);
            assert(t == seq![TokenView::LParen] + ta + seq![TokenView::Word(kw_or())] + tb + seq![TokenView::RParen]);
            assert(t[0] == TokenView::LParen);
            assert(s[p] == TokenView::LParen);
            assert(s.subrange(p + 1, p1) =~= ta) by {
                assert forall|i: int| 0 <= i < ta.len() implies s.subrange(p + 1, p1)[i] == ta[i] by {
                    assert(s[p + 1 + i] == t[1 + i]);
                }
            }
            assert(s[p1] == t[1 + ta.len() as int]);
            assert(s[p1] == TokenView::Word(kw_or()));
            assert(s.subrange(p1 + 1, p2) =~= tb) by {
                assert forall|i: int| 0 <= i < tb.len() implies s.subrange(p1 + 1, p2)[i] == tb[i] by {
                    assert(s[p1 + 1 + i] == t[ta.len() as int + 2 + i]);
                }
            }
            assert(s[p2] == t[n - 1]);
            assert(s[p2] == TokenView::RParen);
            lemma_unit(*a, s, p + 1);
            lemma_unit(*b, s, p1 + 1);
            assert(p_and_tail(s, *a, p1) == Ok::<(QueryView, int), ParseErrorView>((*a, p1)));
            assert(p_and(s, p + 1) == Ok::<(QueryView, int), ParseErrorView>((*a, p1)));
            assert(p_and_tail(s, *b, p2) == Ok::<(QueryView, int), ParseErrorView>((*b, p2)));
            assert(p_and(s, p1 + 1) == Ok::<(QueryView, int), ParseErrorView>((*b, p2)));
            assert(p_expr_tail(s, q, p2) == Ok::<(QueryView, int), ParseErrorView>((q, p2)));
            assert(p_expr_tail(s, *a, p1) == p_expr_tail(s, q, p2));
            assert(p_expr(s, p + 1) == Ok::<(QueryView, int), ParseErrorView>((q, p2)));
            assert(p_atom(s, p) == Ok::<(QueryView, int), ParseErrorView>((q, p2 + 1)));
        },
    }
}

/// Every well-formed query, written out in the grammar's tokens, parses back
/// to itself: `AND` binds tighter than `OR`, both group to the left, and
/// parentheses and `NOT` nest as the grammar says.
pub proof fn law_parse_reads_back_written_query(q: QueryView)
    requires
        well_formed(q),
    ensures
        parse_spec(query_tokens(q)) == Ok::<QueryView, ParseErrorView>(q),
{
    let s = query_tokens(q);
    let n = s.len() as int;
    assert(s.subrange(0, n) =~= s);
    lemma_unit(q, s, 0);
    lemma_keywords_differ();
    assert(!crate::parser::is_keyword_at(s, n, kw_and()));
    assert(p_and_tail(s, q, n) == Ok::<(QueryView, int), ParseErrorView>((q, n)));
    assert(p_and(s, 0) == Ok::<(QueryView, int), ParseErrorView>((q, n)));
    assert(p_expr_tail(s, q, n) == Ok::<(QueryView, int), ParseErrorView>((q, n)));
    assert(p_expr(s, 0) == Ok::<(QueryView, int), ParseErrorView>((q, n)));
}

/// A log line that parses and satisfies the query is printed as it was read,
/// character for character, on standard output, and nothing else is printed for it.
pub proof fn law_matching_line_is_printed_unchanged(q: QueryView, number: nat, line: Seq<char>)
    requires
        parse_line(line) is Ok,
        satisfies(q, parse_line(line)->Ok_0),
    ensures
        line_outputs(q, number, line) == seq![OutputView::Stdout(line)],
{
    law_parsed_line_renders_back(line);
}

/// Position `i` of a timestamp holds a digit (the others hold `-`, `T`, `:` or `Z`).
pub open spec fn digit_position(i: int) -> bool {
    !(i == 4 || i == 7 || i == 10 || i == 13 || i == 16 || i == 19)
}

/// The value of a decimal digit character.
pub open spec fn digit_value(c: char) -> int {
    (c as u32) as int - 48
}

/// The digits among the first `k` characters of a timestamp, read as one number.
pub open spec fn timestamp_digits_upto(ts: Seq<char>, k: int) -> int
    decreases k,
{
    if k <= 0 {
        0
    } else if digit_position(k - 1) {
        timestamp_digits_upto(ts, k - 1) * 10 + digit_value(ts[k - 1])
    } else {
        timestamp_digits_upto(ts, k - 1)
    }
}

/// A timestamp `YYYY-MM-DDTHH:MM:SSZ` read as the number `YYYYMMDDHHMMSS`:
/// the later of two valid times gives the larger number.
pub open spec fn timestamp_number(ts: Seq<char>) -> int {
    timestamp_digits_upto(ts, 20)
}

proof fn lemma_less_from_skips_equal(a: Seq<char>, b: Seq<char>, i: int, k: int)
    requires
        0 <= i <= k <= a.len(),
        k <= b.len(),
        forall|j: int| i <= j < k ==> a[j] == b[j],
    ensures
        text_less_from(a, b, i) == text_less_from(a, b, k),
    decreases k - i,
{
    if i < k {
        lemma_less_from_skips_equal(a, b, i + 1, k);
    }
}

proof fn lemma_digits_same_prefix(a: Seq<char>, b: Seq<char>, j: int)
    requires
        0 <= j <= a.len(),
        j <= b.len(),
        forall|i: int| 0 <= i < j ==> a[i] == b[i],
    ensures
        timestamp_digits_upto(a, j) == timestamp_digits_upto(b, j),
    decreases j,
{
    if j > 0 {
        lemma_digits_same_prefix(a, b, j - 1);
    }
}

/// Once the first differing digit of `a` is the smaller, every longer prefix of
/// `a` reads as a smaller number than the same prefix of `b`.
proof fn lemma_digits_gap(a: Seq<char>, b: Seq<char>, k: int, j: int)
    requires
        timestamp_shape(a),
        timestamp_shape(b),
        0 <= k < 20,
        digit_position(k),
        forall|i: int| 0 <= i < k ==> a[i] == b[i],
        (a[k] as u32) < (b[k] as u32),
        k + 1 <= j <= 20,
    ensures
        timestamp_digits_upto(b, j) - timestamp_digits_upto(a, j) >= 1,
    decreases j,
{
    if j == k + 1 {
        lemma_digits_same_prefix(a, b, k);
    } else {
        lemma_digits_gap(a, b, k, j - 1);
        if digit_position(j - 1) {
            assert(timestamp_char_ok(j - 1, a[j - 1]));
            assert(timestamp_char_ok(j - 1, b[j - 1]));
            assert(0 <= digit_value(a[j - 1]) <= 9);
            assert(0 <= digit_value(b[j - 1]) <= 9);
        }
    }
}

/// The first index at which two different timestamps differ.
proof fn lemma_first_difference(a: Seq<char>, b: Seq<char>, i: int) -> (k: int)
    requires
        0 <= i <= 20,
        a.len() == 20,
        b.len() == 20,
        a != b,
        forall|j: int| 0 <= j < i ==> a[j] == b[j],
    ensures
        i <= k < 20,
        a[k] != b[k],
        forall|j: int| 0 <= j < k ==> a[j] == b[j],
    decreases 20 - i,
{
    if i == 20 {
        assert(a =~= b);
        i
    } else if a[i] != b[i] {
        i
    } else {
        lemma_first_difference(a, b, i + 1)
    }
}

proof fn lemma_not_less_than_self(a: Seq<char>, i: int)
    requires
        0 <= i <= a.len(),
    ensures
        !text_less_from(a, a, i),
    decreases a.len() - i,
{
    if i < a.len() {
        lemma_not_less_than_self(a, i + 1);
    }
}

/// Between two timestamps of the shape `YYYY-MM-DDTHH:MM:SSZ`, the order of
/// their text, which the evaluator compares, is the order of the times they
/// name, read as `YYYYMMDDHHMMSS`.
pub proof fn law_timestamp_text_order_is_time_order(a: Seq<char>, b: Seq<char>)
    requires
        timestamp_shape(a),
        timestamp_shape(b),
    ensures
        text_less(a, b) <==> timestamp_number(a) < timestamp_number(b),
        a == b <==> timestamp_number(a) == timestamp_number(b),
{
    if a == b {
        lemma_not_less_than_self(a, 0);
    } else {
        let k = lemma_first_difference(a, b, 0);
        assert(digit_position(k)) by {
            assert(timestamp_char_ok(k, a[k]));
            assert(timestamp_char_ok(k, b[k]));
        }
        lemma_less_from_skips_equal(a, b, 0, k);
        if (a[k] as u32) < (b[k] as u32) {
            lemma_digits_gap(a, b, k, 20);
        } else {
            lemma_less_from_skips_equal(b, a, 0, k);
            lemma_digits_gap(b, a, k, 20);
        }
    }
}

/// The tokenizer does not decide what a word means: any run of letters,
/// keyword, column name or neither, is one `Word` token.
pub proof fn law_any_run_of_letters_is_one_word(cs: Seq<char>)
    requires
        cs.len() > 0,
        forall|i: int| 0 <= i < cs.len() ==> {
            let c = #[trigger] cs[i];
            unicode_alphabetic(c) && c != '>' && c != '<' && c != '!' && c != '=' && c != '('
                && c != ')' && c != '"'
        },
    ensures
        lex(cs) == Ok::<Seq<TokenView>, crate::token::TokenizeError>(seq![TokenView::Word(cs)]),
{
    lemma_word_end_bounds(cs, 0);
    assert(word_end(cs, 0) == cs.len()) by {
        if word_end(cs, 0) < cs.len() {
            assert(unicode_alphabetic(cs[word_end(cs, 0)]));
        }
    }
    assert(cs.subrange(0, cs.len() as int) =~= cs);
    assert(lex_from(cs, cs.len() as int) == Ok::<Seq<TokenView>, crate::token::TokenizeError>(seq![]));
    assert(seq![TokenView::Word(cs)] + Seq::<TokenView>::empty() =~= seq![TokenView::Word(cs)]);
}

} // verus!
