use vstd::prelude::*;

use crate::text::{unicode_alphabetic, unicode_whitespace};
use crate::token::{
    closing_quote, cons_token, followed_by_eq, lemma_closing_quote_bounds, lemma_closing_quote_is, lemma_word_end_bounds,
    lex, lex_from, prefix_tokens, word_end, TokenView, TokenizeError,
};

verus! {

/// `c` starts a token by itself: `> < ! = ( ) "`.
pub open spec fn starts_token(c: char) -> bool {
    c == '>' || c == '<' || c == '!' || c == '=' || c == '(' || c == ')' || c == '"'
}

proof fn lemma_char_classes(c: char)
    ensures
        unicode_alphabetic(c) ==> !starts_token(c),
        unicode_whitespace(c) ==> !starts_token(c) && !unicode_alphabetic(c),
{
}

proof fn lemma_shift_quote(x: Seq<char>, b: Seq<char>, j: int)
    requires
        0 <= j <= b.len(),
    ensures
        closing_quote(x + b, x.len() + j) == x.len() + closing_quote(b, j),
    decreases b.len() - j,
{
    if j < b.len() {
        assert((x + b)[x.len() + j] == b[j]);
        lemma_shift_quote(x, b, j + 1);
    }
}

proof fn lemma_shift_word(x: Seq<char>, b: Seq<char>, j: int)
    requires
        0 <= j <= b.len(),
    ensures
        word_end(x + b, x.len() + j) == x.len() + word_end(b, j),
    decreases b.len() - j,
{
    if j < b.len() {
        assert((x + b)[x.len() + j] == b[j]);
        lemma_shift_word(x, b, j + 1);
    }
}

/// Lexing does not look behind the position it starts from.
proof fn lemma_shift_lex(x: Seq<char>, b: Seq<char>, j: int)
    requires
        0 <= j <= b.len(),
    ensures
        lex_from(x + b, x.len() + j) == lex_from(b, j),
    decreases b.len() - j,
{
    let cs = x + b;
    let k = x.len() as int;
    if j < b.len() {
        let c = b[j];
        assert(cs[k + j] == c);
        if j + 1 < b.len() {
            assert(cs[k + j + 1] == b[j + 1]);
        }
        assert(followed_by_eq(cs, k + j) == followed_by_eq(b, j));
        if c == '"' {
            lemma_closing_quote_bounds(b, j + 1);
            lemma_shift_quote(x, b, j + 1);
            let e = closing_quote(b, j + 1);
            if e < b.len() {
                assert(cs.subrange(k + j + 1, k + e) =~= b.subrange(j + 1, e));
                lemma_shift_lex(x, b, e + 1);
            }
        } else if unicode_alphabetic(c) && !starts_token(c) {
            lemma_word_end_bounds(b, j);
            lemma_shift_word(x, b, j);
            let e = word_end(b, j);
            assert(cs.subrange(k + j, k + e) =~= b.subrange(j, e));
            lemma_shift_lex(x, b, e);
        } else {
            if j + 1 <= b.len() {
                lemma_shift_lex(x, b, j + 1);
            }
            if j + 2 <= b.len() {
                lemma_shift_lex(x, b, j + 2);
            }
        }
    }
}

/// What follows a stretch of text cannot extend its last token: it is not a
/// letter, which would lengthen a word, and not `=`, which would join a `<`, `>`
/// or `!`.
pub open spec fn separates(rest: Seq<char>) -> bool {
    rest.len() == 0 || (!unicode_alphabetic(rest[0]) && rest[0] != '=')
}

proof fn lemma_prefix_quote(a: Seq<char>, rest: Seq<char>, j: int)
    requires
        0 <= j <= a.len(),
        closing_quote(a, j) < a.len(),
    ensures
        closing_quote(a + rest, j) == closing_quote(a, j),
    decreases a.len() - j,
{
    if a[j] != '"' {
        lemma_prefix_quote(a, rest, j + 1);
    }
}

proof fn lemma_prefix_word(a: Seq<char>, rest: Seq<char>, j: int)
    requires
        0 <= j <= a.len(),
        separates(rest),
    ensures
        word_end(a + rest, j) == word_end(a, j),
    decreases a.len() - j,
{
    if j < a.len() {
        if unicode_alphabetic(a[j]) {
            lemma_prefix_word(a, rest, j + 1);
        }
    } else if rest.len() > 0 {
        assert((a + rest)[j] == rest[0]);
    }
}

proof fn lemma_prefix_cons(t: TokenView, ts: Seq<TokenView>, r: Result<Seq<TokenView>, TokenizeError>)
    ensures
        prefix_tokens(seq![t] + ts, r) == cons_token(t, prefix_tokens(ts, r)),
{
    match r {
        Ok(us) => {
            assert(seq![t] + ts + us =~= seq![t] + (ts + us));
        },
        Err(_) => {},
    }
}

/// Text that lexes cleanly, followed by text that cannot extend its last
/// token, lexes to its tokens followed by those of what follows.
proof fn lemma_prefix_lex(a: Seq<char>, rest: Seq<char>, i: int)
    requires
        0 <= i <= a.len(),
        lex_from(a, i) is Ok,
        separates(rest),
    ensures
        lex_from(a + rest, i) == prefix_tokens(lex_from(a, i)->Ok_0, lex_from(a + rest, a.len() as int)),
    decreases a.len() - i,
{
    let cs = a + rest;
    if i == a.len() {
        match lex_from(cs, i) {
            Ok(us) => {
                assert(Seq::<TokenView>::empty() + us =~= us);
            },
            Err(_) => {},
        }
    } else {
        let c = a[i];
        assert(cs[i] == c);
        if i + 1 < a.len() {
            assert(cs[i + 1] == a[i + 1]);
        } else if rest.len() > 0 {
            assert(cs[i + 1] == rest[0]);
        }
        assert(followed_by_eq(cs, i) == followed_by_eq(a, i));
        lemma_char_classes(c);
        if c == '>' || c == '<' || c == '!' {
            if followed_by_eq(a, i) {
                lemma_prefix_lex(a, rest, i + 2);
                lemma_prefix_cons(
                    if c == '>' { TokenView::Gte } else if c == '<' { TokenView::Lte } else { TokenView::Ne },
                    lex_from(a, i + 2)->Ok_0,
                    lex_from(cs, a.len() as int),
                );
            } else {
                lemma_prefix_lex(a, rest, i + 1);
                if c == '>' {
                    lemma_prefix_cons(TokenView::Gt, lex_from(a, i + 1)->Ok_0, lex_from(cs, a.len() as int));
                } else {
                    lemma_prefix_cons(TokenView::Lt, lex_from(a, i + 1)->Ok_0, lex_from(cs, a.len() as int));
                }
            }
        } else if c == '=' || c == '(' || c == ')' {
            lemma_prefix_lex(a, rest, i + 1);
            lemma_prefix_cons(
                if c == '=' { TokenView::Eq } else if c == '(' { TokenView::LParen } else { TokenView::RParen },
                lex_from(a, i + 1)->Ok_0,
                lex_from(cs, a.len() as int),
            );
        } else if c == '"' {
            lemma_closing_quote_bounds(a, i + 1);
            let e = closing_quote(a, i + 1);
            lemma_prefix_quote(a, rest, i + 1);
            assert(cs.subrange(i + 1, e) =~= a.subrange(i + 1, e));
            lemma_prefix_lex(a, rest, e + 1);
            lemma_prefix_cons(
                TokenView::StringLit(a.subrange(i + 1, e)),
                lex_from(a, e + 1)->Ok_0,
                lex_from(cs, a.len() as int),
            );
        } else if unicode_alphabetic(c) {
            lemma_word_end_bounds(a, i);
            let e = word_end(a, i);
            lemma_prefix_word(a, rest, i);
            assert(cs.subrange(i, e) =~= a.subrange(i, e));
            lemma_prefix_lex(a, rest, e);
            lemma_prefix_cons(TokenView::Word(a.subrange(i, e)), lex_from(a, e)->Ok_0, lex_from(cs, a.len() as int));
        } else {
            lemma_prefix_lex(a, rest, i + 1);
        }
    }
}

proof fn lemma_skip_whitespace(cs: Seq<char>, p: int, q: int)
    requires
        0 <= p <= q <= cs.len(),
        forall|k: int| p <= k < q ==> unicode_whitespace(#[trigger] cs[k]),
    ensures
        lex_from(cs, p) == lex_from(cs, q),
    decreases q - p,
{
    if p < q {
        lemma_char_classes(cs[p]);
        lemma_skip_whitespace(cs, p + 1, q);
    }
}

/// Whitespace between two texts that tokenize gives the tokens of the first
/// followed by those of the second; so whitespace before or after a query
/// changes nothing (the empty text gives no tokens).
pub proof fn law_whitespace_joins_token_lists(a: Seq<char>, ws: Seq<char>, b: Seq<char>)
    requires
        lex(a) is Ok,
        lex(b) is Ok,
        ws.len() > 0,
        forall|i: int| 0 <= i < ws.len() ==> unicode_whitespace(#[trigger] ws[i]),
    ensures
        lex(a + ws + b) == Ok::<Seq<TokenView>, TokenizeError>(lex(a)->Ok_0 + lex(b)->Ok_0),
{
    let rest = ws + b;
    let cs = a + rest;
    assert(a + ws + b =~= cs);
    assert(rest[0] == ws[0]);
    lemma_char_classes(ws[0]);
    lemma_prefix_lex(a, rest, 0);
    let k = a.len() as int;
    assert forall|j: int| k <= j < k + ws.len() implies unicode_whitespace(#[trigger] cs[j]) by {
        assert(cs[j] == ws[j - k]);
    }
    lemma_skip_whitespace(cs, k, k + ws.len());
    assert(cs =~= (a + ws) + b);
    lemma_shift_lex(a + ws, b, 0);
}

/// In text whose beginning tokenizes, the next character that can start no
/// token, or a `!` not followed by `=`, is the error reported, whatever follows.
pub proof fn law_first_unexpected_char_is_reported(p: Seq<char>, c: char, q: Seq<char>)
    requires
        lex(p) is Ok,
        (!unicode_alphabetic(c) && !unicode_whitespace(c) && !starts_token(c)) || (c == '!' && (
        q.len() == 0 || q[0] != '=')),
    ensures
        lex(p + seq![c] + q) == Err::<Seq<TokenView>, TokenizeError>(TokenizeError::Unexpected(c)),
{
    let rest = seq![c] + q;
    let cs = p + rest;
    assert(p + seq![c] + q =~= cs);
    assert(rest[0] == c);
    lemma_prefix_lex(p, rest, 0);
    let k = p.len() as int;
    assert(cs[k] == c);
    if q.len() > 0 {
        assert(cs[k + 1] == q[0]);
    }
}

/// A token written as text: a word as itself, a string between double quotes,
/// an operator or parenthesis as its symbol.
pub open spec fn token_text(t: TokenView) -> Seq<char> {
    match t {
        TokenView::Word(w) => w,
        TokenView::StringLit(v) => seq!['"'] + v + seq!['"'],
        TokenView::Eq => seq!['='],
        TokenView::Ne => seq!['!', '='],
        TokenView::Gt => seq!['>'],
        TokenView::Gte => seq!['>', '='],
        TokenView::Lt => seq!['<'],
        TokenView::Lte => seq!['<', '='],
        TokenView::LParen => seq!['('],
        TokenView::RParen => seq![')'],
    }
}

/// Tokens written as text, separated by single spaces.
pub open spec fn joined_text(ts: Seq<TokenView>) -> Seq<char>
    decreases ts.len(),
{
    if ts.len() == 0 {
        seq![]
    } else if ts.len() == 1 {
        token_text(ts[0])
    } else {
        token_text(ts[0]) + seq![' '] + joined_text(ts.drop_first())
    }
}

/// A token that the tokenizer can give: a word is a non-empty run of letters,
/// a string holds no double quote.
pub open spec fn writable(t: TokenView) -> bool {
    match t {
        TokenView::Word(w) => w.len() > 0 && forall|i: int| 0 <= i < w.len() ==> unicode_alphabetic(#[trigger] w[i]),
        TokenView::StringLit(v) => forall|i: int| 0 <= i < v.len() ==> #[trigger] v[i] != '"',
        _ => true,
    }
}

proof fn lemma_single_token(t: TokenView)
    requires
        writable(t),
    ensures
        lex(token_text(t)) == Ok::<Seq<TokenView>, TokenizeError>(seq![t]),
{
    let r = token_text(t);
    match t {
        TokenView::Word(w) => {
            assert(unicode_alphabetic(w[0]));
            lemma_char_classes(w[0]);
            lemma_word_end_bounds(w, 0);
            if word_end(w, 0) < w.len() {
                assert(unicode_alphabetic(w[word_end(w, 0)]));
            }
            assert(w.subrange(0, w.len() as int) =~= w);
            assert(lex_from(w, w.len() as int) == Ok::<Seq<TokenView>, TokenizeError>(seq![]));
            assert(seq![t] + Seq::<TokenView>::empty() =~= seq![t]);
            assert(lex_from(w, 0) == cons_token(TokenView::Word(w.subrange(0, word_end(w, 0))), lex_from(w, word_end(w, 0))));
        },
        TokenView::StringLit(v) => {
            let n = v.len() as int;
            assert forall|k: int| 1 <= k < 1 + n implies r[k] != '"' by {
                assert(r[k] == v[k - 1]);
            }
            assert(r[1 + n] == '"');
            lemma_closing_quote_is(r, 1, 1 + n);
            assert(r.subrange(1, 1 + n) =~= v);
            assert(lex_from(r, n + 2) == Ok::<Seq<TokenView>, TokenizeError>(seq![]));
            assert(seq![t] + Seq::<TokenView>::empty() =~= seq![t]);
        },
        _ => {
            assert(seq![t] + Seq::<TokenView>::empty() =~= seq![t]);
            if r.len() == 2 {
                assert(lex_from(r, 2) == Ok::<Seq<TokenView>, TokenizeError>(seq![]));
            }
            assert(lex_from(r, 1) == Ok::<Seq<TokenView>, TokenizeError>(seq![]) || r.len() == 2);
        },
    }
}

/// Tokens that the tokenizer can give, written as text and separated by
/// single spaces, tokenize back to themselves.
pub proof fn law_tokenize_reads_back_written_tokens(ts: Seq<TokenView>)
    requires
        forall|i: int| 0 <= i < ts.len() ==> writable(#[trigger] ts[i]),
    ensures
        lex(joined_text(ts)) == Ok::<Seq<TokenView>, TokenizeError>(ts),
    decreases ts.len(),
{
    if ts.len() == 0 {
        assert(ts =~= Seq::<TokenView>::empty());
    } else if ts.len() == 1 {
        lemma_single_token(ts[0]);
        assert(ts =~= seq![ts[0]]);
    } else {
        let rest = ts.drop_first();
        assert forall|i: int| 0 <= i < rest.len() implies writable(#[trigger] rest[i]) by {
            assert(rest[i] == ts[i + 1]);
        }
        law_tokenize_reads_back_written_tokens(rest);
        lemma_single_token(ts[0]);
        let ws = seq![' '];
        assert(unicode_whitespace(ws[0]));
        law_whitespace_joins_token_lists(token_text(ts[0]), ws, joined_text(rest));
        assert(seq![ts[0]] + rest =~= ts);
    }
}

} // verus!
