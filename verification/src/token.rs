use vstd::prelude::*;

use crate::text::{chars_of, is_alphabetic, is_whitespace, string_of, unicode_alphabetic, unicode_whitespace};

verus! {

/// One lexical unit of a query.
///
/// `Word` covers both the grammar's keywords (`AND`, `OR`, `NOT`, `CONTAINS`) and
/// column names: the tokenizer never decides what a word means.
#[derive(Debug, PartialEq)]
pub enum Token {
    Word(String),
    StringLit(String),
    Eq,
    Ne,
    Gt,
    Lt,
    Gte,
    Lte,
    LParen,
    RParen,
}

/// A token with its text taken as a sequence of characters.
pub enum TokenView {
    Word(Seq<char>),
    StringLit(Seq<char>),
    Eq,
    Ne,
    Gt,
    Lt,
    Gte,
    Lte,
    LParen,
    RParen,
}

impl View for Token {
    type V = TokenView;

    open spec fn view(&self) -> TokenView {
        match self {
            Token::Word(w) => TokenView::Word(w@),
            Token::StringLit(s) => TokenView::StringLit(s@),
            Token::Eq => TokenView::Eq,
            Token::Ne => TokenView::Ne,
            Token::Gt => TokenView::Gt,
            Token::Lt => TokenView::Lt,
            Token::Gte => TokenView::Gte,
            Token::Lte => TokenView::Lte,
            Token::LParen => TokenView::LParen,
            Token::RParen => TokenView::RParen,
        }
    }
}

/// Why a query string could not be split into tokens.
#[derive(Debug, PartialEq, Eq, Structural, Clone, Copy)]
pub enum TokenizeError {
    UnterminatedString,
    Unexpected(char),
}

/// The views of a sequence of tokens.
pub open spec fn token_views(ts: Seq<Token>) -> Seq<TokenView> {
    ts.map_values(|t: Token| t@)
}

/// Index of the first `"` at or after `i`, or `cs.len()` when there is none.
pub open spec fn closing_quote(cs: Seq<char>, i: int) -> int
    decreases cs.len() - i,
{
    if i < 0 || i >= cs.len() {
        cs.len() as int
    } else if cs[i] == '"' {
        i
    } else {
        closing_quote(cs, i + 1)
    }
}

/// End of the run of alphabetic characters that starts at `i`.
pub open spec fn word_end(cs: Seq<char>, i: int) -> int
    decreases cs.len() - i,
{
    if i < 0 || i >= cs.len() {
        cs.len() as int
    } else if unicode_alphabetic(cs[i]) {
        word_end(cs, i + 1)
    } else {
        i
    }
}

/// Puts `t` in front of the tokens of `rest`, or passes its error on.
pub open spec fn cons_token(
    t: TokenView,
    rest: Result<Seq<TokenView>, TokenizeError>,
) -> Result<Seq<TokenView>, TokenizeError> {
    match rest {
        Ok(ts) => Ok(seq![t] + ts),
        Err(e) => Err(e),
    }
}

/// Puts the tokens `pre` in front of the tokens of `rest`, or passes its error on.
pub open spec fn prefix_tokens(
    pre: Seq<TokenView>,
    rest: Result<Seq<TokenView>, TokenizeError>,
) -> Result<Seq<TokenView>, TokenizeError> {
    match rest {
        Ok(ts) => Ok(pre + ts),
        Err(e) => Err(e),
    }
}

/// `cs[i + 1] == '='`.
pub open spec fn followed_by_eq(cs: Seq<char>, i: int) -> bool {
    i + 1 < cs.len() && cs[i + 1] == '='
}

/// The tokens of `cs` from index `i` on: the longest token is taken at each
/// step, whitespace between tokens is skipped, and the first character that
/// starts no token is an error.
pub open spec fn lex_from(cs: Seq<char>, i: int) -> Result<Seq<TokenView>, TokenizeError>
    decreases cs.len() - i,
{
    if i < 0 || i >= cs.len() {
        Ok(seq![])
    } else {
        let c = cs[i];
        if c == '>' {
            if followed_by_eq(cs, i) {
                cons_token(TokenView::Gte, lex_from(cs, i + 2))
            } else {
                cons_token(TokenView::Gt, lex_from(cs, i + 1))
            }
        } else if c == '<' {
            if followed_by_eq(cs, i) {
                cons_token(TokenView::Lte, lex_from(cs, i + 2))
            } else {
                cons_token(TokenView::Lt, lex_from(cs, i + 1))
            }
        } else if c == '!' {
            if followed_by_eq(cs, i) {
                cons_token(TokenView::Ne, lex_from(cs, i + 2))
            } else {
                Err(TokenizeError::Unexpected('!'))
            }
        } else if c == '=' {
            cons_token(TokenView::Eq, lex_from(cs, i + 1))
        } else if c == '(' {
            cons_token(TokenView::LParen, lex_from(cs, i + 1))
        } else if c == ')' {
            cons_token(TokenView::RParen, lex_from(cs, i + 1))
        } else if c == '"' {
            let j = closing_quote(cs, i + 1);
            proof {
                lemma_closing_quote_bounds(cs, i + 1);
            }
            if j >= cs.len() {
                Err(TokenizeError::UnterminatedString)
            } else {
                cons_token(TokenView::StringLit(cs.subrange(i + 1, j)), lex_from(cs, j + 1))
            }
        } else if unicode_alphabetic(c) {
            let j = word_end(cs, i);
            proof {
                lemma_word_end_bounds(cs, i);
            }
            cons_token(TokenView::Word(cs.subrange(i, j)), lex_from(cs, j))
        } else if unicode_whitespace(c) {
            lex_from(cs, i + 1)
        } else {
            Err(TokenizeError::Unexpected(c))
        }
    }
}

/// The tokens of a whole query text.
pub open spec fn lex(cs: Seq<char>) -> Result<Seq<TokenView>, TokenizeError> {
    lex_from(cs, 0)
}

/// The view of what `tokenize` returns.
pub open spec fn tokenize_result_view(r: Result<Vec<Token>, TokenizeError>) -> Result<
    Seq<TokenView>,
    TokenizeError,
> {
    match r {
        Ok(ts) => Ok(token_views(ts@)),
        Err(e) => Err(e),
    }
}

pub proof fn lemma_closing_quote_bounds(cs: Seq<char>, i: int)
    requires
        0 <= i <= cs.len(),
    ensures
        i <= closing_quote(cs, i) <= cs.len(),
        closing_quote(cs, i) < cs.len() ==> cs[closing_quote(cs, i)] == '"',
        forall|k: int| i <= k < closing_quote(cs, i) ==> cs[k] != '"',
    decreases cs.len() - i,
{
    if i < cs.len() && cs[i] != '"' {
        lemma_closing_quote_bounds(cs, i + 1);
    }
}

pub proof fn lemma_word_end_bounds(cs: Seq<char>, i: int)
    requires
        0 <= i <= cs.len(),
    ensures
        i <= word_end(cs, i) <= cs.len(),
        word_end(cs, i) < cs.len() ==> !unicode_alphabetic(cs[word_end(cs, i)]),
        forall|k: int| i <= k < word_end(cs, i) ==> unicode_alphabetic(cs[k]),
    decreases cs.len() - i,
{
    if i < cs.len() && unicode_alphabetic(cs[i]) {
        lemma_word_end_bounds(cs, i + 1);
    }
}

/// A scan that stops at the first `"` at or after `a` finds `closing_quote(cs, a)`.
pub proof fn lemma_closing_quote_is(cs: Seq<char>, a: int, b: int)
    requires
        0 <= a <= b <= cs.len(),
        forall|k: int| a <= k < b ==> cs[k] != '"',
        b == cs.len() || cs[b] == '"',
    ensures
        closing_quote(cs, a) == b,
    decreases b - a,
{
    if a < b {
        lemma_closing_quote_is(cs, a + 1, b);
    }
}

/// A scan that stops at the first non-alphabetic character finds `word_end(cs, a)`.
proof fn lemma_word_end_is(cs: Seq<char>, a: int, b: int)
    requires
        0 <= a <= b <= cs.len(),
        forall|k: int| a <= k < b ==> unicode_alphabetic(cs[k]),
        b == cs.len() || !unicode_alphabetic(cs[b]),
    ensures
        word_end(cs, a) == b,
    decreases b - a,
{
    if a < b {
        lemma_word_end_is(cs, a + 1, b);
    }
}

proof fn lemma_prefix_push(pre: Seq<TokenView>, t: TokenView, rest: Result<Seq<TokenView>, TokenizeError>)
    ensures
        prefix_tokens(pre, cons_token(t, rest)) == prefix_tokens(pre.push(t), rest),
{
    match rest {
        Ok(ts) => {
            assert(pre + (seq![t] + ts) =~= pre.push(t) + ts);
        },
        Err(e) => {},
    }
}

/// Splits a query string into tokens.
pub fn tokenize(input: &str) -> (r: Result<Vec<Token>, TokenizeError>)
    ensures
        tokenize_result_view(r) == lex(input@),
{
    let cs = chars_of(input);
    let n = cs.len();
    let mut tokens: Vec<Token> = Vec::new();
    let mut i: usize = 0;
    while i < n
        invariant
            cs@ == input@,
            n == cs.len(),
            i <= n,
            lex(cs@) == prefix_tokens(token_views(tokens@), lex_from(cs@, i as int)),
        decreases n - i,
    {
        let ghost before = token_views(tokens@);
        let c = cs[i];
        if c == '>' || c == '<' || c == '!' {
            let tok = if i + 1 < n && cs[i + 1] == '=' {
                i = i + 2;
                if c == '>' {
                    Token::Gte
                } else if c == '<' {
                    Token::Lte
                } else {
                    Token::Ne
                }
            } else {
                i = i + 1;
                if c == '>' {
                    Token::Gt
                } else if c == '<' {
                    Token::Lt
                } else {
                    return Err(TokenizeError::Unexpected(c));
                }
            };
            proof {
                lemma_prefix_push(before, tok@, lex_from(cs@, i as int));
            }
            tokens.push(tok);
            assert(token_views(tokens@) =~= before.push(tokens@.last()@));
        } else if c == '=' || c == '(' || c == ')' {
            let tok = if c == '=' {
                Token::Eq
            } else if c == '(' {
                Token::LParen
            } else {
                Token::RParen
            };
            i = i + 1;
            proof {
                lemma_prefix_push(before, tok@, lex_from(cs@, i as int));
            }
            tokens.push(tok);
            assert(token_views(tokens@) =~= before.push(tokens@.last()@));
        } else if c == '"' {
            let start = i + 1;
            let mut j = start;
            while j < n && cs[j] != '"'
                invariant
                    cs@ == input@,
                    n == cs.len(),
                    start <= j <= n,
                    forall|k: int| start <= k < j ==> cs@[k] != '"',
                decreases n - j,
            {
                j = j + 1;
            }
            proof {
                lemma_closing_quote_is(cs@, start as int, j as int);
            }
            if j == n {
                return Err(TokenizeError::UnterminatedString);
            }
            let contents = string_of(&cs, start, j);
            let tok = Token::StringLit(contents);
            i = j + 1;
            proof {
                lemma_prefix_push(before, tok@, lex_from(cs@, i as int));
            }
            tokens.push(tok);
            assert(token_views(tokens@) =~= before.push(tokens@.last()@));
        } else if is_alphabetic(c) {
            let mut j = i + 1;
            while j < n && is_alphabetic(cs[j])
                invariant
                    cs@ == input@,
                    n == cs.len(),
                    i < j <= n,
                    forall|k: int| i <= k < j ==> unicode_alphabetic(cs@[k]),
                decreases n - j,
            {
                j = j + 1;
            }
            proof {
                lemma_word_end_is(cs@, i as int, j as int);
            }
            let word = string_of(&cs, i, j);
            let tok = Token::Word(word);
            i = j;
            proof {
                lemma_prefix_push(before, tok@, lex_from(cs@, i as int));
            }
            tokens.push(tok);
            assert(token_views(tokens@) =~= before.push(tokens@.last()@));
        } else if is_whitespace(c) {
            i = i + 1;
        } else {
            return Err(TokenizeError::Unexpected(c));
        }
    }
    assert(token_views(tokens@) + seq![] =~= token_views(tokens@));
    Ok(tokens)
}

} // verus!
