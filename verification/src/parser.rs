use vstd::prelude::*;

use crate::text::text_eq;
use crate::token::{token_views, Token, TokenView};

verus! {

/// A field of a log record that a comparison reads.
#[derive(Debug, PartialEq, Eq, Structural, Clone, Copy)]
pub enum Column {
    Timestamp,
    Level,
    Source,
    Message,
}

/// A comparison operator.
#[derive(Debug, PartialEq, Eq, Structural, Clone, Copy)]
pub enum Op {
    Eq,
    Ne,
    Gt,
    Gte,
    Lt,
    Lte,
    Contains,
}

/// `column op "value"`.
#[derive(Debug, PartialEq)]
pub struct Comparison {
    pub column: Column,
    pub op: Op,
    pub value: String,
}

/// A parsed query.
#[derive(Debug, PartialEq)]
pub enum Query {
    Comparison(Comparison),
    And(Box<Query>, Box<Query>),
    Or(Box<Query>, Box<Query>),
    Not(Box<Query>),
}

/// Why a token stream is not a query.
#[derive(Debug, PartialEq)]
pub enum ParseError {
    /// A word in column position names no column.
    UnknownColumn(String),
    /// The column does not take this operator (`level > "x"`).
    InvalidOperatorForColumn { column: Column, op: Op },
    /// Column position holds no word, or the tokens ran out.
    ExpectedColumn,
    /// Operator position holds no operator, or the tokens ran out.
    ExpectedOperator,
    /// Operand position holds no string literal, or the tokens ran out.
    ExpectedOperand,
    /// Tokens are left after a complete query.
    TrailingGarbage,
    /// A `(` is not closed by a `)`.
    UnclosedParen,
}

/// A query with its strings taken as sequences of characters.
pub enum QueryView {
    Compare(Column, Op, Seq<char>),
    And(Box<QueryView>, Box<QueryView>),
    Or(Box<QueryView>, Box<QueryView>),
    Not(Box<QueryView>),
}

/// A parse error with its strings taken as sequences of characters.
pub enum ParseErrorView {
    UnknownColumn(Seq<char>),
    InvalidOperatorForColumn(Column, Op),
    ExpectedColumn,
    ExpectedOperator,
    ExpectedOperand,
    TrailingGarbage,
    UnclosedParen,
}

impl View for Query {
    type V = QueryView;

    open spec fn view(&self) -> QueryView
        decreases self,
    {
        match self {
            Query::Comparison(c) => QueryView::Compare(c.column, c.op, c.value@),
            Query::And(a, b) => QueryView::And(Box::new((**a).view()), Box::new((**b).view())),
            Query::Or(a, b) => QueryView::Or(Box::new((**a).view()), Box::new((**b).view())),
            Query::Not(a) => QueryView::Not(Box::new((**a).view())),
        }
    }
}

impl View for ParseError {
    type V = ParseErrorView;

    open spec fn view(&self) -> ParseErrorView {
        match self {
            ParseError::UnknownColumn(s) => ParseErrorView::UnknownColumn(s@),
            ParseError::InvalidOperatorForColumn { column, op } => ParseErrorView::InvalidOperatorForColumn(*column, *op),
            ParseError::ExpectedColumn => ParseErrorView::ExpectedColumn,
            ParseError::ExpectedOperator => ParseErrorView::ExpectedOperator,
            ParseError::ExpectedOperand => ParseErrorView::ExpectedOperand,
            ParseError::TrailingGarbage => ParseErrorView::TrailingGarbage,
            ParseError::UnclosedParen => ParseErrorView::UnclosedParen,
        }
    }
}

/// The operators that the grammar allows on each column.
pub open spec fn valid_op(column: Column, op: Op) -> bool {
    match column {
        Column::Timestamp => op is Eq || op is Gt || op is Lt || op is Gte || op is Lte,
        Column::Level | Column::Source => op is Eq || op is Ne,
        Column::Message => op is Contains,
    }
}

/// Every comparison in `q` uses an operator that its column allows.
pub open spec fn well_formed(q: QueryView) -> bool
    decreases q,
{
    match q {
        QueryView::Compare(c, o, _) => valid_op(c, o),
        QueryView::And(a, b) => well_formed(*a) && well_formed(*b),
        QueryView::Or(a, b) => well_formed(*a) && well_formed(*b),
        QueryView::Not(a) => well_formed(*a),
    }
}

pub open spec fn kw_and() -> Seq<char> {
    seq!['A', 'N', 'D']
}

pub open spec fn kw_or() -> Seq<char> {
    seq!['O', 'R']
}

pub open spec fn kw_not() -> Seq<char> {
    seq!['N', 'O', 'T']
}

pub open spec fn kw_contains() -> Seq<char> {
    seq!['C', 'O', 'N', 'T', 'A', 'I', 'N', 'S']
}

/// The column that a word names, if any.
pub open spec fn column_named(w: Seq<char>) -> Option<Column> {
    if w == seq!['t', 'i', 'm', 'e', 's', 't', 'a', 'm', 'p'] {
        Some(Column::Timestamp)
    } else if w == seq!['l', 'e', 'v', 'e', 'l'] {
        Some(Column::Level)
    } else if w == seq!['s', 'o', 'u', 'r', 'c', 'e'] {
        Some(Column::Source)
    } else if w == seq!['m', 'e', 's', 's', 'a', 'g', 'e'] {
        Some(Column::Message)
    } else {
        None
    }
}

/// The operator that a token stands for, if any.
pub open spec fn op_of(t: TokenView) -> Option<Op> {
    match t {
        TokenView::Eq => Some(Op::Eq),
        TokenView::Ne => Some(Op::Ne),
        TokenView::Gt => Some(Op::Gt),
        TokenView::Gte => Some(Op::Gte),
        TokenView::Lt => Some(Op::Lt),
        TokenView::Lte => Some(Op::Lte),
        TokenView::Word(w) => if w == kw_contains() {
            Some(Op::Contains)
        } else {
            None
        },
        _ => None,
    }
}

/// The token at `p`, if there is one.
pub open spec fn token_at(s: Seq<TokenView>, p: int) -> Option<TokenView> {
    if 0 <= p < s.len() {
        Some(s[p])
    } else {
        None
    }
}

/// The token at `p` is the word `kw`.
pub open spec fn is_keyword_at(s: Seq<TokenView>, p: int, kw: Seq<char>) -> bool {
    &&& 0 <= p < s.len()
    &&& s[p] matches TokenView::Word(w) && w == kw
}

/// What a grammar rule yields from position `p`: the query and the position after it.
pub type Parsed = Result<(QueryView, int), ParseErrorView>;

/// `comparison = column op string`, at position `p`.
pub open spec fn p_comparison(s: Seq<TokenView>, p: int) -> Parsed {
    match token_at(s, p) {
        Some(TokenView::Word(name)) => match column_named(name) {
            None => Err(ParseErrorView::UnknownColumn(name)),
            Some(column) => match token_at(s, p + 1) {
                Some(t) if op_of(t) is Some => {
                    let op = op_of(t)->0;
                    match token_at(s, p + 2) {
                        Some(TokenView::StringLit(value)) => if valid_op(column, op) {
                            Ok((QueryView::Compare(column, op, value), p + 3))
                        } else {
                            Err(ParseErrorView::InvalidOperatorForColumn(column, op))
                        },
                        _ => Err(ParseErrorView::ExpectedOperand),
                    }
                },
                _ => Err(ParseErrorView::ExpectedOperator),
            },
        },
        _ => Err(ParseErrorView::ExpectedColumn),
    }
}

/// Where a comparison at `p` that fails stops reading: one token on for a
/// missing or unknown column, two for a missing operator, three for a missing
/// operand or an operator the column does not take; or at the end of the
/// tokens, when they run out first.
pub open spec fn comparison_error_end(len: int, p: int, e: ParseErrorView) -> int {
    let taken = match e {
        ParseErrorView::UnknownColumn(_) => 1int,
        ParseErrorView::ExpectedColumn => 1int,
        ParseErrorView::ExpectedOperator => 2int,
        _ => 3int,
    };
    if p + taken <= len {
        p + taken
    } else {
        len
    }
}

/// `expr = and_expr ("OR" and_expr)*`, at position `p`.
///
/// Each rule ends at a position after the one it started from and within the
/// tokens (the parser's contracts show it); the bounds tested on those
/// positions below only make the termination of the rules evident.
pub open spec fn p_expr(s: Seq<TokenView>, p: int) -> Parsed
    decreases s.len() - p, 5int,
{
    match p_and(s, p) {
        Err(e) => Err(e),
        Ok((left, p1)) => if p <= p1 <= s.len() {
            p_expr_tail(s, left, p1)
        } else {
            Err(ParseErrorView::TrailingGarbage)
        },
    }
}

/// The `("OR" and_expr)*` part of `expr`, folded to the left onto `left`.
pub open spec fn p_expr_tail(s: Seq<TokenView>, left: QueryView, p: int) -> Parsed
    decreases s.len() - p, 4int,
{
    if is_keyword_at(s, p, kw_or()) {
        match p_and(s, p + 1) {
            Err(e) => Err(e),
            Ok((right, p2)) => if p + 1 <= p2 <= s.len() {
                p_expr_tail(s, QueryView::Or(Box::new(left), Box::new(right)), p2)
            } else {
                Err(ParseErrorView::TrailingGarbage)
            },
        }
    } else {
        Ok((left, p))
    }
}

/// `and_expr = not_expr ("AND" not_expr)*`, at position `p`.
pub open spec fn p_and(s: Seq<TokenView>, p: int) -> Parsed
    decreases s.len() - p, 3int,
{
    match p_not(s, p) {
        Err(e) => Err(e),
        Ok((left, p1)) => if p <= p1 <= s.len() {
            p_and_tail(s, left, p1)
        } else {
            Err(ParseErrorView::TrailingGarbage)
        },
    }
}

/// The `("AND" not_expr)*` part of `and_expr`, folded to the left onto `left`.
pub open spec fn p_and_tail(s: Seq<TokenView>, left: QueryView, p: int) -> Parsed
    decreases s.len() - p, 2int,
{
    if is_keyword_at(s, p, kw_and()) {
        match p_not(s, p + 1) {
            Err(e) => Err(e),
            Ok((right, p2)) => if p + 1 <= p2 <= s.len() {
                p_and_tail(s, QueryView::And(Box::new(left), Box::new(right)), p2)
            } else {
                Err(ParseErrorView::TrailingGarbage)
            },
        }
    } else {
        Ok((left, p))
    }
}

/// `not_expr = "NOT" not_expr | atom`, at position `p`.
pub open spec fn p_not(s: Seq<TokenView>, p: int) -> Parsed
    decreases s.len() - p, 1int,
{
    if is_keyword_at(s, p, kw_not()) {
        match p_not(s, p + 1) {
            Err(e) => Err(e),
            Ok((inner, p1)) => Ok((QueryView::Not(Box::new(inner)), p1)),
        }
    } else {
        p_atom(s, p)
    }
}

/// `atom = comparison | "(" expr ")"`, at position `p`.
pub open spec fn p_atom(s: Seq<TokenView>, p: int) -> Parsed
    decreases s.len() - p, 0int,
{
    if token_at(s, p) == Some(TokenView::LParen) {
        match p_expr(s, p + 1) {
            Err(e) => Err(e),
            Ok((inner, p1)) => if token_at(s, p1) == Some(TokenView::RParen) {
                Ok((inner, p1 + 1))
            } else {
                Err(ParseErrorView::UnclosedParen)
            },
        }
    } else {
        p_comparison(s, p)
    }
}

/// `query = expr`, with no token left over.
pub open spec fn parse_spec(s: Seq<TokenView>) -> Result<QueryView, ParseErrorView> {
    match p_expr(s, 0) {
        Err(e) => Err(e),
        Ok((q, p)) => if p < s.len() {
            Err(ParseErrorView::TrailingGarbage)
        } else {
            Ok(q)
        },
    }
}

/// The view of what a parsing step returned, with the position it reached.
pub open spec fn step_view(r: Result<Query, ParseError>, pos: int) -> Parsed {
    match r {
        Ok(q) => Ok((q@, pos)),
        Err(e) => Err(e@),
    }
}

/// The view of what `parse` returns.
pub open spec fn parse_result_view(r: Result<Query, ParseError>) -> Result<QueryView, ParseErrorView> {
    match r {
        Ok(q) => Ok(q@),
        Err(e) => Err(e@),
    }
}

/// A recursive-descent parser over a token slice: `pos` is the next token to read.
pub struct Parser<'a> {
    pub tokens: &'a [Token],
    pub pos: usize,
}

impl<'a> Parser<'a> {
    spec fn toks(&self) -> Seq<TokenView> {
        token_views(self.tokens@)
    }

    /// A parser at the first token.
    pub fn new(tokens: &'a [Token]) -> (r: Self)
        ensures
            r.tokens == tokens,
            r.pos == 0,
    {
        Self { tokens, pos: 0 }
    }

    /// The next token, if any, without moving on.
    pub fn peek(&self) -> (r: Option<&'a Token>)
        ensures
            self.pos < self.tokens@.len() ==> r == Some(&self.tokens@[self.pos as int]),
            self.pos >= self.tokens@.len() ==> r is None,
    {
        if self.pos < self.tokens.len() {
            Some(&self.tokens[self.pos])
        } else {
            None
        }
    }

    /// The next token, if any, moving past it; at the end nothing moves.
    pub fn advance(&mut self) -> (r: Option<&'a Token>)
        ensures
            final(self).tokens == old(self).tokens,
            old(self).pos < old(self).tokens@.len() ==> r == Some(&old(self).tokens@[old(self).pos as int])
                && final(self).pos == old(self).pos + 1,
            old(self).pos >= old(self).tokens@.len() ==> r is None && final(self).pos == old(self).pos,
            old(self).pos <= final(self).pos,
            old(self).pos <= old(self).tokens@.len() ==> final(self).pos <= final(self).tokens@.len(),
    {
        if self.pos < self.tokens.len() {
            let token = &self.tokens[self.pos];
            self.pos = self.pos + 1;
            Some(token)
        } else {
            None
        }
    }

    /// Whether the next token is the word `kw`.
    fn next_is_keyword(&self, kw: &str) -> (r: bool)
        ensures
            r == is_keyword_at(self.toks(), self.pos as int, kw@),
    {
        match self.peek() {
            Some(Token::Word(w)) => text_eq(w.as_str(), kw),
            _ => false,
        }
    }

    fn parse_expr(&mut self) -> (r: Result<Query, ParseError>)
        requires
            old(self).pos <= old(self).tokens@.len(),
        ensures
            final(self).tokens == old(self).tokens,
            old(self).pos <= final(self).pos <= final(self).tokens@.len(),
            r is Ok ==> old(self).pos < final(self).pos,
            r matches Ok(q) ==> well_formed(q@),
            step_view(r, final(self).pos as int) == p_expr(old(self).toks(), old(self).pos as int),
        decreases old(self).tokens@.len() - old(self).pos, 5int,
    {
        proof {
            reveal_strlit("OR");
            assert("OR"@ =~= kw_or());
        }
        let ghost s = self.toks();
        let ghost p0 = self.pos as int;
        let mut left = self.parse_and_expr()?;
        while self.next_is_keyword("OR")
            invariant
                self.tokens == old(self).tokens,
                self.toks() == s,
                s == old(self).toks(),
                p0 == old(self).pos,
                p0 < self.pos <= self.tokens@.len(),
                well_formed(left@),
                "OR"@ == kw_or(),
                p_expr(s, p0) == p_expr_tail(s, left@, self.pos as int),
            decreases self.tokens@.len() - self.pos,
        {
            self.advance();
            let right = self.parse_and_expr()?;
            left = Query::Or(Box::new(left), Box::new(right));
        }
        Ok(left)
    }

    fn parse_and_expr(&mut self) -> (r: Result<Query, ParseError>)
        requires
            old(self).pos <= old(self).tokens@.len(),
        ensures
            final(self).tokens == old(self).tokens,
            old(self).pos <= final(self).pos <= final(self).tokens@.len(),
            r is Ok ==> old(self).pos < final(self).pos,
            r matches Ok(q) ==> well_formed(q@),
            step_view(r, final(self).pos as int) == p_and(old(self).toks(), old(self).pos as int),
        decreases old(self).tokens@.len() - old(self).pos, 3int,
    {
        proof {
            reveal_strlit("AND");
            assert("AND"@ =~= kw_and());
        }
        let ghost s = self.toks();
        let ghost p0 = self.pos as int;
        let mut left = self.parse_not_expr()?;
        while self.next_is_keyword("AND")
            invariant
                self.tokens == old(self).tokens,
                self.toks() == s,
                s == old(self).toks(),
                p0 == old(self).pos,
                p0 < self.pos <= self.tokens@.len(),
                well_formed(left@),
                "AND"@ == kw_and(),
                p_and(s, p0) == p_and_tail(s, left@, self.pos as int),
            decreases self.tokens@.len() - self.pos,
        {
            self.advance();
            let right = self.parse_not_expr()?;
            left = Query::And(Box::new(left), Box::new(right));
        }
        Ok(left)
    }

    fn parse_not_expr(&mut self) -> (r: Result<Query, ParseError>)
        requires
            old(self).pos <= old(self).tokens@.len(),
        ensures
            final(self).tokens == old(self).tokens,
            old(self).pos <= final(self).pos <= final(self).tokens@.len(),
            r is Ok ==> old(self).pos < final(self).pos,
            r matches Ok(q) ==> well_formed(q@),
            step_view(r, final(self).pos as int) == p_not(old(self).toks(), old(self).pos as int),
        decreases old(self).tokens@.len() - old(self).pos, 1int,
    {
        proof {
            reveal_strlit("NOT");
            assert("NOT"@ =~= kw_not());
        }
        if self.next_is_keyword("NOT") {
            self.advance();
            let inner = self.parse_not_expr()?;
            return Ok(Query::Not(Box::new(inner)));
        }
        self.parse_atom()
    }

    fn parse_atom(&mut self) -> (r: Result<Query, ParseError>)
        requires
            old(self).pos <= old(self).tokens@.len(),
        ensures
            final(self).tokens == old(self).tokens,
            old(self).pos <= final(self).pos <= final(self).tokens@.len(),
            r is Ok ==> old(self).pos < final(self).pos,
            r matches Ok(q) ==> well_formed(q@),
            step_view(r, final(self).pos as int) == p_atom(old(self).toks(), old(self).pos as int),
        decreases old(self).tokens@.len() - old(self).pos, 0int,
    {
        let opens = match self.peek() {
            Some(Token::LParen) => true,
            _ => false,
        };
        if opens {
            self.advance();
            let inner = self.parse_expr()?;
            return match self.advance() {
                Some(Token::RParen) => Ok(inner),
                _ => Err(ParseError::UnclosedParen),
            };
        }
        self.parse_comparison()
    }

    fn parse_comparison(&mut self) -> (r: Result<Query, ParseError>)
        requires
            old(self).pos <= old(self).tokens@.len(),
        ensures
            final(self).tokens == old(self).tokens,
            old(self).pos <= final(self).pos <= final(self).tokens@.len(),
            r is Ok ==> old(self).pos < final(self).pos,
            r matches Ok(q) ==> well_formed(q@),
            step_view(r, final(self).pos as int) == p_comparison(old(self).toks(), old(self).pos as int),
            r matches Err(e) ==> final(self).pos == comparison_error_end(
                old(self).tokens@.len() as int,
                old(self).pos as int,
                e@,
            ),
    {
        let column = match self.advance() {
            Some(Token::Word(col_name)) => match column_from_word(col_name) {
                Some(c) => c,
                None => return Err(ParseError::UnknownColumn(col_name.clone())),
            },
            _ => return Err(ParseError::ExpectedColumn),
        };
        let op = match self.advance() {
            Some(t) => match op_from_token(t) {
                Some(o) => o,
                None => return Err(ParseError::ExpectedOperator),
            },
            None => return Err(ParseError::ExpectedOperator),
        };
        let value = match self.advance() {
            Some(Token::StringLit(val)) => val.clone(),
            _ => return Err(ParseError::ExpectedOperand),
        };
        if !is_valid_op_for_column(&column, &op) {
            return Err(ParseError::InvalidOperatorForColumn { column, op });
        }
        Ok(Query::Comparison(Comparison { column, op, value }))
    }
}

/// The column that a word names, if any.
fn column_from_word(w: &String) -> (r: Option<Column>)
    ensures
        r == column_named(w@),
{
    proof {
        reveal_strlit("timestamp");
        reveal_strlit("level");
        reveal_strlit("source");
        reveal_strlit("message");
        assert("timestamp"@ =~= seq!['t', 'i', 'm', 'e', 's', 't', 'a', 'm', 'p']);
        assert("level"@ =~= seq!['l', 'e', 'v', 'e', 'l']);
        assert("source"@ =~= seq!['s', 'o', 'u', 'r', 'c', 'e']);
        assert("message"@ =~= seq!['m', 'e', 's', 's', 'a', 'g', 'e']);
    }
    let w = w.as_str();
    if text_eq(w, "timestamp") {
        Some(Column::Timestamp)
    } else if text_eq(w, "level") {
        Some(Column::Level)
    } else if text_eq(w, "source") {
        Some(Column::Source)
    } else if text_eq(w, "message") {
        Some(Column::Message)
    } else {
        None
    }
}

/// The operator that a token stands for, if any.
fn op_from_token(t: &Token) -> (r: Option<Op>)
    ensures
        r == op_of(t@),
{
    proof {
        reveal_strlit("CONTAINS");
        assert("CONTAINS"@ =~= kw_contains());
    }
    match t {
        Token::Eq => Some(Op::Eq),
        Token::Ne => Some(Op::Ne),
        Token::Gt => Some(Op::Gt),
        Token::Gte => Some(Op::Gte),
        Token::Lt => Some(Op::Lt),
        Token::Lte => Some(Op::Lte),
        Token::Word(w) => if text_eq(w.as_str(), "CONTAINS") {
            Some(Op::Contains)
        } else {
            None
        },
        _ => None,
    }
}

/// Whether the grammar allows `op` on `column`.
pub fn is_valid_op_for_column(column: &Column, op: &Op) -> (r: bool)
    ensures
        r == valid_op(*column, *op),
{
    match column {
        Column::Timestamp => match op {
            Op::Eq | Op::Gt | Op::Lt | Op::Gte | Op::Lte => true,
            _ => false,
        },
        Column::Level | Column::Source => match op {
            Op::Eq | Op::Ne => true,
            _ => false,
        },
        Column::Message => match op {
            Op::Contains => true,
            _ => false,
        },
    }
}

/// Whether two parse errors are the same error.
pub fn parse_error_eq(a: &ParseError, b: &ParseError) -> (r: bool)
    ensures
        r == (a@ == b@),
{
    match a {
        ParseError::UnknownColumn(x) => match b {
            ParseError::UnknownColumn(y) => *x == *y,
            _ => false,
        },
        ParseError::InvalidOperatorForColumn { column: c1, op: o1 } => match b {
            ParseError::InvalidOperatorForColumn { column: c2, op: o2 } => *c1 == *c2 && *o1 == *o2,
            _ => false,
        },
        ParseError::ExpectedColumn => matches!(b, ParseError::ExpectedColumn),
        ParseError::ExpectedOperator => matches!(b, ParseError::ExpectedOperator),
        ParseError::ExpectedOperand => matches!(b, ParseError::ExpectedOperand),
        ParseError::TrailingGarbage => matches!(b, ParseError::TrailingGarbage),
        ParseError::UnclosedParen => matches!(b, ParseError::UnclosedParen),
    }
}

/// Turns a token stream into a query, by the grammar
/// `expr = and_expr ("OR" and_expr)*`, `and_expr = not_expr ("AND" not_expr)*`,
/// `not_expr = "NOT" not_expr | atom`, `atom = comparison | "(" expr ")"`.
pub fn parse(tokens: &[Token]) -> (r: Result<Query, ParseError>)
    ensures
        parse_result_view(r) == parse_spec(token_views(tokens@)),
        r matches Ok(q) ==> well_formed(q@),
{
    let mut parser = Parser::new(tokens);
    let query = parser.parse_expr()?;
    if parser.peek().is_some() {
        return Err(ParseError::TrailingGarbage);
    }
    Ok(query)
}

} // verus!
