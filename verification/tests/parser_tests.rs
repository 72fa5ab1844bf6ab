use cli_log_file_analyzer::parser::{parse, Column, Comparison, Op, ParseError, Parser, Query};
use cli_log_file_analyzer::token::{tokenize, Token};

#[test]
fn parse_simple_comparison() {
    let tokens = vec![
        Token::Word("level".into()),
        Token::Eq,
        Token::StringLit("ERROR".into()),
    ];

    let expected = Ok(Query::Comparison(Comparison {
        column: Column::Level,
        op: Op::Eq,
        value: "ERROR".into(),
    }));

    assert_eq!(parse(&tokens), expected);
}

#[test]
fn parse_unknown_column_fails() {
    let tokens = vec![
        Token::Word("frobnicate".into()),
        Token::Eq,
        Token::StringLit("ERROR".into()),
    ];

    let expected = Err(ParseError::UnknownColumn("frobnicate".into()));

    assert_eq!(parse(&tokens), expected);
}

#[test]
fn parse_not_equals_comparison() {
    let tokens = vec![
        Token::Word("level".into()),
        Token::Ne,
        Token::StringLit("ERROR".into()),
    ];

    let expected = Ok(Query::Comparison(Comparison {
        column: Column::Level,
        op: Op::Ne,
        value: "ERROR".into(),
    }));

    assert_eq!(parse(&tokens), expected);
}

#[test]
fn parse_source_column_comparison() {
    let tokens = vec![
        Token::Word("source".into()),
        Token::Eq,
        Token::StringLit("database".into()),
    ];

    let expected = Ok(Query::Comparison(Comparison {
        column: Column::Source,
        op: Op::Eq,
        value: "database".into(),
    }));

    assert_eq!(parse(&tokens), expected);
}

#[test]
fn parse_timestamp_column_comparison() {
    let tokens = vec![
        Token::Word("timestamp".into()),
        Token::Eq,
        Token::StringLit("2021-02-09T11:40:59Z".into()),
    ];

    let expected = Ok(Query::Comparison(Comparison {
        column: Column::Timestamp,
        op: Op::Eq,
        value: "2021-02-09T11:40:59Z".into(),
    }));

    assert_eq!(parse(&tokens), expected);
}

#[test]
fn parse_timestamp_greater_than_comparison() {
    let tokens = vec![
        Token::Word("timestamp".into()),
        Token::Gt,
        Token::StringLit("2021-02-09T11:40:59Z".into()),
    ];

    let expected = Ok(Query::Comparison(Comparison {
        column: Column::Timestamp,
        op: Op::Gt,
        value: "2021-02-09T11:40:59Z".into(),
    }));

    assert_eq!(parse(&tokens), expected);
}

#[test]
fn parse_timestamp_greater_than_or_equal_comparison() {
    let tokens = vec![
        Token::Word("timestamp".into()),
        Token::Gte,
        Token::StringLit("2021-02-09T11:40:59Z".into()),
    ];

    let expected = Ok(Query::Comparison(Comparison {
        column: Column::Timestamp,
        op: Op::Gte,
        value: "2021-02-09T11:40:59Z".into(),
    }));

    assert_eq!(parse(&tokens), expected);
}

#[test]
fn parse_timestamp_less_than_comparison() {
    let tokens = vec![
        Token::Word("timestamp".into()),
        Token::Lt,
        Token::StringLit("2021-02-09T11:40:59Z".into()),
    ];

    let expected = Ok(Query::Comparison(Comparison {
        column: Column::Timestamp,
        op: Op::Lt,
        value: "2021-02-09T11:40:59Z".into(),
    }));

    assert_eq!(parse(&tokens), expected);
}

#[test]
fn parse_timestamp_less_than_or_equal_comparison() {
    let tokens = vec![
        Token::Word("timestamp".into()),
        Token::Lte,
        Token::StringLit("2021-02-09T11:40:59Z".into()),
    ];

    let expected = Ok(Query::Comparison(Comparison {
        column: Column::Timestamp,
        op: Op::Lte,
        value: "2021-02-09T11:40:59Z".into(),
    }));

    assert_eq!(parse(&tokens), expected);
}

#[test]
fn parse_message_contains_comparison() {
    let tokens = vec![
        Token::Word("message".into()),
        Token::Word("CONTAINS".into()),
        Token::StringLit("connection refused".into()),
    ];

    let expected = Ok(Query::Comparison(Comparison {
        column: Column::Message,
        op: Op::Contains,
        value: "connection refused".into(),
    }));

    assert_eq!(parse(&tokens), expected);
}

#[test]
fn parse_not_unary_operator_modifier() {
    let tokens = vec![
        Token::Word("NOT".into()),
        Token::Word("level".into()),
        Token::Eq,
        Token::StringLit("ERROR".into()),
    ];

    let expected = Ok(Query::Not(Box::new(Query::Comparison(Comparison {
        column: Column::Level,
        op: Op::Eq,
        value: "ERROR".into(),
    }))));

    assert_eq!(parse(&tokens), expected);
}

#[test]
fn parse_ordering_operator_on_eq_only_column_fails() {
    let tokens = vec![
        Token::Word("level".into()),
        Token::Gt,
        Token::StringLit("ERROR".into()),
    ];

    let expected = Err(ParseError::InvalidOperatorForColumn {
        column: Column::Level,
        op: Op::Gt,
    });

    assert_eq!(parse(&tokens), expected);
}

#[test]
fn parse_ordering_operator_on_source_column_fails() {
    let tokens = vec![
        Token::Word("source".into()),
        Token::Gt,
        Token::StringLit("database".into()),
    ];

    let expected = Err(ParseError::InvalidOperatorForColumn {
        column: Column::Source,
        op: Op::Gt,
    });

    assert_eq!(parse(&tokens), expected);
}

#[test]
fn parse_missing_operand_fails() {
    let tokens = vec![Token::Word("level".into()), Token::Eq];

    let expected = Err(ParseError::ExpectedOperand);

    assert_eq!(parse(&tokens), expected);
}

#[test]
fn parse_trailing_garbage_fails() {
    let tokens = vec![
        Token::Word("level".into()),
        Token::Eq,
        Token::StringLit("ERROR".into()),
        Token::Word("extra".into()),
    ];

    let expected = Err(ParseError::TrailingGarbage);

    assert_eq!(parse(&tokens), expected);
}

#[test]
fn parse_and_binary_operator_joining_comparisons() {
    let tokens = vec![
        Token::Word("level".into()),
        Token::Eq,
        Token::StringLit("ERROR".into()),
        Token::Word("AND".into()),
        Token::Word("source".into()),
        Token::Eq,
        Token::StringLit("database".into()),
    ];

    let expected = Ok(Query::And(
        Box::new(Query::Comparison(Comparison {
            column: Column::Level,
            op: Op::Eq,
            value: "ERROR".into(),
        })),
        Box::new(Query::Comparison(Comparison {
            column: Column::Source,
            op: Op::Eq,
            value: "database".into(),
        })),
    ));

    assert_eq!(parse(&tokens), expected);
}

#[test]
fn parse_or_binary_operator_joining_comparisons() {
    let tokens = vec![
        Token::Word("level".into()),
        Token::Eq,
        Token::StringLit("ERROR".into()),
        Token::Word("OR".into()),
        Token::Word("source".into()),
        Token::Eq,
        Token::StringLit("database".into()),
    ];

    let expected = Ok(Query::Or(
        Box::new(Query::Comparison(Comparison {
            column: Column::Level,
            op: Op::Eq,
            value: "ERROR".into(),
        })),
        Box::new(Query::Comparison(Comparison {
            column: Column::Source,
            op: Op::Eq,
            value: "database".into(),
        })),
    ));

    assert_eq!(parse(&tokens), expected);
}

#[test]
fn parse_parenthesized_comparison() {
    let tokens = vec![
        Token::LParen,
        Token::Word("level".into()),
        Token::Eq,
        Token::StringLit("ERROR".into()),
        Token::RParen,
    ];

    let expected = Ok(Query::Comparison(Comparison {
        column: Column::Level,
        op: Op::Eq,
        value: "ERROR".into(),
    }));

    assert_eq!(parse(&tokens), expected);
}

#[test]
fn parse_parens_group_or_under_not() {
    let tokens = vec![
        Token::Word("NOT".into()),
        Token::LParen,
        Token::Word("level".into()),
        Token::Eq,
        Token::StringLit("ERROR".into()),
        Token::Word("OR".into()),
        Token::Word("level".into()),
        Token::Eq,
        Token::StringLit("WARN".into()),
        Token::RParen,
    ];

    let expected = Ok(Query::Not(Box::new(Query::Or(
        Box::new(Query::Comparison(Comparison {
            column: Column::Level,
            op: Op::Eq,
            value: "ERROR".into(),
        })),
        Box::new(Query::Comparison(Comparison {
            column: Column::Level,
            op: Op::Eq,
            value: "WARN".into(),
        })),
    ))));

    assert_eq!(parse(&tokens), expected);
}

#[test]
fn parse_unclosed_paren_fails() {
    let tokens = vec![
        Token::LParen,
        Token::Word("level".into()),
        Token::Eq,
        Token::StringLit("ERROR".into()),
    ];

    let expected = Err(ParseError::UnclosedParen);

    assert_eq!(parse(&tokens), expected);
}

#[test]
fn parse_unknown_column_nested_inside_parens_and_and_fails() {
    let tokens = vec![
        Token::Word("level".into()),
        Token::Eq,
        Token::StringLit("ERROR".into()),
        Token::Word("AND".into()),
        Token::LParen,
        Token::Word("frobnicate".into()),
        Token::Eq,
        Token::StringLit("x".into()),
        Token::RParen,
    ];

    let expected = Err(ParseError::UnknownColumn("frobnicate".into()));

    assert_eq!(parse(&tokens), expected);
}

fn word(w: &str) -> Token {
    Token::Word(w.into())
}

fn lit(v: &str) -> Token {
    Token::StringLit(v.into())
}

fn cmp_query(column: Column, op: Op, value: &str) -> Query {
    Query::Comparison(Comparison {
        column,
        op,
        value: value.into(),
    })
}

#[test]
fn and_binds_tighter_than_or() {
    let tokens = vec![
        word("level"), Token::Eq, lit("A"),
        word("OR"),
        word("source"), Token::Eq, lit("b"),
        word("AND"),
        word("message"), word("CONTAINS"), lit("c"),
    ];
    let expected = Ok(Query::Or(
        Box::new(cmp_query(Column::Level, Op::Eq, "A")),
        Box::new(Query::And(
            Box::new(cmp_query(Column::Source, Op::Eq, "b")),
            Box::new(cmp_query(Column::Message, Op::Contains, "c")),
        )),
    ));
    assert_eq!(parse(&tokens), expected);
}

#[test]
fn or_groups_to_the_left() {
    let tokens = vec![
        word("level"), Token::Eq, lit("A"),
        word("OR"),
        word("level"), Token::Eq, lit("B"),
        word("OR"),
        word("level"), Token::Eq, lit("C"),
    ];
    let expected = Ok(Query::Or(
        Box::new(Query::Or(
            Box::new(cmp_query(Column::Level, Op::Eq, "A")),
            Box::new(cmp_query(Column::Level, Op::Eq, "B")),
        )),
        Box::new(cmp_query(Column::Level, Op::Eq, "C")),
    ));
    assert_eq!(parse(&tokens), expected);
}

#[test]
fn not_binds_tighter_than_and() {
    let tokens = vec![
        word("NOT"), word("NOT"), word("level"), Token::Eq, lit("A"),
        word("AND"),
        word("source"), Token::Ne, lit("b"),
    ];
    let expected = Ok(Query::And(
        Box::new(Query::Not(Box::new(Query::Not(Box::new(cmp_query(
            Column::Level,
            Op::Eq,
            "A",
        )))))),
        Box::new(cmp_query(Column::Source, Op::Ne, "b")),
    ));
    assert_eq!(parse(&tokens), expected);
}

#[test]
fn empty_token_stream_expects_a_column() {
    assert_eq!(parse(&[]), Err(ParseError::ExpectedColumn));
}

#[test]
fn non_word_in_column_position_expects_a_column() {
    let tokens = vec![lit("level"), Token::Eq, lit("A")];
    assert_eq!(parse(&tokens), Err(ParseError::ExpectedColumn));
    let dangling = vec![word("level"), Token::Eq, lit("A"), word("AND")];
    assert_eq!(parse(&dangling), Err(ParseError::ExpectedColumn));
}

#[test]
fn missing_or_wrong_operator_is_reported() {
    assert_eq!(parse(&[word("level")]), Err(ParseError::ExpectedOperator));
    let tokens = vec![word("level"), lit("A")];
    assert_eq!(parse(&tokens), Err(ParseError::ExpectedOperator));
    let tokens = vec![word("message"), word("HAS"), lit("A")];
    assert_eq!(parse(&tokens), Err(ParseError::ExpectedOperator));
}

#[test]
fn non_string_operand_is_reported() {
    let tokens = vec![word("level"), Token::Eq, word("ERROR")];
    assert_eq!(parse(&tokens), Err(ParseError::ExpectedOperand));
}

#[test]
fn contains_is_only_for_message_and_ordering_only_for_timestamp() {
    let tokens = vec![word("level"), word("CONTAINS"), lit("E")];
    assert_eq!(
        parse(&tokens),
        Err(ParseError::InvalidOperatorForColumn { column: Column::Level, op: Op::Contains })
    );
    let tokens = vec![word("message"), Token::Eq, lit("x")];
    assert_eq!(
        parse(&tokens),
        Err(ParseError::InvalidOperatorForColumn { column: Column::Message, op: Op::Eq })
    );
    let tokens = vec![word("timestamp"), Token::Ne, lit("x")];
    assert_eq!(
        parse(&tokens),
        Err(ParseError::InvalidOperatorForColumn { column: Column::Timestamp, op: Op::Ne })
    );
}

#[test]
fn unknown_column_is_reported_before_a_bad_operator() {
    let tokens = vec![word("Level"), Token::Gt];
    assert_eq!(parse(&tokens), Err(ParseError::UnknownColumn("Level".into())));
}

#[test]
fn paren_followed_by_other_token_is_unclosed() {
    let tokens = vec![Token::LParen, word("level"), Token::Eq, lit("A"), Token::LParen];
    assert_eq!(parse(&tokens), Err(ParseError::UnclosedParen));
}

#[test]
fn stray_closing_paren_is_trailing_garbage() {
    let tokens = vec![word("level"), Token::Eq, lit("A"), Token::RParen];
    assert_eq!(parse(&tokens), Err(ParseError::TrailingGarbage));
}

#[test]
fn written_query_parses_back_to_itself() {
    let text = "(level = \"ERROR\" AND NOT (source = \"db\" OR message CONTAINS \"x\")) OR timestamp <= \"2021-02-09T11:40:59Z\"";
    let tokens = tokenize(text).unwrap();
    let expected = Query::Or(
        Box::new(Query::And(
            Box::new(cmp_query(Column::Level, Op::Eq, "ERROR")),
            Box::new(Query::Not(Box::new(Query::Or(
                Box::new(cmp_query(Column::Source, Op::Eq, "db")),
                Box::new(cmp_query(Column::Message, Op::Contains, "x")),
            )))),
        )),
        Box::new(cmp_query(Column::Timestamp, Op::Lte, "2021-02-09T11:40:59Z")),
    );
    assert_eq!(parse(&tokens), Ok(expected));
}

#[test]
fn parentheses_add_no_node_and_not_wraps() {
    let inner = vec![
        word("level"), Token::Eq, lit("A"),
        word("OR"),
        word("source"), Token::Eq, lit("b"),
    ];
    let q = parse(&inner).unwrap();
    let mut paren = vec![Token::LParen];
    paren.extend(tokenize("level = \"A\" OR source = \"b\"").unwrap());
    paren.push(Token::RParen);
    assert_eq!(parse(&paren), Ok(q));
    let mut negated = vec![word("NOT")];
    negated.extend(paren);
    let q = parse(&inner).unwrap();
    assert_eq!(parse(&negated), Ok(Query::Not(Box::new(q))));
}

#[test]
fn flat_and_or_lists_follow_precedence() {
    let a = || vec![word("level"), Token::Eq, lit("A")];
    let b = || vec![word("source"), Token::Ne, lit("b")];
    let c = || vec![word("timestamp"), Token::Gt, lit("c")];
    let qa = || cmp_query(Column::Level, Op::Eq, "A");
    let qb = || cmp_query(Column::Source, Op::Ne, "b");
    let qc = || cmp_query(Column::Timestamp, Op::Gt, "c");
    let join = |parts: Vec<Vec<Token>>| parts.into_iter().flatten().collect::<Vec<Token>>();
    assert_eq!(
        parse(&join(vec![a(), vec![word("AND")], b(), vec![word("OR")], c()])),
        Ok(Query::Or(Box::new(Query::And(Box::new(qa()), Box::new(qb()))), Box::new(qc())))
    );
    assert_eq!(
        parse(&join(vec![a(), vec![word("OR")], b(), vec![word("AND")], c()])),
        Ok(Query::Or(Box::new(qa()), Box::new(Query::And(Box::new(qb()), Box::new(qc())))))
    );
    assert_eq!(
        parse(&join(vec![a(), vec![word("OR")], b(), vec![word("OR")], c()])),
        Ok(Query::Or(Box::new(Query::Or(Box::new(qa()), Box::new(qb()))), Box::new(qc())))
    );
}

#[test]
fn advance_moves_one_token_and_stops_at_the_end() {
    let tokens = vec![word("level"), Token::Eq];
    let mut p = Parser::new(&tokens);
    assert_eq!(p.peek(), Some(&tokens[0]));
    assert_eq!(p.advance(), Some(&tokens[0]));
    assert_eq!(p.pos, 1);
    assert_eq!(p.advance(), Some(&tokens[1]));
    assert_eq!(p.pos, 2);
    assert_eq!(p.advance(), None);
    assert_eq!(p.pos, 2);
    assert_eq!(p.peek(), None);
}
