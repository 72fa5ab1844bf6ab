use cli_log_file_analyzer::token::{tokenize, Token, TokenizeError};

#[test]
fn single_word_tokenizes_to_word() {
    assert_eq!(
        tokenize("timestamp"),
        Ok(vec![Token::Word("timestamp".to_string())])
    );
}

#[test]
fn whitespace_between_words_is_skipped() {
    assert_eq!(
        tokenize("timestamp level"),
        Ok(vec![
            Token::Word("timestamp".to_string()),
            Token::Word("level".to_string())
        ])
    );
}

#[test]
fn unrecognized_characters_is_an_error() {
    assert_eq!(tokenize("#"), Err(TokenizeError::Unexpected('#')));
}

#[test]
fn equals_sign_tokenizes_to_eq() {
    assert_eq!(tokenize("="), Ok(vec![Token::Eq]));
}

#[test]
fn not_equals_tokenizes_to_ne() {
    assert_eq!(tokenize("!="), Ok(vec![Token::Ne]));
}

#[test]
fn bare_exclamation_is_an_error() {
    assert_eq!(tokenize("!"), Err(TokenizeError::Unexpected('!')));
}

#[test]
fn greater_than_tokenizes_to_gt() {
    assert_eq!(tokenize(">"), Ok(vec![Token::Gt]));
}

#[test]
fn greater_than_or_equal_tokenizes_to_gte() {
    assert_eq!(tokenize(">="), Ok(vec![Token::Gte]));
}

#[test]
fn less_than_tokenizes_to_lt() {
    assert_eq!(tokenize("<"), Ok(vec![Token::Lt]));
}

#[test]
fn less_than_or_equal_tokenizes_to_lte() {
    assert_eq!(tokenize("<="), Ok(vec![Token::Lte]));
}

#[test]
fn left_paren_tokenizes_to_lparen() {
    assert_eq!(tokenize("("), Ok(vec![Token::LParen]));
}

#[test]
fn right_paren_tokenizes_to_rparen() {
    assert_eq!(tokenize(")"), Ok(vec![Token::RParen]));
}

#[test]
fn quoted_string_tokenizes_to_string_lit() {
    assert_eq!(
        tokenize("\"foo\""),
        Ok(vec![Token::StringLit("foo".to_string())])
    );
}

#[test]
fn unterminated_string_is_an_error() {
    assert_eq!(tokenize("\"foo"), Err(TokenizeError::UnterminatedString));
}

#[test]
fn full_query_tokenizes_in_order() {
    assert_eq!(
        tokenize("(level=\"ERROR\" OR timestamp>=\"2021-02-09T11:40:59Z\") AND NOT message CONTAINS \"a b\""),
        Ok(vec![
            Token::LParen,
            Token::Word("level".to_string()),
            Token::Eq,
            Token::StringLit("ERROR".to_string()),
            Token::Word("OR".to_string()),
            Token::Word("timestamp".to_string()),
            Token::Gte,
            Token::StringLit("2021-02-09T11:40:59Z".to_string()),
            Token::RParen,
            Token::Word("AND".to_string()),
            Token::Word("NOT".to_string()),
            Token::Word("message".to_string()),
            Token::Word("CONTAINS".to_string()),
            Token::StringLit("a b".to_string()),
        ])
    );
}

#[test]
fn word_stops_at_first_non_letter() {
    assert_eq!(tokenize("abc1"), Err(TokenizeError::Unexpected('1')));
    assert_eq!(
        tokenize("ab(c"),
        Ok(vec![
            Token::Word("ab".to_string()),
            Token::LParen,
            Token::Word("c".to_string())
        ])
    );
}

#[test]
fn non_ascii_letters_belong_to_words() {
    assert_eq!(
        tokenize("café niño"),
        Ok(vec![
            Token::Word("café".to_string()),
            Token::Word("niño".to_string())
        ])
    );
}

#[test]
fn tabs_and_newlines_are_whitespace() {
    assert_eq!(
        tokenize("\tlevel\n=\r\n\"x\"  "),
        Ok(vec![
            Token::Word("level".to_string()),
            Token::Eq,
            Token::StringLit("x".to_string())
        ])
    );
}

#[test]
fn empty_and_blank_queries_give_no_tokens() {
    assert_eq!(tokenize(""), Ok(vec![]));
    assert_eq!(tokenize("   "), Ok(vec![]));
}

#[test]
fn string_literal_keeps_spaces_and_specials() {
    assert_eq!(
        tokenize("\"a = (b) != c\""),
        Ok(vec![Token::StringLit("a = (b) != c".to_string())])
    );
    assert_eq!(tokenize("\"\""), Ok(vec![Token::StringLit(String::new())]));
}

#[test]
fn exclamation_before_other_char_is_an_error() {
    assert_eq!(tokenize("!<"), Err(TokenizeError::Unexpected('!')));
    assert_eq!(tokenize("> ="), Ok(vec![Token::Gt, Token::Eq]));
}

#[test]
fn first_error_wins() {
    assert_eq!(tokenize("level # \"open"), Err(TokenizeError::Unexpected('#')));
    assert_eq!(tokenize("level \"open #"), Err(TokenizeError::UnterminatedString));
}

#[test]
fn keywords_and_unknown_words_are_all_words() {
    assert_eq!(
        tokenize("AND frobnicate CONTAINS"),
        Ok(vec![
            Token::Word("AND".to_string()),
            Token::Word("frobnicate".to_string()),
            Token::Word("CONTAINS".to_string())
        ])
    );
}

#[test]
fn whitespace_between_texts_joins_their_tokens() {
    let a = "level>";
    let b = "=\"x\"";
    let joined = format!("{a} \u{3000}\t{b}");
    let mut expected = tokenize(a).unwrap();
    expected.extend(tokenize(b).unwrap());
    assert_eq!(tokenize(&joined), Ok(expected));
    assert_eq!(tokenize(" \n level "), tokenize("level"));
}

#[test]
fn first_character_that_starts_no_token_is_reported() {
    assert_eq!(tokenize("level = \"a#b\" # \"unclosed"), Err(TokenizeError::Unexpected('#')));
    assert_eq!(tokenize("level != \"x\" !> 1"), Err(TokenizeError::Unexpected('!')));
    assert_eq!(tokenize("level 7"), Err(TokenizeError::Unexpected('7')));
}

#[test]
fn written_tokens_read_back() {
    let tokens = vec![
        Token::LParen,
        Token::Word("NOT".to_string()),
        Token::Word("léVel".to_string()),
        Token::Gt,
        Token::Eq,
        Token::StringLit("a (b) = c".to_string()),
        Token::Ne,
        Token::Gte,
        Token::Lt,
        Token::Lte,
        Token::StringLit(String::new()),
        Token::RParen,
    ];
    let text = "( NOT léVel > = \"a (b) = c\" != >= < <= \"\" )";
    assert_eq!(tokenize(text), Ok(tokens));
}
