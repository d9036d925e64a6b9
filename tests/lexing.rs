use funk_lang::{KeywordKind, LexError, Lexer, LiteralKind, Token, TokenType};

fn lex(src: &str) -> Result<Vec<Token>, LexError> {
    Lexer::new(String::from(src)).lex()
}

fn types(src: &str) -> Vec<TokenType> {
    lex(src).unwrap().iter().map(|t| t.ty).collect()
}

#[test]
fn punctuation_tokens() {
    assert_eq!(
        types("( ) { } [ ] , ;"),
        vec![
            TokenType::LParen,
            TokenType::RParen,
            TokenType::LBrace,
            TokenType::RBrace,
            TokenType::LBracket,
            TokenType::RBracket,
            TokenType::Comma,
            TokenType::Semicolon,
        ]
    );
}

#[test]
fn empty_source_has_no_tokens() {
    assert_eq!(lex("").unwrap(), vec![]);
    assert_eq!(lex("   \t ").unwrap(), vec![]);
}

#[test]
fn declaration_tokens_and_ranges() {
    let toks = lex("Integer x = 5;").unwrap();
    assert_eq!(
        toks,
        vec![
            Token { ty: TokenType::Keyword(KeywordKind::Integer), line: 1, start: 0, end: 7 },
            Token { ty: TokenType::Identifier, line: 1, start: 8, end: 9 },
            Token { ty: TokenType::Equals, line: 1, start: 10, end: 11 },
            Token { ty: TokenType::Literal(LiteralKind::Number), line: 1, start: 12, end: 13 },
            Token { ty: TokenType::Semicolon, line: 1, start: 13, end: 14 },
        ]
    );
}

#[test]
fn keywords_are_recognised() {
    assert_eq!(
        types("Integer Decimal Boolean String funk if elseif else iff"),
        vec![
            TokenType::Keyword(KeywordKind::Integer),
            TokenType::Keyword(KeywordKind::Decimal),
            TokenType::Keyword(KeywordKind::Boolean),
            TokenType::Keyword(KeywordKind::String),
            TokenType::Keyword(KeywordKind::Funk),
            TokenType::Keyword(KeywordKind::If),
            TokenType::Keyword(KeywordKind::ElseIf),
            TokenType::Keyword(KeywordKind::Else),
            TokenType::Identifier,
        ]
    );
}

#[test]
fn identifiers_take_letters_digits_and_underscores() {
    let toks = lex("_a1b2 élan x").unwrap();
    assert_eq!(toks[0], Token { ty: TokenType::Identifier, line: 1, start: 0, end: 5 });
    assert_eq!(toks[1], Token { ty: TokenType::Identifier, line: 1, start: 6, end: 10 });
    assert_eq!(toks[2], Token { ty: TokenType::Identifier, line: 1, start: 11, end: 12 });
}

#[test]
fn operators_longest_match() {
    assert_eq!(
        types("+ - * / = =="),
        vec![
            TokenType::Plus,
            TokenType::Minus,
            TokenType::Star,
            TokenType::Slash,
            TokenType::Equals,
            TokenType::EqualsEquals,
        ]
    );
    let toks = lex("a==b").unwrap();
    assert_eq!(toks[1], Token { ty: TokenType::EqualsEquals, line: 1, start: 1, end: 3 });
}

#[test]
fn unknown_operator_sequence_is_fatal() {
    assert_eq!(lex("1 +- 2"), Err(LexError::UnknownOperator { line: 1 }));
    assert_eq!(lex("a === b"), Err(LexError::UnknownOperator { line: 1 }));
}

#[test]
fn unknown_characters_become_unknown_tokens() {
    let toks = lex("a # b").unwrap();
    assert_eq!(toks[1], Token { ty: TokenType::Unknown, line: 1, start: 2, end: 3 });
    assert_eq!(toks.len(), 3);
}

#[test]
fn numbers_with_one_dot() {
    let toks = lex("3.14 42 7.").unwrap();
    assert_eq!(toks[0], Token { ty: TokenType::Literal(LiteralKind::Number), line: 1, start: 0, end: 4 });
    assert_eq!(toks[1], Token { ty: TokenType::Literal(LiteralKind::Number), line: 1, start: 5, end: 7 });
    assert_eq!(toks[2], Token { ty: TokenType::Literal(LiteralKind::Number), line: 1, start: 8, end: 10 });
}

#[test]
fn malformed_number_is_fatal() {
    assert_eq!(lex("3.1.4"), Err(LexError::MalformedNumber { line: 1 }));
    assert_eq!(lex("\n\n1..2"), Err(LexError::MalformedNumber { line: 3 }));
}

#[test]
fn unterminated_string_is_fatal() {
    assert_eq!(lex("\"abc"), Err(LexError::UnterminatedString { line: 1 }));
    assert_eq!(lex("\"abc\\"), Err(LexError::UnterminatedString { line: 1 }));
    assert_eq!(lex("x\n\"abc\\\""), Err(LexError::UnterminatedString { line: 2 }));
}

#[test]
fn string_token_spans_both_quotes() {
    let toks = lex("x = \"a b\" y").unwrap();
    assert_eq!(toks[2], Token { ty: TokenType::Literal(LiteralKind::String), line: 1, start: 4, end: 9 });
    assert_eq!(toks[3], Token { ty: TokenType::Identifier, line: 1, start: 10, end: 11 });
}

#[test]
fn newlines_are_tokens_and_count_lines() {
    let toks = lex("a\nb\n\nc").unwrap();
    assert_eq!(
        toks,
        vec![
            Token { ty: TokenType::Identifier, line: 1, start: 0, end: 1 },
            Token { ty: TokenType::Newline, line: 1, start: 1, end: 2 },
            Token { ty: TokenType::Identifier, line: 2, start: 2, end: 3 },
            Token { ty: TokenType::Newline, line: 2, start: 3, end: 4 },
            Token { ty: TokenType::Newline, line: 3, start: 4, end: 5 },
            Token { ty: TokenType::Identifier, line: 4, start: 5, end: 6 },
        ]
    );
}

#[test]
fn escaped_newline_in_string_advances_line() {
    let toks = lex("\"a\\nb\" c").unwrap();
    assert_eq!(toks[0], Token { ty: TokenType::Literal(LiteralKind::String), line: 1, start: 0, end: 6 });
    assert_eq!(toks[1], Token { ty: TokenType::Identifier, line: 2, start: 7, end: 8 });
}

#[test]
fn lexing_resumes_from_lexer_state() {
    let mut lexer = Lexer { code: String::from("ab cd"), pos: 3, line: 5 };
    assert_eq!(
        lexer.lex().unwrap(),
        vec![Token { ty: TokenType::Identifier, line: 5, start: 3, end: 5 }]
    );
}

#[test]
fn retokenizing_a_token_span_gives_the_same_token() {
    let src = "funk Integer f(a) { x == \"s\\\"t\" + 12.5 }\n#";
    let chars: Vec<char> = src.chars().collect();
    for t in lex(src).unwrap() {
        let piece: String = chars[t.start..t.end].iter().collect();
        let again = lex(&piece).unwrap();
        assert_eq!(again, vec![Token { ty: t.ty, line: 1, start: 0, end: t.end - t.start }]);
    }
}

#[test]
fn identifier_and_literal_slices_round_trip() {
    let src = "Integer total = count + 42 * \"x\"";
    let chars: Vec<char> = src.chars().collect();
    let slices: Vec<String> = lex(src)
        .unwrap()
        .iter()
        .filter(|t| matches!(t.ty, TokenType::Identifier | TokenType::Literal(_)))
        .map(|t| chars[t.start..t.end].iter().collect())
        .collect();
    assert_eq!(slices, vec!["total", "count", "42", "\"x\""]);
}
