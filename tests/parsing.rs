use funk_lang::{
    parse_source, BinOp, CondKind, DeclType, LexError, Lexer, ParseError, Parser, SyntaxError,
    TokenType, AST,
};

fn parse(src: &str) -> Result<Vec<AST>, SyntaxError> {
    parse_source(String::from(src))
}

fn int_value(a: &AST) -> i64 {
    match a {
        AST::IntegerLiteral(v) => *v,
        other => panic!("not an integer literal: {:?}", other),
    }
}

fn binary(a: &AST) -> (&AST, BinOp, &AST) {
    match a {
        AST::Binary { left, op, right } => (left, *op, right),
        other => panic!("not a binary node: {:?}", other),
    }
}

fn ident(a: &AST) -> &str {
    match a {
        AST::Identifier(n) => n.as_str(),
        other => panic!("not an identifier: {:?}", other),
    }
}

#[test]
fn subtraction_groups_to_the_right() {
    let prog = parse("1 - 2 - 3").unwrap();
    assert_eq!(prog.len(), 1);
    let (l, op, r) = binary(&prog[0]);
    assert_eq!(int_value(l), 1);
    assert_eq!(op, BinOp::Sub);
    let (rl, rop, rr) = binary(r);
    assert_eq!((int_value(rl), rop, int_value(rr)), (2, BinOp::Sub, 3));
}

#[test]
fn multiplication_binds_tighter() {
    let prog = parse("1 + 2 * 3").unwrap();
    let (l, op, r) = binary(&prog[0]);
    assert_eq!((int_value(l), op), (1, BinOp::Add));
    let (rl, rop, rr) = binary(r);
    assert_eq!((int_value(rl), rop, int_value(rr)), (2, BinOp::Mul, 3));
    let prog = parse("2 * 3 + 1").unwrap();
    let (l, op, r) = binary(&prog[0]);
    assert_eq!((op, int_value(r)), (BinOp::Add, 1));
    let (ll, lop, lr) = binary(l);
    assert_eq!((int_value(ll), lop, int_value(lr)), (2, BinOp::Mul, 3));
}

#[test]
fn parentheses_and_equality() {
    let prog = parse("(1 + 2) / x == y").unwrap();
    let (l, op, r) = binary(&prog[0]);
    assert_eq!((op, ident(r)), (BinOp::Eq, "y"));
    let (ll, lop, lr) = binary(l);
    assert_eq!((lop, ident(lr)), (BinOp::Div, "x"));
    let (a, aop, b) = binary(ll);
    assert_eq!((int_value(a), aop, int_value(b)), (1, BinOp::Add, 2));
}

#[test]
fn declaration_scenario() {
    let prog = parse("Integer x = 5;").unwrap();
    assert_eq!(prog.len(), 1);
    match &prog[0] {
        AST::Assignment { name, declared_type, value } => {
            assert_eq!(name, "x");
            assert_eq!(*declared_type, DeclType::Integer);
            assert_eq!(int_value(value), 5);
        },
        other => panic!("unexpected {:?}", other),
    }
}

#[test]
fn function_scenario() {
    let prog = parse("funk Integer add(Integer a, Integer b) { Integer c = a + b }").unwrap();
    assert_eq!(prog.len(), 1);
    match &prog[0] {
        AST::FunctionDecl { name, return_type, params, body } => {
            assert_eq!(name, "add");
            assert_eq!(*return_type, DeclType::Integer);
            assert_eq!(params.len(), 2);
            for (p, want) in params.iter().zip(["a", "b"]) {
                match p {
                    AST::Parameter { name, declared_type } => {
                        assert_eq!(name, want);
                        assert_eq!(*declared_type, DeclType::Integer);
                    },
                    other => panic!("unexpected {:?}", other),
                }
            }
            assert_eq!(body.len(), 1);
            match &body[0] {
                AST::Assignment { name, declared_type, value } => {
                    assert_eq!(name, "c");
                    assert_eq!(*declared_type, DeclType::Integer);
                    let (l, op, r) = binary(value);
                    assert_eq!((ident(l), op, ident(r)), ("a", BinOp::Add, "b"));
                },
                other => panic!("unexpected {:?}", other),
            }
        },
        other => panic!("unexpected {:?}", other),
    }
}

#[test]
fn conditional_chain_scenario() {
    let prog = parse("if x == 1 { } elseif x == 2 { } else { }").unwrap();
    assert_eq!(prog.len(), 1);
    let (kind, cond, body, alt) = match &prog[0] {
        AST::Conditional { kind, condition, body, alternative } => (kind, condition, body, alternative),
        other => panic!("unexpected {:?}", other),
    };
    assert_eq!(*kind, CondKind::If);
    let (l, op, r) = binary(cond.as_ref().unwrap());
    assert_eq!((ident(l), op, int_value(r)), ("x", BinOp::Eq, 1));
    assert!(body.is_empty());
    match alt.as_deref().unwrap() {
        AST::Conditional { kind, condition, alternative, .. } => {
            assert_eq!(*kind, CondKind::ElseIf);
            let (_, _, r) = binary(condition.as_ref().unwrap());
            assert_eq!(int_value(r), 2);
            match alternative.as_deref().unwrap() {
                AST::Conditional { kind, condition, body, alternative } => {
                    assert_eq!(*kind, CondKind::Else);
                    assert!(condition.is_none());
                    assert!(body.is_empty());
                    assert!(alternative.is_none());
                },
                other => panic!("unexpected {:?}", other),
            }
        },
        other => panic!("unexpected {:?}", other),
    }
}

#[test]
fn fatal_error_scenarios() {
    assert!(matches!(
        parse("3.1.4"),
        Err(SyntaxError::Lex(LexError::MalformedNumber { line: 1 }))
    ));
    assert!(matches!(
        parse("\"abc"),
        Err(SyntaxError::Lex(LexError::UnterminatedString { line: 1 }))
    ));
    assert!(matches!(parse("funk Integer f("), Err(SyntaxError::Parse(ParseError::UnexpectedEnd))));
}

#[test]
fn unexpected_token_reports_line_and_category() {
    assert!(matches!(
        parse("Integer x = 5;\nInteger = 3"),
        Err(SyntaxError::Parse(ParseError::UnexpectedToken { line: 2, found: TokenType::Equals }))
    ));
    assert!(matches!(
        parse("Integer x = 1 2"),
        Err(SyntaxError::Parse(ParseError::UnexpectedToken {
            line: 1,
            found: TokenType::Literal(_)
        }))
    ));
    assert!(matches!(
        parse(")"),
        Err(SyntaxError::Parse(ParseError::UnexpectedToken { line: 1, found: TokenType::RParen }))
    ));
}

#[test]
fn keyword_without_rule_is_rejected() {
    assert!(matches!(
        parse("else { }"),
        Err(SyntaxError::Parse(ParseError::UnhandledKeyword { line: 1, .. }))
    ));
}

#[test]
fn integer_literal_out_of_range_is_rejected() {
    assert!(matches!(
        parse("9223372036854775808"),
        Err(SyntaxError::Parse(ParseError::InvalidNumber { line: 1 }))
    ));
    let prog = parse("9223372036854775807").unwrap();
    assert_eq!(int_value(&prog[0]), i64::MAX);
}

#[test]
fn decimal_and_string_literals() {
    let prog = parse("Decimal d = 2.50\nString s = \"a\\nb\\\"c\\d\"").unwrap();
    assert_eq!(prog.len(), 2);
    match &prog[0] {
        AST::Assignment { declared_type, value, .. } => {
            assert_eq!(*declared_type, DeclType::Decimal);
            match value.as_ref() {
                AST::DecimalLiteral(t) => assert_eq!(t, "2.50"),
                other => panic!("unexpected {:?}", other),
            }
        },
        other => panic!("unexpected {:?}", other),
    }
    match &prog[1] {
        AST::Assignment { value, .. } => match value.as_ref() {
            AST::StringLiteral(t) => assert_eq!(t, "a\\nb\"cd"),
            other => panic!("unexpected {:?}", other),
        },
        other => panic!("unexpected {:?}", other),
    }
}

#[test]
fn calls_with_arguments() {
    let prog = parse("print(x, 1 + 2)\nf()").unwrap();
    assert_eq!(prog.len(), 2);
    match &prog[0] {
        AST::Call { name, args } => {
            assert_eq!(name, "print");
            assert_eq!(args.len(), 2);
            assert_eq!(ident(&args[0]), "x");
            let (l, op, r) = binary(&args[1]);
            assert_eq!((int_value(l), op, int_value(r)), (1, BinOp::Add, 2));
        },
        other => panic!("unexpected {:?}", other),
    }
    match &prog[1] {
        AST::Call { name, args } => {
            assert_eq!(name, "f");
            assert!(args.is_empty());
        },
        other => panic!("unexpected {:?}", other),
    }
}

#[test]
fn newlines_separate_statements() {
    let prog = parse("\n\nBoolean b = x\n\nInteger y = 2;\n").unwrap();
    assert_eq!(prog.len(), 2);
    match &prog[0] {
        AST::Assignment { name, declared_type, value } => {
            assert_eq!(name, "b");
            assert_eq!(*declared_type, DeclType::Boolean);
            assert_eq!(ident(value), "x");
        },
        other => panic!("unexpected {:?}", other),
    }
}

#[test]
fn function_body_with_nested_conditional() {
    let src = "funk String f() {\n  if a { String s = \"y\" }\n  g(a)\n}\n";
    let prog = parse(src).unwrap();
    match &prog[0] {
        AST::FunctionDecl { name, return_type, params, body } => {
            assert_eq!(name, "f");
            assert_eq!(*return_type, DeclType::String);
            assert!(params.is_empty());
            assert_eq!(body.len(), 2);
            assert!(matches!(&body[0], AST::Conditional { kind: CondKind::If, .. }));
            assert!(matches!(&body[1], AST::Call { .. }));
        },
        other => panic!("unexpected {:?}", other),
    }
}

#[test]
fn unclosed_body_runs_out_of_tokens() {
    assert!(matches!(
        parse("if x { Integer y = 1"),
        Err(SyntaxError::Parse(ParseError::UnexpectedEnd))
    ));
}

#[test]
fn parser_over_lexer_tokens() {
    let code = String::from("Integer x = 5;");
    let tokens = Lexer::new(code.clone()).lex().unwrap();
    let mut parser = Parser::new(tokens, &code);
    let prog = parser.parse().unwrap();
    assert_eq!(prog.len(), 1);
    assert!(matches!(&prog[0], AST::Assignment { .. }));
}

#[test]
fn cursor_shows_current_and_next_token() {
    let code = String::from("a b");
    let tokens = Lexer::new(code.clone()).lex().unwrap();
    let mut parser = Parser::new(tokens, &code);
    assert_eq!(parser.current_token().map(|t| t.start), Some(0));
    assert_eq!(parser.next_token().map(|t| t.start), Some(2));
    parser.pos = 1;
    assert_eq!(parser.current_token().map(|t| t.start), Some(2));
    assert_eq!(parser.next_token(), None);
    parser.pos = 2;
    assert_eq!(parser.current_token(), None);
}
