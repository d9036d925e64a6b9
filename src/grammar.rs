use vstd::prelude::*;

use crate::ast::{BinOp, CondKind, DeclType, Node};
use crate::token::{is_digit, KeywordKind, LiteralKind, Token, TokenType};

verus! {

/// Why parsing stopped.
#[derive(Clone, Copy, Debug, PartialEq, Eq, Structural)]
pub enum ParseError {
    /// The tokens ran out inside an open construct.
    UnexpectedEnd,
    /// A token that the construct being parsed does not accept here.
    UnexpectedToken { line: usize, found: TokenType },
    /// A reserved word that starts no statement.
    UnhandledKeyword { line: usize, keyword: KeywordKind },
    /// A number literal that is not an integer in `i64` nor a decimal.
    InvalidNumber { line: usize },
}

/// Tokens left from position `p` on.
pub open spec fn left(toks: Seq<Token>, p: int) -> nat {
    if 0 <= p < toks.len() {
        (toks.len() - p) as nat
    } else {
        0
    }
}

pub open spec fn has_ty(toks: Seq<Token>, p: int, ty: TokenType) -> bool {
    0 <= p < toks.len() && toks[p].ty == ty
}

pub open spec fn unexpected(t: Token) -> ParseError {
    ParseError::UnexpectedToken { line: t.line, found: t.ty }
}

/// The check that token `p` has category `ty`.
pub open spec fn expect_at(toks: Seq<Token>, p: int, ty: TokenType) -> Result<(), ParseError> {
    if p < 0 || p >= toks.len() {
        Err(ParseError::UnexpectedEnd)
    } else if toks[p].ty == ty {
        Ok(())
    } else {
        Err(unexpected(toks[p]))
    }
}

pub open spec fn decl_type_of(ty: TokenType) -> Option<DeclType> {
    match ty {
        TokenType::Keyword(KeywordKind::Integer) => Some(DeclType::Integer),
        TokenType::Keyword(KeywordKind::Decimal) => Some(DeclType::Decimal),
        TokenType::Keyword(KeywordKind::String) => Some(DeclType::String),
        TokenType::Keyword(KeywordKind::Boolean) => Some(DeclType::Boolean),
        _ => None,
    }
}

pub open spec fn add_op(toks: Seq<Token>, p: int) -> Option<BinOp> {
    if 0 <= p < toks.len() {
        match toks[p].ty {
            TokenType::Plus => Some(BinOp::Add),
            TokenType::Minus => Some(BinOp::Sub),
            TokenType::EqualsEquals => Some(BinOp::Eq),
            _ => None,
        }
    } else {
        None
    }
}

pub open spec fn mul_op(toks: Seq<Token>, p: int) -> Option<BinOp> {
    if 0 <= p < toks.len() {
        match toks[p].ty {
            TokenType::Star => Some(BinOp::Mul),
            TokenType::Slash => Some(BinOp::Div),
            _ => None,
        }
    } else {
        None
    }
}

/// Whether token `p` continues a conditional chain (`elseif` or `else`).
pub open spec fn chains_at(toks: Seq<Token>, p: int) -> bool {
    has_ty(toks, p, TokenType::Keyword(KeywordKind::ElseIf)) || has_ty(
        toks,
        p,
        TokenType::Keyword(KeywordKind::Else),
    )
}

/// The source text a token spans.
pub open spec fn text(src: Seq<char>, t: Token) -> Seq<char> {
    src.subrange(t.start as int, t.end as int)
}

/// The characters between the quotes of a string literal token.
pub open spec fn string_body(src: Seq<char>, t: Token) -> Seq<char> {
    src.subrange(t.start + 1, t.end - 1)
}

/// A string literal's value: a backslash drops out and keeps the character
/// after it, except that the escape `\n` stays as the two characters `\n`.
pub open spec fn unescape(s: Seq<char>) -> Seq<char>
    decreases s.len(),
{
    if s.len() == 0 {
        seq![]
    } else if s[0] == '\\' && s.len() >= 2 {
        if s[1] == 'n' {
            seq!['\\', 'n'] + unescape(s.skip(2))
        } else {
            seq![s[1]] + unescape(s.skip(2))
        }
    } else {
        seq![s[0]] + unescape(s.skip(1))
    }
}

pub open spec fn digits_value(t: Seq<char>) -> int
    decreases t.len(),
{
    if t.len() == 0 {
        0
    } else {
        digits_value(t.drop_last()) * 10 + (t.last() as int - '0' as int)
    }
}

pub open spec fn all_digits(t: Seq<char>) -> bool {
    forall|i: int| 0 <= i < t.len() ==> is_digit(#[trigger] t[i])
}

/// A number literal: a decimal where it holds a dot, else an integer that
/// must fit in `i64`.
pub open spec fn number_node(t: Seq<char>, line: usize) -> Result<Node, ParseError> {
    if t.contains('.') {
        Ok(Node::DecimalLiteral(t))
    } else if all_digits(t) && digits_value(t) <= i64::MAX {
        Ok(Node::IntegerLiteral(digits_value(t)))
    } else {
        Err(ParseError::InvalidNumber { line })
    }
}

/// Each rule below parses from token `p` and gives the node together with
/// `k`, the construct spanning tokens `p ..= p + k`.
pub open spec fn factor_at(toks: Seq<Token>, src: Seq<char>, p: int) -> Result<
    (Node, nat),
    ParseError,
>
    decreases left(toks, p), 0nat,
{
    if p < 0 || p >= toks.len() {
        Err(ParseError::UnexpectedEnd)
    } else {
        let t = toks[p];
        match t.ty {
            TokenType::Literal(LiteralKind::Number) => match number_node(text(src, t), t.line) {
                Ok(n) => Ok((n, 0)),
                Err(e) => Err(e),
            },
            TokenType::Literal(LiteralKind::String) => Ok(
                (Node::StringLiteral(unescape(string_body(src, t))), 0),
            ),
            TokenType::LParen => match expr_at(toks, src, p + 1) {
                Ok((e, k)) => match expect_at(toks, p + k + 2, TokenType::RParen) {
                    Ok(_) => Ok((e, k + 2)),
                    Err(err) => Err(err),
                },
                Err(err) => Err(err),
            },
            TokenType::Identifier => if has_ty(toks, p + 1, TokenType::LParen) {
                match args_at(toks, src, p + 2) {
                    Ok((a, k)) => Ok((Node::Call { name: text(src, t), args: a }, k + 2)),
                    Err(e) => Err(e),
                }
            } else {
                Ok((Node::Identifier(text(src, t)), 0))
            },
            _ => Err(unexpected(t)),
        }
    }
}

/// `Factor ((* | /) Term)?`: the right operand recurses, so chains group to the right.
pub open spec fn term_at(toks: Seq<Token>, src: Seq<char>, p: int) -> Result<
    (Node, nat),
    ParseError,
>
    decreases left(toks, p), 1nat,
{
    if p < 0 || p >= toks.len() {
        Err(ParseError::UnexpectedEnd)
    } else {
        match factor_at(toks, src, p) {
            Ok((l, k)) => match mul_op(toks, p + k + 1) {
                Some(op) => match term_at(toks, src, p + k + 2) {
                    Ok((r, k2)) => Ok(
                        (Node::Binary { left: Box::new(l), op, right: Box::new(r) }, k + k2 + 2),
                    ),
                    Err(e) => Err(e),
                },
                None => Ok((l, k)),
            },
            Err(e) => Err(e),
        }
    }
}

/// `Term ((+ | - | ==) Expression)?`: the right operand recurses, so chains group to the right.
pub open spec fn expr_at(toks: Seq<Token>, src: Seq<char>, p: int) -> Result<
    (Node, nat),
    ParseError,
>
    decreases left(toks, p), 2nat,
{
    if p < 0 || p >= toks.len() {
        Err(ParseError::UnexpectedEnd)
    } else {
        match term_at(toks, src, p) {
            Ok((l, k)) => match add_op(toks, p + k + 1) {
                Some(op) => match expr_at(toks, src, p + k + 2) {
                    Ok((r, k2)) => Ok(
                        (Node::Binary { left: Box::new(l), op, right: Box::new(r) }, k + k2 + 2),
                    ),
                    Err(e) => Err(e),
                },
                None => Ok((l, k)),
            },
            Err(e) => Err(e),
        }
    }
}

pub open spec fn ends_args(ty: TokenType) -> bool {
    ty == TokenType::RParen || ty == TokenType::Newline || ty == TokenType::Semicolon
}

/// Call arguments after the `(`: expressions, each optionally followed by a
/// comma, up to and including a `)`, newline or `;`.
pub open spec fn args_at(toks: Seq<Token>, src: Seq<char>, p: int) -> Result<
    (Seq<Node>, nat),
    ParseError,
>
    decreases left(toks, p), 3nat,
{
    if p < 0 || p >= toks.len() {
        Err(ParseError::UnexpectedEnd)
    } else if ends_args(toks[p].ty) {
        Ok((seq![], 0))
    } else {
        match expr_at(toks, src, p) {
            Ok((e, k)) => {
                let next = if has_ty(toks, p + k + 1, TokenType::Comma) {
                    p + k + 2
                } else {
                    p + k + 1
                };
                match args_at(toks, src, next) {
                    Ok((rest, k2)) => Ok((seq![e] + rest, (next - p + k2) as nat)),
                    Err(err) => Err(err),
                }
            },
            Err(err) => Err(err),
        }
    }
}

/// Parameters after the `(`: a type keyword and a name, each optionally
/// followed by a comma, up to and including the `)`.
pub open spec fn param_items_at(toks: Seq<Token>, src: Seq<char>, p: int) -> Result<
    (Seq<Node>, nat),
    ParseError,
>
    decreases left(toks, p),
{
    if p < 0 || p >= toks.len() {
        Err(ParseError::UnexpectedEnd)
    } else if toks[p].ty == TokenType::RParen {
        Ok((seq![], 0))
    } else {
        match decl_type_of(toks[p].ty) {
            None => Err(unexpected(toks[p])),
            Some(dt) => match expect_at(toks, p + 1, TokenType::Identifier) {
                Err(e) => Err(e),
                Ok(_) => {
                    let next = if has_ty(toks, p + 2, TokenType::Comma) {
                        p + 3
                    } else {
                        p + 2
                    };
                    match param_items_at(toks, src, next) {
                        Ok((rest, k)) => Ok(
                            (
                                seq![
                                    Node::Parameter {
                                        name: text(src, toks[p + 1]),
                                        declared_type: dt,
                                    },
                                ] + rest,
                                (next - p + k) as nat,
                            ),
                        ),
                        Err(e) => Err(e),
                    }
                },
            },
        }
    }
}

/// `( Params )`.
pub open spec fn params_at(toks: Seq<Token>, src: Seq<char>, p: int) -> Result<
    (Seq<Node>, nat),
    ParseError,
> {
    match expect_at(toks, p, TokenType::LParen) {
        Err(e) => Err(e),
        Ok(_) => match param_items_at(toks, src, p + 1) {
            Ok((ps, k)) => Ok((ps, k + 1)),
            Err(e) => Err(e),
        },
    }
}

/// `{ Body }`.
pub open spec fn body_at(toks: Seq<Token>, src: Seq<char>, p: int) -> Result<
    (Seq<Node>, nat),
    ParseError,
>
    decreases left(toks, p), 0nat,
{
    if p < 0 || p >= toks.len() {
        Err(ParseError::UnexpectedEnd)
    } else if toks[p].ty != TokenType::LBrace {
        Err(unexpected(toks[p]))
    } else {
        match body_items_at(toks, src, p + 1) {
            Ok((b, k)) => Ok((b, k + 1)),
            Err(e) => Err(e),
        }
    }
}

/// Statements after the `{`, newlines skipped, up to and including the `}`.
pub open spec fn body_items_at(toks: Seq<Token>, src: Seq<char>, p: int) -> Result<
    (Seq<Node>, nat),
    ParseError,
>
    decreases left(toks, p), 6nat,
{
    if p < 0 || p >= toks.len() {
        Err(ParseError::UnexpectedEnd)
    } else if toks[p].ty == TokenType::Newline {
        match body_items_at(toks, src, p + 1) {
            Ok((b, k)) => Ok((b, k + 1)),
            Err(e) => Err(e),
        }
    } else if toks[p].ty == TokenType::RBrace {
        Ok((seq![], 0))
    } else {
        match top_at(toks, src, p) {
            Ok((n, k)) => match body_items_at(toks, src, p + k + 1) {
                Ok((rest, k2)) => Ok((seq![n] + rest, k + k2 + 1)),
                Err(e) => Err(e),
            },
            Err(e) => Err(e),
        }
    }
}

/// A statement: a declaration when it starts with a type keyword, a function
/// after `funk`, a conditional after `if`, otherwise an expression with an
/// optional `;`.
pub open spec fn top_at(toks: Seq<Token>, src: Seq<char>, p: int) -> Result<
    (Node, nat),
    ParseError,
>
    decreases left(toks, p), 5nat,
{
    if p < 0 || p >= toks.len() {
        Err(ParseError::UnexpectedEnd)
    } else {
        let t = toks[p];
        match t.ty {
            TokenType::Keyword(kw) => if decl_type_of(t.ty) is Some {
                assignment_at(toks, src, p)
            } else if kw == KeywordKind::Funk {
                function_at(toks, src, p)
            } else if kw == KeywordKind::If {
                conditional_at(toks, src, p)
            } else {
                Err(ParseError::UnhandledKeyword { line: t.line, keyword: kw })
            },
            _ => match expr_at(toks, src, p) {
                Ok((e, k)) => if has_ty(toks, p + k + 1, TokenType::Semicolon) {
                    Ok((e, k + 1))
                } else {
                    Ok((e, k))
                },
                Err(err) => Err(err),
            },
        }
    }
}

/// `Type name = Expression`, ended by a `;` or newline (taken), or by a `}` or
/// the end of the tokens (left in place).
pub open spec fn assignment_at(toks: Seq<Token>, src: Seq<char>, p: int) -> Result<
    (Node, nat),
    ParseError,
>
    decreases left(toks, p), 4nat,
{
    if p < 0 || p >= toks.len() {
        Err(ParseError::UnexpectedEnd)
    } else {
        match decl_type_of(toks[p].ty) {
            None => Err(unexpected(toks[p])),
            Some(dt) => match expect_at(toks, p + 1, TokenType::Identifier) {
                Err(e) => Err(e),
                Ok(_) => match expect_at(toks, p + 2, TokenType::Equals) {
                    Err(e) => Err(e),
                    Ok(_) => match expr_at(toks, src, p + 3) {
                        Err(e) => Err(e),
                        Ok((v, k)) => {
                            let r = p + k + 4;
                            let node = Node::Assignment {
                                name: text(src, toks[p + 1]),
                                declared_type: dt,
                                value: Box::new(v),
                            };
                            if has_ty(toks, r, TokenType::Semicolon) || has_ty(
                                toks,
                                r,
                                TokenType::Newline,
                            ) {
                                Ok((node, k + 4))
                            } else if r >= toks.len() || has_ty(toks, r, TokenType::RBrace) {
                                Ok((node, k + 3))
                            } else {
                                Err(unexpected(toks[r]))
                            }
                        },
                    },
                },
            },
        }
    }
}

/// `funk Type name ( Params ) { Body }`, from the `funk`.
pub open spec fn function_at(toks: Seq<Token>, src: Seq<char>, p: int) -> Result<
    (Node, nat),
    ParseError,
>
    decreases left(toks, p), 4nat,
{
    if p < 0 || p + 1 >= toks.len() {
        Err(ParseError::UnexpectedEnd)
    } else {
        match decl_type_of(toks[p + 1].ty) {
            None => Err(unexpected(toks[p + 1])),
            Some(rt) => match expect_at(toks, p + 2, TokenType::Identifier) {
                Err(e) => Err(e),
                Ok(_) => match params_at(toks, src, p + 3) {
                    Err(e) => Err(e),
                    Ok((ps, k1)) => match body_at(toks, src, p + k1 + 4) {
                        Err(e) => Err(e),
                        Ok((b, k2)) => Ok(
                            (
                                Node::FunctionDecl {
                                    name: text(src, toks[p + 2]),
                                    return_type: rt,
                                    params: ps,
                                    body: b,
                                },
                                k1 + k2 + 4,
                            ),
                        ),
                    },
                },
            },
        }
    }
}

pub open spec fn cond_kind_of(ty: TokenType) -> Option<CondKind> {
    match ty {
        TokenType::Keyword(KeywordKind::If) => Some(CondKind::If),
        TokenType::Keyword(KeywordKind::ElseIf) => Some(CondKind::ElseIf),
        TokenType::Keyword(KeywordKind::Else) => Some(CondKind::Else),
        _ => None,
    }
}

/// `if`/`elseif` Expression `{ Body }`, chained to a following `elseif` or
/// `else`; or `else { Body }`.
pub open spec fn conditional_at(toks: Seq<Token>, src: Seq<char>, p: int) -> Result<
    (Node, nat),
    ParseError,
>
    decreases left(toks, p), 4nat,
{
    if p < 0 || p >= toks.len() {
        Err(ParseError::UnexpectedEnd)
    } else {
        match cond_kind_of(toks[p].ty) {
            None => Err(unexpected(toks[p])),
            Some(CondKind::Else) => match body_at(toks, src, p + 1) {
                Ok((b, k)) => Ok(
                    (
                        Node::Conditional {
                            kind: CondKind::Else,
                            condition: None,
                            body: b,
                            alternative: None,
                        },
                        k + 1,
                    ),
                ),
                Err(e) => Err(e),
            },
            Some(kind) => match expr_at(toks, src, p + 1) {
                Err(e) => Err(e),
                Ok((c, k1)) => match body_at(toks, src, p + k1 + 2) {
                    Err(e) => Err(e),
                    Ok((b, k2)) => {
                        let r = p + k1 + k2 + 3;
                        if chains_at(toks, r) {
                            match conditional_at(toks, src, r) {
                                Ok((alt, k3)) => Ok(
                                    (
                                        Node::Conditional {
                                            kind,
                                            condition: Some(Box::new(c)),
                                            body: b,
                                            alternative: Some(Box::new(alt)),
                                        },
                                        k1 + k2 + k3 + 3,
                                    ),
                                ),
                                Err(e) => Err(e),
                            }
                        } else {
                            Ok(
                                (
                                    Node::Conditional {
                                        kind,
                                        condition: Some(Box::new(c)),
                                        body: b,
                                        alternative: None,
                                    },
                                    k1 + k2 + 2,
                                ),
                            )
                        }
                    },
                },
            },
        }
    }
}

/// The top-level statements from token `p` on, newlines between them skipped.
pub open spec fn program_at(toks: Seq<Token>, src: Seq<char>, p: int) -> Result<
    Seq<Node>,
    ParseError,
>
    decreases left(toks, p),
{
    if p < 0 || p >= toks.len() {
        Ok(seq![])
    } else if toks[p].ty == TokenType::Newline {
        program_at(toks, src, p + 1)
    } else {
        match top_at(toks, src, p) {
            Ok((n, k)) => match program_at(toks, src, p + k + 1) {
                Ok(rest) => Ok(seq![n] + rest),
                Err(e) => Err(e),
            },
            Err(e) => Err(e),
        }
    }
}

/// The syntax trees of a whole token sequence over its source text.
pub open spec fn parse_tokens(toks: Seq<Token>, src: Seq<char>) -> Result<Seq<Node>, ParseError> {
    program_at(toks, src, 0)
}

} // verus!
