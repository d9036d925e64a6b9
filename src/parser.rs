use vstd::prelude::*;

use crate::ast::{view_nodes, BinOp, CondKind, DeclType, Node, AST};
use crate::grammar::{
    add_op, args_at, assignment_at, body_at, body_items_at, conditional_at, expr_at, factor_at,
    function_at, left, mul_op, param_items_at, params_at, parse_tokens, program_at, term_at, top_at,
    all_digits, digits_value, number_node, text, unescape, ParseError,
};
use crate::lexer::{lemma_lex_tokens_fit, tokenize, LexError, Lexer};
use crate::token::{is_digit, tokens_fit, KeywordKind, LiteralKind, Token, TokenType};

verus! {

/// Relies on `String::from_iter` over `char`s: the string holds exactly those
/// characters, in order.
#[verifier::external_body]
fn string_from_chars(v: Vec<char>) -> (r: String)
    ensures
        r@ == v@,
{
    String::from_iter(v)
}

/// The characters `s[a..e]`.
pub fn span_chars(s: &Vec<char>, a: usize, e: usize) -> (r: Vec<char>)
    requires
        a <= e <= s@.len(),
    ensures
        r@ == s@.subrange(a as int, e as int),
{
    let mut out: Vec<char> = Vec::new();
    let mut i: usize = a;
    while i < e
        invariant
            a <= i <= e <= s@.len(),
            out@ == s@.subrange(a as int, i as int),
        decreases e - i,
    {
        out.push(s[i]);
        i = i + 1;
        assert(out@ =~= s@.subrange(a as int, i as int));
    }
    out
}

/// The value of a string literal body, escapes resolved.
pub fn unescape_chars(s: &Vec<char>) -> (r: Vec<char>)
    ensures
        r@ == unescape(s@),
{
    let mut out: Vec<char> = Vec::new();
    let mut i: usize = 0;
    assert(s@.skip(0) =~= s@);
    assert(out@ + unescape(s@) =~= unescape(s@));
    while i < s.len()
        invariant
            i <= s@.len(),
            unescape(s@) == out@ + unescape(s@.skip(i as int)),
        decreases s@.len() - i,
    {
        let ghost rest = s@.skip(i as int);
        if s[i] == '\\' && i + 1 < s.len() {
            assert(rest.skip(2) =~= s@.skip(i + 2));
            if s[i + 1] == 'n' {
                out.push('\\');
                out.push('n');
                assert(unescape(rest) == seq!['\\', 'n'] + unescape(rest.skip(2)));
            } else {
                out.push(s[i + 1]);
                assert(unescape(rest) == seq![s@[i + 1]] + unescape(rest.skip(2)));
            }
            i = i + 2;
        } else {
            assert(rest.skip(1) =~= s@.skip(i + 1));
            out.push(s[i]);
            i = i + 1;
        }
    }
    assert(s@.skip(i as int) =~= seq![]);
    assert(out@ + seq![] =~= out@);
    out
}

pub proof fn lemma_digits_prefix(t: Seq<char>, j: int)
    requires
        all_digits(t),
        0 <= j <= t.len(),
    ensures
        0 <= digits_value(t.subrange(0, j)) <= digits_value(t),
    decreases t.len(),
{
    if t.len() == 0 {
        assert(t.subrange(0, j) =~= t);
    } else {
        let u = t.drop_last();
        assert(all_digits(u)) by {
            assert forall|i: int| 0 <= i < u.len() implies is_digit(#[trigger] u[i]) by {
                assert(u[i] == t[i]);
            }
        }
        assert(is_digit(t[t.len() - 1]));
        lemma_digits_prefix(u, u.len() as int);
        assert(u.subrange(0, u.len() as int) =~= u);
        if j == t.len() {
            assert(t.subrange(0, j) =~= t);
        } else {
            lemma_digits_prefix(u, j);
            assert(t.subrange(0, j) =~= u.subrange(0, j));
        }
    }
}

/// The node of a number literal whose text is `chars`.
pub fn number_of(chars: Vec<char>, line: usize) -> (r: Result<AST, ParseError>)
    ensures
        match number_node(chars@, line) {
            Ok(n) => r is Ok && r->Ok_0@ == n,
            Err(e) => r == Err::<AST, ParseError>(e),
        },
{
    let ghost t = chars@;
    let mut i: usize = 0;
    let mut has_dot = false;
    while i < chars.len()
        invariant
            chars@ == t,
            i <= t.len(),
            has_dot == (exists|j: int| 0 <= j < i && t[j] == '.'),
        decreases t.len() - i,
    {
        if chars[i] == '.' {
            has_dot = true;
        }
        i = i + 1;
    }
    if has_dot {
        return Ok(AST::DecimalLiteral(string_from_chars(chars)));
    }
    assert(!t.contains('.'));
    let mut v: i64 = 0;
    let mut j: usize = 0;
    assert(t.subrange(0, 0) =~= seq![]);
    while j < chars.len()
        invariant
            chars@ == t,
            j <= t.len(),
            all_digits(t.subrange(0, j as int)),
            v as int == digits_value(t.subrange(0, j as int)),
            v >= 0,
            !t.contains('.'),
        decreases t.len() - j,
    {
        let c = chars[j];
        let ghost pre = t.subrange(0, j as int);
        let ghost next = t.subrange(0, j + 1);
        assert(next.drop_last() =~= pre);
        if !('0' <= c && c <= '9') {
            assert(!is_digit(t[j as int]));
            assert(!all_digits(t));
            return Err(ParseError::InvalidNumber { line });
        }
        let d = (c as u32 - '0' as u32) as i64;
        assert(all_digits(next)) by {
            assert forall|k: int| 0 <= k < next.len() implies is_digit(#[trigger] next[k]) by {
                if k < j {
                    assert(next[k] == pre[k]);
                }
            }
        }
        assert(digits_value(next) == v * 10 + d);
        if v > (i64::MAX - d) / 10 {
            assert(v * 10 + d > i64::MAX) by (nonlinear_arith)
                requires
                    v > (i64::MAX - d) / 10,
                    0 <= d <= 9,
            ;
            proof {
                if all_digits(t) {
                    lemma_digits_prefix(t, j + 1);
                }
            }
            return Err(ParseError::InvalidNumber { line });
        }
        assert(v * 10 + d <= i64::MAX) by (nonlinear_arith)
            requires
                v <= (i64::MAX - d) / 10,
                0 <= d <= 9,
                v >= 0,
        ;
        v = v * 10 + d;
        j = j + 1;
    }
    assert(t.subrange(0, t.len() as int) =~= t);
    Ok(AST::IntegerLiteral(v))
}

} // verus!
verus! {

/// What a rule owes on the tokens from `p0`: the node it describes, the
/// cursor left just after the construct; or exactly its error.
pub open spec fn node_result(
    r: Result<AST, ParseError>,
    rule: Result<(Node, nat), ParseError>,
    p0: int,
    p1: int,
) -> bool {
    match rule {
        Ok((n, k)) => r is Ok && r->Ok_0@ == n && p1 == p0 + k + 1,
        Err(e) => r == Err::<AST, ParseError>(e),
    }
}

/// As `node_result`, for a rule that gives a list of nodes.
pub open spec fn list_result(
    r: Result<Vec<AST>, ParseError>,
    rule: Result<(Seq<Node>, nat), ParseError>,
    p0: int,
    p1: int,
) -> bool {
    match rule {
        Ok((ns, k)) => r is Ok && view_nodes(r->Ok_0@) == ns && p1 == p0 + k + 1,
        Err(e) => r == Err::<Vec<AST>, ParseError>(e),
    }
}

/// The exact outcome of parsing: the trees, or the first error.
pub open spec fn parsed(r: Result<Vec<AST>, ParseError>) -> Result<Seq<Node>, ParseError> {
    match r {
        Ok(v) => Ok(view_nodes(v@)),
        Err(e) => Err(e),
    }
}

pub proof fn lemma_view_prepend(a: AST, v: Seq<AST>)
    ensures
        view_nodes(seq![a] + v) == seq![a@] + view_nodes(v),
{
    assert(view_nodes(seq![a] + v) =~= seq![a@] + view_nodes(v)) by {
        assert forall|i: int| 0 <= i < v.len() + 1 implies #[trigger] view_nodes(seq![a] + v)[i] == (
        seq![a@] + view_nodes(v))[i] by {
            if i > 0 {
                assert((seq![a] + v)[i] == v[i - 1]);
            }
        }
    }
}

pub proof fn lemma_view_push(v: Seq<AST>, a: AST)
    ensures
        view_nodes(v.push(a)) == view_nodes(v).push(a@),
{
    assert(view_nodes(v.push(a)) =~= view_nodes(v).push(a@));
}

/// Cursor over a token sequence and the source text the tokens index.
pub struct Parser {
    pub tokens: Vec<Token>,
    pub source: Vec<char>,
    pub pos: usize,
}

impl Parser {
    pub open spec fn wf(&self) -> bool {
        tokens_fit(self.tokens@, self.source@.len() as int)
    }

    /// Whether `self` reads the same tokens and source as `other`.
    pub open spec fn same_input(&self, other: &Parser) -> bool {
        self.tokens@ == other.tokens@ && self.source@ == other.source@
    }

    /// A cursor at the first of `tokens`, which index `source`.
    pub fn new(tokens: Vec<Token>, source: &String) -> (r: Parser)
        requires
            tokens_fit(tokens@, source@.len() as int),
        ensures
            r.tokens@ == tokens@,
            r.source@ == source@,
            r.pos == 0,
            r.wf(),
    {
        let chars = crate::lexer::chars_of(source);
        Parser { tokens, source: chars, pos: 0 }
    }

    /// The token under the cursor, if the tokens have not run out.
    pub fn current_token(&self) -> (r: Option<Token>)
        ensures
            r == (if self.pos < self.tokens@.len() {
                Some(self.tokens@[self.pos as int])
            } else {
                None::<Token>
            }),
    {
        if self.pos < self.tokens.len() {
            Some(self.tokens[self.pos])
        } else {
            None
        }
    }

    /// The token after the cursor: the one token of lookahead.
    pub fn next_token(&self) -> (r: Option<Token>)
        ensures
            r == (if self.pos + 1 < self.tokens@.len() {
                Some(self.tokens@[self.pos + 1])
            } else {
                None::<Token>
            }),
    {
        if self.pos < self.tokens.len() && self.pos + 1 < self.tokens.len() {
            Some(self.tokens[self.pos + 1])
        } else {
            None
        }
    }

    fn at(&self, ty: TokenType) -> (r: bool)
        ensures
            r == crate::grammar::has_ty(self.tokens@, self.pos as int, ty),
    {
        self.pos < self.tokens.len() && self.tokens[self.pos].ty == ty
    }

    /// Takes the current token if it has category `ty`.
    fn expect(&mut self, ty: TokenType) -> (r: Result<(), ParseError>)
        ensures
            final(self).same_input(old(self)),
            r == crate::grammar::expect_at(old(self).tokens@, old(self).pos as int, ty),
            r is Ok ==> final(self).pos == old(self).pos + 1,
    {
        if self.pos >= self.tokens.len() {
            return Err(ParseError::UnexpectedEnd);
        }
        let t = self.tokens[self.pos];
        if t.ty == ty {
            self.pos = self.pos + 1;
            Ok(())
        } else {
            Err(ParseError::UnexpectedToken { line: t.line, found: t.ty })
        }
    }

    fn slice(&self, t: Token) -> (r: String)
        requires
            t.start <= t.end <= self.source@.len(),
        ensures
            r@ == text(self.source@, t),
    {
        string_from_chars(span_chars(&self.source, t.start, t.end))
    }
}

} // verus!
verus! {

impl Parser {
    fn parse_factor(&mut self) -> (r: Result<AST, ParseError>)
        requires
            old(self).wf(),
        ensures
            final(self).same_input(old(self)),
            node_result(
                r,
                factor_at(old(self).tokens@, old(self).source@, old(self).pos as int),
                old(self).pos as int,
                final(self).pos as int,
            ),
        decreases left(self.tokens@, self.pos as int), 0nat,
    {
        let ghost toks = self.tokens@;
        let ghost src = self.source@;
        let ghost p = self.pos as int;
        if self.pos >= self.tokens.len() {
            return Err(ParseError::UnexpectedEnd);
        }
        let t = self.tokens[self.pos];
        assert(toks[p] == t);
        match t.ty {
            TokenType::Literal(LiteralKind::Number) => {
                let n = number_of(span_chars(&self.source, t.start, t.end), t.line);
                if n.is_ok() {
                    self.pos = self.pos + 1;
                }
                n
            },
            TokenType::Literal(LiteralKind::String) => {
                let body = span_chars(&self.source, t.start + 1, t.end - 1);
                let v = string_from_chars(unescape_chars(&body));
                self.pos = self.pos + 1;
                Ok(AST::StringLiteral(v))
            },
            TokenType::LParen => {
                self.pos = self.pos + 1;
                let e = match self.parse_expr() {
                    Ok(e) => e,
                    Err(err) => return Err(err),
                };
                match self.expect(TokenType::RParen) {
                    Ok(_) => Ok(e),
                    Err(err) => Err(err),
                }
            },
            TokenType::Identifier => {
                let name = self.slice(t);
                if self.pos + 1 < self.tokens.len() && self.tokens[self.pos + 1].ty
                    == TokenType::LParen {
                    self.pos = self.pos + 2;
                    match self.parse_args() {
                        Ok(args) => Ok(AST::Call { name, args }),
                        Err(err) => Err(err),
                    }
                } else {
                    self.pos = self.pos + 1;
                    Ok(AST::Identifier(name))
                }
            },
            _ => Err(ParseError::UnexpectedToken { line: t.line, found: t.ty }),
        }
    }

    fn mul_op(&self) -> (r: Option<BinOp>)
        ensures
            r == mul_op(self.tokens@, self.pos as int),
    {
        if self.pos >= self.tokens.len() {
            return None;
        }
        match self.tokens[self.pos].ty {
            TokenType::Star => Some(BinOp::Mul),
            TokenType::Slash => Some(BinOp::Div),
            _ => None,
        }
    }

    fn add_op(&self) -> (r: Option<BinOp>)
        ensures
            r == add_op(self.tokens@, self.pos as int),
    {
        if self.pos >= self.tokens.len() {
            return None;
        }
        match self.tokens[self.pos].ty {
            TokenType::Plus => Some(BinOp::Add),
            TokenType::Minus => Some(BinOp::Sub),
            TokenType::EqualsEquals => Some(BinOp::Eq),
            _ => None,
        }
    }

    fn parse_term(&mut self) -> (r: Result<AST, ParseError>)
        requires
            old(self).wf(),
        ensures
            final(self).same_input(old(self)),
            node_result(
                r,
                term_at(old(self).tokens@, old(self).source@, old(self).pos as int),
                old(self).pos as int,
                final(self).pos as int,
            ),
        decreases left(self.tokens@, self.pos as int), 1nat,
    {
        if self.pos >= self.tokens.len() {
            return Err(ParseError::UnexpectedEnd);
        }
        let left = match self.parse_factor() {
            Ok(l) => l,
            Err(e) => return Err(e),
        };
        match self.mul_op() {
            Some(op) => {
                self.pos = self.pos + 1;
                match self.parse_term() {
                    Ok(right) => Ok(AST::Binary { left: Box::new(left), op, right: Box::new(right) }),
                    Err(e) => Err(e),
                }
            },
            None => Ok(left),
        }
    }

    fn parse_expr(&mut self) -> (r: Result<AST, ParseError>)
        requires
            old(self).wf(),
        ensures
            final(self).same_input(old(self)),
            node_result(
                r,
                expr_at(old(self).tokens@, old(self).source@, old(self).pos as int),
                old(self).pos as int,
                final(self).pos as int,
            ),
        decreases left(self.tokens@, self.pos as int), 2nat,
    {
        if self.pos >= self.tokens.len() {
            return Err(ParseError::UnexpectedEnd);
        }
        let left = match self.parse_term() {
            Ok(l) => l,
            Err(e) => return Err(e),
        };
        match self.add_op() {
            Some(op) => {
                self.pos = self.pos + 1;
                match self.parse_expr() {
                    Ok(right) => Ok(AST::Binary { left: Box::new(left), op, right: Box::new(right) }),
                    Err(e) => Err(e),
                }
            },
            None => Ok(left),
        }
    }

    fn parse_args(&mut self) -> (r: Result<Vec<AST>, ParseError>)
        requires
            old(self).wf(),
        ensures
            final(self).same_input(old(self)),
            list_result(
                r,
                args_at(old(self).tokens@, old(self).source@, old(self).pos as int),
                old(self).pos as int,
                final(self).pos as int,
            ),
        decreases left(self.tokens@, self.pos as int), 3nat,
    {
        if self.pos >= self.tokens.len() {
            return Err(ParseError::UnexpectedEnd);
        }
        let ty = self.tokens[self.pos].ty;
        if ty == TokenType::RParen || ty == TokenType::Newline || ty == TokenType::Semicolon {
            self.pos = self.pos + 1;
            let v: Vec<AST> = Vec::new();
            assert(view_nodes(v@) =~= seq![]);
            return Ok(v);
        }
        let e = match self.parse_expr() {
            Ok(e) => e,
            Err(err) => return Err(err),
        };
        if self.at(TokenType::Comma) {
            self.pos = self.pos + 1;
        }
        let mut rest = match self.parse_args() {
            Ok(rest) => rest,
            Err(err) => return Err(err),
        };
        let ghost old_rest = rest@;
        rest.insert(0, e);
        proof {
            assert(rest@ =~= seq![e] + old_rest);
            lemma_view_prepend(e, old_rest);
        }
        Ok(rest)
    }
}

} // verus!
verus! {

fn decl_type_of(ty: TokenType) -> (r: Option<DeclType>)
    ensures
        r == crate::grammar::decl_type_of(ty),
{
    match ty {
        TokenType::Keyword(KeywordKind::Integer) => Some(DeclType::Integer),
        TokenType::Keyword(KeywordKind::Decimal) => Some(DeclType::Decimal),
        TokenType::Keyword(KeywordKind::String) => Some(DeclType::String),
        TokenType::Keyword(KeywordKind::Boolean) => Some(DeclType::Boolean),
        _ => None,
    }
}

impl Parser {
    fn parse_param_items(&mut self) -> (r: Result<Vec<AST>, ParseError>)
        requires
            old(self).wf(),
        ensures
            final(self).same_input(old(self)),
            list_result(
                r,
                param_items_at(old(self).tokens@, old(self).source@, old(self).pos as int),
                old(self).pos as int,
                final(self).pos as int,
            ),
        decreases left(self.tokens@, self.pos as int),
    {
        if self.pos >= self.tokens.len() {
            return Err(ParseError::UnexpectedEnd);
        }
        let t = self.tokens[self.pos];
        if t.ty == TokenType::RParen {
            self.pos = self.pos + 1;
            let v: Vec<AST> = Vec::new();
            assert(view_nodes(v@) =~= seq![]);
            return Ok(v);
        }
        let declared_type = match decl_type_of(t.ty) {
            Some(dt) => dt,
            None => return Err(ParseError::UnexpectedToken { line: t.line, found: t.ty }),
        };
        self.pos = self.pos + 1;
        let name_token_at = self.pos;
        match self.expect(TokenType::Identifier) {
            Ok(_) => {},
            Err(e) => return Err(e),
        }
        let name = self.slice(self.tokens[name_token_at]);
        if self.at(TokenType::Comma) {
            self.pos = self.pos + 1;
        }
        let mut rest = match self.parse_param_items() {
            Ok(rest) => rest,
            Err(e) => return Err(e),
        };
        let param = AST::Parameter { name, declared_type };
        let ghost old_rest = rest@;
        rest.insert(0, param);
        proof {
            assert(rest@ =~= seq![param] + old_rest);
            lemma_view_prepend(param, old_rest);
        }
        Ok(rest)
    }

    fn parse_params(&mut self) -> (r: Result<Vec<AST>, ParseError>)
        requires
            old(self).wf(),
        ensures
            final(self).same_input(old(self)),
            list_result(
                r,
                params_at(old(self).tokens@, old(self).source@, old(self).pos as int),
                old(self).pos as int,
                final(self).pos as int,
            ),
    {
        match self.expect(TokenType::LParen) {
            Ok(_) => {},
            Err(e) => return Err(e),
        }
        self.parse_param_items()
    }

    fn parse_body(&mut self) -> (r: Result<Vec<AST>, ParseError>)
        requires
            old(self).wf(),
        ensures
            final(self).same_input(old(self)),
            list_result(
                r,
                body_at(old(self).tokens@, old(self).source@, old(self).pos as int),
                old(self).pos as int,
                final(self).pos as int,
            ),
        decreases left(self.tokens@, self.pos as int), 0nat,
    {
        if self.pos >= self.tokens.len() {
            return Err(ParseError::UnexpectedEnd);
        }
        match self.expect(TokenType::LBrace) {
            Ok(_) => {},
            Err(e) => return Err(e),
        }
        self.parse_body_items()
    }

    fn parse_body_items(&mut self) -> (r: Result<Vec<AST>, ParseError>)
        requires
            old(self).wf(),
        ensures
            final(self).same_input(old(self)),
            list_result(
                r,
                body_items_at(old(self).tokens@, old(self).source@, old(self).pos as int),
                old(self).pos as int,
                final(self).pos as int,
            ),
        decreases left(self.tokens@, self.pos as int), 6nat,
    {
        if self.pos >= self.tokens.len() {
            return Err(ParseError::UnexpectedEnd);
        }
        let ty = self.tokens[self.pos].ty;
        if ty == TokenType::Newline {
            self.pos = self.pos + 1;
            return self.parse_body_items();
        }
        if ty == TokenType::RBrace {
            self.pos = self.pos + 1;
            let v: Vec<AST> = Vec::new();
            assert(view_nodes(v@) =~= seq![]);
            return Ok(v);
        }
        let n = match self.parse_top() {
            Ok(n) => n,
            Err(e) => return Err(e),
        };
        let mut rest = match self.parse_body_items() {
            Ok(rest) => rest,
            Err(e) => return Err(e),
        };
        let ghost old_rest = rest@;
        rest.insert(0, n);
        proof {
            assert(rest@ =~= seq![n] + old_rest);
            lemma_view_prepend(n, old_rest);
        }
        Ok(rest)
    }

    fn parse_top(&mut self) -> (r: Result<AST, ParseError>)
        requires
            old(self).wf(),
        ensures
            final(self).same_input(old(self)),
            node_result(
                r,
                top_at(old(self).tokens@, old(self).source@, old(self).pos as int),
                old(self).pos as int,
                final(self).pos as int,
            ),
        decreases left(self.tokens@, self.pos as int), 5nat,
    {
        if self.pos >= self.tokens.len() {
            return Err(ParseError::UnexpectedEnd);
        }
        let t = self.tokens[self.pos];
        match t.ty {
            TokenType::Keyword(kw) => {
                if decl_type_of(t.ty).is_some() {
                    self.parse_assignment()
                } else if kw == KeywordKind::Funk {
                    self.parse_function()
                } else if kw == KeywordKind::If {
                    self.parse_conditional()
                } else {
                    Err(ParseError::UnhandledKeyword { line: t.line, keyword: kw })
                }
            },
            _ => {
                let e = match self.parse_expr() {
                    Ok(e) => e,
                    Err(err) => return Err(err),
                };
                if self.at(TokenType::Semicolon) {
                    self.pos = self.pos + 1;
                }
                Ok(e)
            },
        }
    }

    fn parse_assignment(&mut self) -> (r: Result<AST, ParseError>)
        requires
            old(self).wf(),
        ensures
            final(self).same_input(old(self)),
            node_result(
                r,
                assignment_at(old(self).tokens@, old(self).source@, old(self).pos as int),
                old(self).pos as int,
                final(self).pos as int,
            ),
        decreases left(self.tokens@, self.pos as int), 4nat,
    {
        if self.pos >= self.tokens.len() {
            return Err(ParseError::UnexpectedEnd);
        }
        let t = self.tokens[self.pos];
        let declared_type = match decl_type_of(t.ty) {
            Some(dt) => dt,
            None => return Err(ParseError::UnexpectedToken { line: t.line, found: t.ty }),
        };
        self.pos = self.pos + 1;
        let name_token_at = self.pos;
        match self.expect(TokenType::Identifier) {
            Ok(_) => {},
            Err(e) => return Err(e),
        }
        match self.expect(TokenType::Equals) {
            Ok(_) => {},
            Err(e) => return Err(e),
        }
        let name = self.slice(self.tokens[name_token_at]);
        let value = match self.parse_expr() {
            Ok(v) => v,
            Err(e) => return Err(e),
        };
        let node = AST::Assignment { name, declared_type, value: Box::new(value) };
        if self.at(TokenType::Semicolon) || self.at(TokenType::Newline) {
            self.pos = self.pos + 1;
            Ok(node)
        } else if self.pos >= self.tokens.len() || self.at(TokenType::RBrace) {
            Ok(node)
        } else {
            let u = self.tokens[self.pos];
            Err(ParseError::UnexpectedToken { line: u.line, found: u.ty })
        }
    }

    fn parse_function(&mut self) -> (r: Result<AST, ParseError>)
        requires
            old(self).wf(),
        ensures
            final(self).same_input(old(self)),
            node_result(
                r,
                function_at(old(self).tokens@, old(self).source@, old(self).pos as int),
                old(self).pos as int,
                final(self).pos as int,
            ),
        decreases left(self.tokens@, self.pos as int), 4nat,
    {
        if self.pos >= self.tokens.len() || self.pos + 1 >= self.tokens.len() {
            return Err(ParseError::UnexpectedEnd);
        }
        let t = self.tokens[self.pos + 1];
        let return_type = match decl_type_of(t.ty) {
            Some(dt) => dt,
            None => return Err(ParseError::UnexpectedToken { line: t.line, found: t.ty }),
        };
        self.pos = self.pos + 2;
        let name_token_at = self.pos;
        match self.expect(TokenType::Identifier) {
            Ok(_) => {},
            Err(e) => return Err(e),
        }
        let name = self.slice(self.tokens[name_token_at]);
        let params = match self.parse_params() {
            Ok(ps) => ps,
            Err(e) => return Err(e),
        };
        let body = match self.parse_body() {
            Ok(b) => b,
            Err(e) => return Err(e),
        };
        Ok(AST::FunctionDecl { name, return_type, params, body })
    }

    fn parse_conditional(&mut self) -> (r: Result<AST, ParseError>)
        requires
            old(self).wf(),
        ensures
            final(self).same_input(old(self)),
            node_result(
                r,
                conditional_at(old(self).tokens@, old(self).source@, old(self).pos as int),
                old(self).pos as int,
                final(self).pos as int,
            ),
        decreases left(self.tokens@, self.pos as int), 4nat,
    {
        if self.pos >= self.tokens.len() {
            return Err(ParseError::UnexpectedEnd);
        }
        let t = self.tokens[self.pos];
        let kind = match t.ty {
            TokenType::Keyword(KeywordKind::If) => CondKind::If,
            TokenType::Keyword(KeywordKind::ElseIf) => CondKind::ElseIf,
            TokenType::Keyword(KeywordKind::Else) => CondKind::Else,
            _ => return Err(ParseError::UnexpectedToken { line: t.line, found: t.ty }),
        };
        self.pos = self.pos + 1;
        if kind == CondKind::Else {
            return match self.parse_body() {
                Ok(body) => Ok(
                    AST::Conditional { kind, condition: None, body, alternative: None },
                ),
                Err(e) => Err(e),
            };
        }
        let condition = match self.parse_expr() {
            Ok(c) => c,
            Err(e) => return Err(e),
        };
        let body = match self.parse_body() {
            Ok(b) => b,
            Err(e) => return Err(e),
        };
        if self.at(TokenType::Keyword(KeywordKind::ElseIf)) || self.at(
            TokenType::Keyword(KeywordKind::Else),
        ) {
            match self.parse_conditional() {
                Ok(alt) => Ok(
                    AST::Conditional {
                        kind,
                        condition: Some(Box::new(condition)),
                        body,
                        alternative: Some(Box::new(alt)),
                    },
                ),
                Err(e) => Err(e),
            }
        } else {
            Ok(
                AST::Conditional {
                    kind,
                    condition: Some(Box::new(condition)),
                    body,
                    alternative: None,
                },
            )
        }
    }
}

} // verus!
verus! {

pub open spec fn prepend_nodes(pre: Seq<Node>, r: Result<Seq<Node>, ParseError>) -> Result<
    Seq<Node>,
    ParseError,
> {
    match r {
        Ok(ns) => Ok(pre + ns),
        Err(e) => Err(e),
    }
}

impl Parser {
    /// Parses the top-level statements from the cursor to the end of the tokens.
    pub fn parse(&mut self) -> (r: Result<Vec<AST>, ParseError>)
        requires
            old(self).wf(),
        ensures
            final(self).same_input(old(self)),
            parsed(r) == program_at(old(self).tokens@, old(self).source@, old(self).pos as int),
    {
        let ghost toks = self.tokens@;
        let ghost src = self.source@;
        let ghost p0 = self.pos as int;
        let mut program: Vec<AST> = Vec::new();
        assert(view_nodes(program@) + program_at(toks, src, p0)->Ok_0 =~= program_at(
            toks,
            src,
            p0,
        )->Ok_0);
        while self.pos < self.tokens.len()
            invariant
                self.tokens@ == toks,
                self.source@ == src,
                toks == old(self).tokens@,
                src == old(self).source@,
                p0 == old(self).pos,
                tokens_fit(toks, src.len() as int),
                program_at(toks, src, p0) == prepend_nodes(
                    view_nodes(program@),
                    program_at(toks, src, self.pos as int),
                ),
            decreases left(toks, self.pos as int),
        {
            if self.tokens[self.pos].ty == TokenType::Newline {
                self.pos = self.pos + 1;
                continue;
            }
            let n = match self.parse_top() {
                Ok(n) => n,
                Err(e) => return Err(e),
            };
            proof {
                let pre = view_nodes(program@);
                lemma_view_push(program@, n);
                if let Ok(rest) = program_at(toks, src, self.pos as int) {
                    assert(pre + (seq![n@] + rest) =~= pre.push(n@) + rest);
                }
            }
            program.push(n);
        }
        assert(view_nodes(program@) + seq![] =~= view_nodes(program@));
        Ok(program)
    }
}

} // verus!
verus! {

/// Why reading a source text into trees stopped.
#[derive(Clone, Copy, Debug, PartialEq, Eq, Structural)]
pub enum SyntaxError {
    Lex(LexError),
    Parse(ParseError),
}

/// Tokenizing, then parsing, a whole source text.
pub open spec fn read_program(s: Seq<char>) -> Result<Seq<Node>, SyntaxError> {
    match tokenize(s) {
        Err(e) => Err(SyntaxError::Lex(e)),
        Ok(ts) => match parse_tokens(ts, s) {
            Ok(ns) => Ok(ns),
            Err(e) => Err(SyntaxError::Parse(e)),
        },
    }
}

/// Tokenizes `code` from its start on line 1, then parses the tokens.
pub fn parse_source(code: String) -> (r: Result<Vec<AST>, SyntaxError>)
    requires
        code@.len() < usize::MAX,
    ensures
        match r {
            Ok(v) => read_program(code@) == Ok::<Seq<Node>, SyntaxError>(view_nodes(v@)),
            Err(e) => read_program(code@) == Err::<Seq<Node>, SyntaxError>(e),
        },
{
    let ghost s = code@;
    let mut lexer = Lexer::new(code);
    let tokens = match lexer.lex() {
        Ok(t) => t,
        Err(e) => return Err(SyntaxError::Lex(e)),
    };
    proof {
        lemma_lex_tokens_fit(s, 0, 1);
    }
    let mut parser = Parser::new(tokens, &lexer.code);
    match parser.parse() {
        Ok(v) => Ok(v),
        Err(e) => Err(SyntaxError::Parse(e)),
    }
}

} // verus!
