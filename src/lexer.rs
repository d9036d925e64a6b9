use vstd::prelude::*;
use vstd::std_specs::iter::IteratorSpec;

use crate::token::{
    char_is_alphabetic, char_is_alphanumeric, is_digit, is_ident_char, is_ident_start,
    is_number_char, is_op_char, is_white_space, is_white_space_char, keyword_of, keyword_of_span,
    operator_type, operator_type_of, punct_type, punct_type_of, tokens_fit, LiteralKind, Token,
    TokenType,
};

verus! {

/// Why tokenization stopped.
#[derive(Clone, Copy, Debug, PartialEq, Eq, Structural)]
pub enum LexError {
    /// A numeric literal with more than one decimal point.
    MalformedNumber { line: usize },
    /// A run of operator characters that spells no operator.
    UnknownOperator { line: usize },
    /// A string literal that reaches the end of the input unclosed.
    UnterminatedString { line: usize },
}

/// Length of the run of identifier characters starting at `j`.
pub open spec fn ident_run(s: Seq<char>, j: int) -> nat
    decreases s.len() - j,
{
    if 0 <= j < s.len() && is_ident_char(s[j]) {
        1 + ident_run(s, j + 1)
    } else {
        0
    }
}

/// Length of the run of digits and dots starting at `j`.
pub open spec fn number_run(s: Seq<char>, j: int) -> nat
    decreases s.len() - j,
{
    if 0 <= j < s.len() && is_number_char(s[j]) {
        1 + number_run(s, j + 1)
    } else {
        0
    }
}

/// Length of the run of operator characters starting at `j`.
pub open spec fn op_run(s: Seq<char>, j: int) -> nat
    decreases s.len() - j,
{
    if 0 <= j < s.len() && is_op_char(s[j]) {
        1 + op_run(s, j + 1)
    } else {
        0
    }
}

pub open spec fn dot_count(t: Seq<char>) -> nat
    decreases t.len(),
{
    if t.len() == 0 {
        0
    } else {
        dot_count(t.drop_last()) + if t.last() == '.' {
            1nat
        } else {
            0nat
        }
    }
}

/// Scans the body of a string literal from `j`, just after its opening quote:
/// the number of characters up to and including the closing quote, and the
/// line counter after them. A backslash takes the next character with it, and
/// the escape `\n` advances the line counter. `None`: no closing quote.
pub open spec fn string_run(s: Seq<char>, j: int, line: int) -> Option<(nat, int)>
    decreases s.len() - j,
{
    if j < 0 || j >= s.len() {
        None
    } else if s[j] == '"' {
        Some((1, line))
    } else if s[j] == '\\' {
        if j + 1 >= s.len() {
            None
        } else {
            let next_line = if s[j + 1] == 'n' {
                line + 1
            } else {
                line
            };
            match string_run(s, j + 2, next_line) {
                Some((n, l)) => Some((n + 2, l)),
                None => None,
            }
        }
    } else {
        match string_run(s, j + 1, line) {
            Some((n, l)) => Some((n + 1, l)),
            None => None,
        }
    }
}

pub open spec fn mk_token(ty: TokenType, line: int, start: int, end: int) -> Token {
    Token { ty, line: line as usize, start: start as usize, end: end as usize }
}

/// One move of the scanner at position `i`.
pub enum Step {
    /// A token, then the position and line to continue from.
    Emit(Token, int, int),
    /// Nothing emitted (plain whitespace).
    Skip(int, int),
    Fail(LexError),
}

pub open spec fn step(s: Seq<char>, i: int, line: int) -> Step {
    let c = s[i];
    if punct_type(c) is Some {
        Step::Emit(mk_token(punct_type(c)->0, line, i, i + 1), i + 1, line)
    } else if c == '\n' {
        Step::Emit(mk_token(TokenType::Newline, line, i, i + 1), i + 1, line + 1)
    } else if is_white_space(c) {
        Step::Skip(i + 1, line)
    } else if is_digit(c) {
        let e = i + 1 + number_run(s, i + 1);
        if dot_count(s.subrange(i, e)) > 1 {
            Step::Fail(LexError::MalformedNumber { line: line as usize })
        } else {
            Step::Emit(mk_token(TokenType::Literal(LiteralKind::Number), line, i, e), e, line)
        }
    } else if is_op_char(c) {
        let e = i + 1 + op_run(s, i + 1);
        match operator_type(s.subrange(i, e)) {
            Some(ty) => Step::Emit(mk_token(ty, line, i, e), e, line),
            None => Step::Fail(LexError::UnknownOperator { line: line as usize }),
        }
    } else if c == '"' {
        match string_run(s, i + 1, line) {
            Some((n, l)) => Step::Emit(
                mk_token(TokenType::Literal(LiteralKind::String), line, i, i + 1 + n),
                i + 1 + n,
                l,
            ),
            None => Step::Fail(LexError::UnterminatedString { line: line as usize }),
        }
    } else if is_ident_start(c) {
        let e = i + 1 + ident_run(s, i + 1);
        let ty = match keyword_of(s.subrange(i, e)) {
            Some(k) => TokenType::Keyword(k),
            None => TokenType::Identifier,
        };
        Step::Emit(mk_token(ty, line, i, e), e, line)
    } else {
        Step::Emit(mk_token(TokenType::Unknown, line, i, i + 1), i + 1, line)
    }
}

pub open spec fn prepend_all(p: Seq<Token>, r: Result<Seq<Token>, LexError>) -> Result<
    Seq<Token>,
    LexError,
> {
    match r {
        Ok(ts) => Ok(p + ts),
        Err(e) => Err(e),
    }
}

/// The tokens of `s` from position `i` on, the line counter standing at `line`.
pub open spec fn lex_from(s: Seq<char>, i: int, line: int) -> Result<Seq<Token>, LexError>
    decreases s.len() - i,
    via lex_from_decreases
{
    if i < 0 || i >= s.len() {
        Ok(seq![])
    } else {
        match step(s, i, line) {
            Step::Fail(e) => Err(e),
            Step::Skip(n, l) => lex_from(s, n, l),
            Step::Emit(t, n, l) => prepend_all(seq![t], lex_from(s, n, l)),
        }
    }
}

#[via_fn]
proof fn lex_from_decreases(s: Seq<char>, i: int, line: int) {
    if 0 <= i < s.len() {
        lemma_step_advances(s, i, line);
    }
}

pub proof fn lemma_ident_run_bound(s: Seq<char>, j: int)
    requires
        0 <= j <= s.len(),
    ensures
        j + ident_run(s, j) <= s.len(),
    decreases s.len() - j,
{
    if j < s.len() {
        lemma_ident_run_bound(s, j + 1);
    }
}

pub proof fn lemma_number_run_bound(s: Seq<char>, j: int)
    requires
        0 <= j <= s.len(),
    ensures
        j + number_run(s, j) <= s.len(),
    decreases s.len() - j,
{
    if j < s.len() {
        lemma_number_run_bound(s, j + 1);
    }
}

pub proof fn lemma_op_run_bound(s: Seq<char>, j: int)
    requires
        0 <= j <= s.len(),
    ensures
        j + op_run(s, j) <= s.len(),
    decreases s.len() - j,
{
    if j < s.len() {
        lemma_op_run_bound(s, j + 1);
    }
}

/// A closed string literal ends inside the text, and the line counter grows
/// by at most the number of characters scanned.
pub proof fn lemma_string_run_bound(s: Seq<char>, j: int, line: int)
    requires
        0 <= j,
        string_run(s, j, line) is Some,
    ensures
        ({
            let r = string_run(s, j, line)->0;
            j + r.0 <= s.len() && line <= r.1 <= line + r.0
        }),
    decreases s.len() - j,
{
    if s[j] == '"' {
    } else if s[j] == '\\' {
        let next_line = if s[j + 1] == 'n' {
            line + 1
        } else {
            line
        };
        lemma_string_run_bound(s, j + 2, next_line);
    } else {
        lemma_string_run_bound(s, j + 1, line);
    }
}

/// Each move of the scanner consumes at least one character and stays inside
/// the text; the line counter grows by at most the characters consumed.
pub proof fn lemma_step_advances(s: Seq<char>, i: int, line: int)
    requires
        0 <= i < s.len(),
    ensures
        match step(s, i, line) {
            Step::Emit(t, n, l) => i < n <= s.len() && line <= l <= line + (n - i),
            Step::Skip(n, l) => i < n <= s.len() && l == line,
            Step::Fail(_) => true,
        },
{
    lemma_ident_run_bound(s, i + 1);
    lemma_number_run_bound(s, i + 1);
    lemma_op_run_bound(s, i + 1);
    if s[i] == '"' && string_run(s, i + 1, line) is Some {
        lemma_string_run_bound(s, i + 1, line);
    }
}

/// The tokens of a whole source text, lines counted from 1.
pub open spec fn tokenize(s: Seq<char>) -> Result<Seq<Token>, LexError> {
    lex_from(s, 0, 1)
}

} // verus!
verus! {

pub open spec fn shift(o: Option<(nat, int)>, k: nat) -> Option<(nat, int)> {
    match o {
        Some((m, l)) => Some(((m + k) as nat, l)),
        None => None,
    }
}

/// What a scanning method owes: the token or error of one move of the scanner,
/// with the position and line left where that move continues.
pub open spec fn scanned(st: Step, r: Result<Token, LexError>, pos: int, line: int) -> bool {
    match st {
        Step::Emit(t, n, l) => r == Ok::<Token, LexError>(t) && pos == n && line == l,
        Step::Fail(e) => r == Err::<Token, LexError>(e),
        Step::Skip(_, _) => false,
    }
}

pub proof fn lemma_prepend_push(p: Seq<Token>, t: Token, r: Result<Seq<Token>, LexError>)
    ensures
        prepend_all(p, prepend_all(seq![t], r)) == prepend_all(p.push(t), r),
{
    if let Ok(ts) = r {
        assert(p + (seq![t] + ts) =~= p.push(t) + ts);
    }
}

/// The characters of a text, in order.
pub fn chars_of(text: &String) -> (r: Vec<char>)
    ensures
        r@ == text@,
{
    broadcast use vstd::string::group_string_axioms;

    let mut it = text.as_str().chars();
    let mut out: Vec<char> = Vec::new();
    loop
        invariant
            out@ + it.remaining() == text@,
            it.decrease() is Some,
        ensures
            out@ == text@,
        decreases it.decrease()->0,
    {
        match it.next() {
            Some(c) => {
                out.push(c);
            },
            None => {
                assert(out@ =~= out@ + it.remaining());
                break;
            },
        }
    }
    out
}

} // verus!
verus! {

/// Scanner state: the source text, the position of the next character to
/// read, and the current line.
pub struct Lexer {
    pub code: String,
    pub pos: usize,
    pub line: usize,
}

/// The exact outcome of lexing: the tokens, or the first error.
pub open spec fn lexed(r: Result<Vec<Token>, LexError>) -> Result<Seq<Token>, LexError> {
    match r {
        Ok(v) => Ok(v@),
        Err(e) => Err(e),
    }
}

impl Lexer {
    /// A scanner at the start of `code`, on line 1.
    pub fn new(code: String) -> (r: Lexer)
        ensures
            r.code == code,
            r.pos == 0,
            r.line == 1,
    {
        Lexer { code, pos: 0, line: 1 }
    }

    /// Tokenizes the source from the current position and line to its end.
    pub fn lex(&mut self) -> (r: Result<Vec<Token>, LexError>)
        requires
            old(self).line + old(self).code@.len() <= usize::MAX,
        ensures
            final(self).code == old(self).code,
            lexed(r) == lex_from(old(self).code@, old(self).pos as int, old(self).line as int),
    {
        let chars = chars_of(&self.code);
        self.parse_tokens(&chars)
    }

    fn parse_tokens(&mut self, chars: &Vec<char>) -> (r: Result<Vec<Token>, LexError>)
        requires
            chars@ == old(self).code@,
            old(self).line + chars@.len() <= usize::MAX,
        ensures
            final(self).code == old(self).code,
            lexed(r) == lex_from(chars@, old(self).pos as int, old(self).line as int),
    {
        let ghost s = chars@;
        let ghost p0 = self.pos as int;
        let ghost l0 = self.line as int;
        let n = chars.len();
        let mut tokens: Vec<Token> = Vec::new();
        assert(tokens@ + lex_from(s, p0, l0)->Ok_0 =~= lex_from(s, p0, l0)->Ok_0);
        while self.pos < n
            invariant
                chars@ == s,
                s.len() == n,
                p0 == old(self).pos,
                l0 == old(self).line,
                self.code == old(self).code,
                self.line + (n - self.pos) <= usize::MAX,
                lex_from(s, p0, l0) == prepend_all(
                    tokens@,
                    lex_from(s, self.pos as int, self.line as int),
                ),
            decreases n - self.pos,
        {
            let ghost p = self.pos as int;
            let ghost l = self.line as int;
            proof {
                lemma_step_advances(s, p, l);
            }
            let c = chars[self.pos];
            let emitted: Result<Token, LexError>;
            if let Some(ty) = punct_type_of(c) {
                emitted = Ok(Token { ty, line: self.line, start: self.pos, end: self.pos + 1 });
                self.pos = self.pos + 1;
            } else if c == '\n' {
                emitted = Ok(
                    Token { ty: TokenType::Newline, line: self.line, start: self.pos, end: self.pos + 1 },
                );
                self.pos = self.pos + 1;
                self.line = self.line + 1;
            } else if is_white_space_char(c) {
                self.pos = self.pos + 1;
                continue;
            } else if '0' <= c && c <= '9' {
                emitted = self.lex_numbers(chars);
            } else if c == '+' || c == '-' || c == '*' || c == '/' || c == '=' {
                emitted = self.lex_operators(chars);
            } else if c == '"' {
                emitted = self.lex_string(chars);
            } else if char_is_alphabetic(c) || c == '_' {
                emitted = self.lex_keywords(chars);
            } else {
                emitted = Ok(
                    Token { ty: TokenType::Unknown, line: self.line, start: self.pos, end: self.pos + 1 },
                );
                self.pos = self.pos + 1;
            }
            assert(scanned(step(s, p, l), emitted, self.pos as int, self.line as int));
            match emitted {
                Ok(t) => {
                    proof {
                        lemma_prepend_push(tokens@, t, lex_from(s, self.pos as int, self.line as int));
                    }
                    tokens.push(t);
                },
                Err(e) => {
                    return Err(e);
                },
            }
        }
        assert(tokens@ + seq![] =~= tokens@);
        Ok(tokens)
    }

    fn lex_keywords(&mut self, chars: &Vec<char>) -> (r: Result<Token, LexError>)
        requires
            old(self).pos < chars@.len(),
            is_ident_start(chars@[old(self).pos as int]),
            !is_white_space(chars@[old(self).pos as int]),
            punct_type(chars@[old(self).pos as int]) is None,
            !is_digit(chars@[old(self).pos as int]),
            !is_op_char(chars@[old(self).pos as int]),
            chars@[old(self).pos as int] != '"',
            chars@[old(self).pos as int] != '\n',
        ensures
            final(self).code == old(self).code,
            scanned(
                step(chars@, old(self).pos as int, old(self).line as int),
                r,
                final(self).pos as int,
                final(self).line as int,
            ),
    {
        let ghost s = chars@;
        let n = chars.len();
        let start = self.pos;
        let mut j: usize = self.pos + 1;
        while j < chars.len() && (char_is_alphanumeric(chars[j]) || chars[j] == '_')
            invariant
                start < j <= s.len(),
                chars@ == s,
                *self == *old(self),
                ident_run(s, start + 1) == (j - (start + 1)) + ident_run(s, j as int),
            decreases s.len() - j,
        {
            j = j + 1;
        }
        let ty = match keyword_of_span(chars, start, j) {
            Some(k) => TokenType::Keyword(k),
            None => TokenType::Identifier,
        };
        self.pos = j;
        Ok(Token { ty, line: self.line, start, end: j })
    }

    fn lex_numbers(&mut self, chars: &Vec<char>) -> (r: Result<Token, LexError>)
        requires
            old(self).pos < chars@.len(),
            is_digit(chars@[old(self).pos as int]),
        ensures
            final(self).code == old(self).code,
            scanned(
                step(chars@, old(self).pos as int, old(self).line as int),
                r,
                final(self).pos as int,
                final(self).line as int,
            ),
    {
        let ghost s = chars@;
        let n = chars.len();
        let start = self.pos;
        let mut j: usize = self.pos + 1;
        let mut dots: usize = 0;
        assert(s.subrange(start as int, start + 1).drop_last() =~= seq![]);
        assert(dot_count(seq![]) == 0);
        assert(s.subrange(start as int, start + 1).last() == s[start as int]);
        while j < chars.len() && (('0' <= chars[j] && chars[j] <= '9') || chars[j] == '.')
            invariant
                start < j <= s.len(),
                chars@ == s,
                *self == *old(self),
                number_run(s, start + 1) == (j - (start + 1)) + number_run(s, j as int),
                dots == dot_count(s.subrange(start as int, j as int)),
                dots <= j - start,
            decreases s.len() - j,
        {
            assert(s.subrange(start as int, j + 1).drop_last() =~= s.subrange(
                start as int,
                j as int,
            ));
            if chars[j] == '.' {
                dots = dots + 1;
            }
            j = j + 1;
        }
        if dots > 1 {
            return Err(LexError::MalformedNumber { line: self.line });
        }
        self.pos = j;
        Ok(Token { ty: TokenType::Literal(LiteralKind::Number), line: self.line, start, end: j })
    }

    fn lex_operators(&mut self, chars: &Vec<char>) -> (r: Result<Token, LexError>)
        requires
            old(self).pos < chars@.len(),
            is_op_char(chars@[old(self).pos as int]),
        ensures
            final(self).code == old(self).code,
            scanned(
                step(chars@, old(self).pos as int, old(self).line as int),
                r,
                final(self).pos as int,
                final(self).line as int,
            ),
    {
        let ghost s = chars@;
        let n = chars.len();
        let start = self.pos;
        let mut j: usize = self.pos + 1;
        while j < chars.len() && (chars[j] == '+' || chars[j] == '-' || chars[j] == '*'
            || chars[j] == '/' || chars[j] == '=')
            invariant
                start < j <= s.len(),
                chars@ == s,
                *self == *old(self),
                op_run(s, start + 1) == (j - (start + 1)) + op_run(s, j as int),
            decreases s.len() - j,
        {
            j = j + 1;
        }
        match operator_type_of(chars, start, j) {
            Some(ty) => {
                self.pos = j;
                Ok(Token { ty, line: self.line, start, end: j })
            },
            None => Err(LexError::UnknownOperator { line: self.line }),
        }
    }

    fn lex_string(&mut self, chars: &Vec<char>) -> (r: Result<Token, LexError>)
        requires
            old(self).pos < chars@.len(),
            chars@[old(self).pos as int] == '"',
            old(self).line + (chars@.len() - old(self).pos) <= usize::MAX,
        ensures
            final(self).code == old(self).code,
            scanned(
                step(chars@, old(self).pos as int, old(self).line as int),
                r,
                final(self).pos as int,
                final(self).line as int,
            ),
    {
        let ghost s = chars@;
        let n = chars.len();
        let start = self.pos;
        let start_line = self.line;
        let mut line = self.line;
        let mut j: usize = self.pos + 1;
        while j < chars.len()
            invariant
                start < j <= s.len(),
                chars@ == s,
                *self == *old(self),
                start == old(self).pos,
                start_line == old(self).line,
                s[start as int] == '"',
                start_line <= line <= start_line + (j - (start + 1)),
                start_line + (s.len() - start) <= usize::MAX,
                string_run(s, start + 1, start_line as int) == shift(
                    string_run(s, j as int, line as int),
                    (j - (start + 1)) as nat,
                ),
            decreases s.len() - j,
        {
            if chars[j] == '"' {
                let tok = Token {
                    ty: TokenType::Literal(LiteralKind::String),
                    line: start_line,
                    start,
                    end: j + 1,
                };
                self.pos = j + 1;
                self.line = line;
                return Ok(tok);
            } else if chars[j] == '\\' {
                if j + 1 >= chars.len() {
                    return Err(LexError::UnterminatedString { line: start_line });
                }
                if chars[j + 1] == 'n' {
                    line = line + 1;
                }
                j = j + 2;
            } else {
                j = j + 1;
            }
        }
        Err(LexError::UnterminatedString { line: start_line })
    }
}

} // verus!
verus! {

/// Every token of a successful scan spans text inside the source, and a
/// string literal token spans at least its two quotes.
pub proof fn lemma_lex_tokens_fit(s: Seq<char>, i: int, line: int)
    requires
        0 <= i,
        s.len() <= usize::MAX,
        0 <= line,
        lex_from(s, i, line) is Ok,
    ensures
        tokens_fit(lex_from(s, i, line)->Ok_0, s.len() as int),
    decreases s.len() - i,
{
    if i < s.len() {
        lemma_step_advances(s, i, line);
        match step(s, i, line) {
            Step::Emit(t, n, l) => {
                lemma_lex_tokens_fit(s, n, l);
                let rest = lex_from(s, n, l)->Ok_0;
                let ts = seq![t] + rest;
                assert forall|k: int| 0 <= k < ts.len() implies {
                    &&& (#[trigger] ts[k]).start <= ts[k].end <= s.len()
                    &&& ts[k].ty == TokenType::Literal(LiteralKind::String) ==> ts[k].start + 2
                        <= ts[k].end
                } by {
                    if k > 0 {
                        assert(ts[k] == rest[k - 1]);
                    }
                }
            },
            Step::Skip(n, l) => {
                lemma_lex_tokens_fit(s, n, l);
            },
            Step::Fail(_) => {},
        }
    }
}

} // verus!
verus! {

/// The number of characters a closed string literal body takes.
pub open spec fn run_count(o: Option<(nat, int)>) -> nat {
    match o {
        Some((m, _)) => m,
        None => 0,
    }
}

/// Where a run ends at `n`, it ends there too inside `s[j..n]`.
pub proof fn lemma_ident_run_sub(s: Seq<char>, j: int, n: int, x: int)
    requires
        0 <= j < x <= n <= s.len(),
        ident_run(s, x) == n - x,
    ensures
        ident_run(s.subrange(j, n), x - j) == n - x,
    decreases n - x,
{
    if x < n {
        lemma_ident_run_sub(s, j, n, x + 1);
    }
}

pub proof fn lemma_number_run_sub(s: Seq<char>, j: int, n: int, x: int)
    requires
        0 <= j < x <= n <= s.len(),
        number_run(s, x) == n - x,
    ensures
        number_run(s.subrange(j, n), x - j) == n - x,
    decreases n - x,
{
    if x < n {
        lemma_number_run_sub(s, j, n, x + 1);
    }
}

pub proof fn lemma_op_run_sub(s: Seq<char>, j: int, n: int, x: int)
    requires
        0 <= j < x <= n <= s.len(),
        op_run(s, x) == n - x,
    ensures
        op_run(s.subrange(j, n), x - j) == n - x,
    decreases n - x,
{
    if x < n {
        lemma_op_run_sub(s, j, n, x + 1);
    }
}

/// A string literal body that closes at `n` closes there inside `s[j..n]`,
/// whatever the line counter.
pub proof fn lemma_string_run_sub(s: Seq<char>, j: int, n: int, x: int, line: int, line2: int)
    requires
        0 <= j < x,
        string_run(s, x, line) is Some,
        x + run_count(string_run(s, x, line)) == n,
        n <= s.len(),
    ensures
        string_run(s.subrange(j, n), x - j, line2) is Some,
        run_count(string_run(s.subrange(j, n), x - j, line2)) == n - x,
    decreases s.len() - x,
{
    let sub = s.subrange(j, n);
    if s[x] == '"' {
        assert(sub[x - j] == s[x]);
    } else if s[x] == '\\' {
        let l1 = if s[x + 1] == 'n' {
            line + 1
        } else {
            line
        };
        let l2 = if s[x + 1] == 'n' {
            line2 + 1
        } else {
            line2
        };
        lemma_string_run_bound(s, x + 2, l1);
        assert(sub[x - j] == s[x]);
        assert(sub[x + 1 - j] == s[x + 1]);
        lemma_string_run_sub(s, j, n, x + 2, l1, l2);
    } else {
        lemma_string_run_bound(s, x + 1, line);
        assert(sub[x - j] == s[x]);
        lemma_string_run_sub(s, j, n, x + 1, line, line2);
    }
}

/// Re-scanning the text of one emitted token, on its own from line 1, emits
/// that token alone.
pub proof fn lemma_step_alone(s: Seq<char>, j: int, line: int)
    requires
        0 <= j < s.len(),
        s.len() <= usize::MAX,
        step(s, j, line) is Emit,
    ensures
        ({
            let t = step(s, j, line)->Emit_0;
            let n = step(s, j, line)->Emit_1;
            lex_from(s.subrange(j, n), 0, 1) == Ok::<Seq<Token>, LexError>(
                seq![mk_token(t.ty, 1, 0, n - j)],
            )
        }),
{
    let n = step(s, j, line)->Emit_1;
    lemma_step_advances(s, j, line);
    let sub = s.subrange(j, n);
    let c = s[j];
    assert(sub[0] == c);
    if punct_type(c) is Some || c == '\n' {
    } else if is_white_space(c) {
    } else if is_digit(c) {
        lemma_number_run_bound(s, j + 1);
        lemma_number_run_sub(s, j, n, j + 1);
        assert(sub.subrange(0, n - j) =~= s.subrange(j, n));
    } else if is_op_char(c) {
        lemma_op_run_bound(s, j + 1);
        lemma_op_run_sub(s, j, n, j + 1);
        assert(sub.subrange(0, n - j) =~= s.subrange(j, n));
    } else if c == '"' {
        lemma_string_run_bound(s, j + 1, line);
        lemma_string_run_sub(s, j, n, j + 1, line, 1);
    } else if is_ident_start(c) {
        lemma_ident_run_bound(s, j + 1);
        lemma_ident_run_sub(s, j, n, j + 1);
        assert(sub.subrange(0, n - j) =~= s.subrange(j, n));
    }
    let t = step(sub, 0, 1)->Emit_0;
    assert(lex_from(sub, n - j, step(sub, 0, 1)->Emit_2) == Ok::<Seq<Token>, LexError>(seq![]));
    assert(seq![t] + seq![] =~= seq![t]);
}

/// The position and line at which the scan from `i` emitted its `k`-th token.
pub proof fn lemma_token_origin(s: Seq<char>, i: int, line: int, k: int) -> (r: (int, int))
    requires
        0 <= i,
        lex_from(s, i, line) is Ok,
        0 <= k < lex_from(s, i, line)->Ok_0.len(),
    ensures
        i <= r.0 < s.len(),
        step(s, r.0, r.1) is Emit,
        step(s, r.0, r.1)->Emit_0 == lex_from(s, i, line)->Ok_0[k],
    decreases s.len() - i,
{
    lemma_step_advances(s, i, line);
    match step(s, i, line) {
        Step::Emit(t, n, l) => {
            if k == 0 {
                (i, line)
            } else {
                let rest = lex_from(s, n, l)->Ok_0;
                assert((seq![t] + rest)[k] == rest[k - 1]);
                lemma_token_origin(s, n, l, k - 1)
            }
        },
        Step::Skip(n, l) => lemma_token_origin(s, n, l, k),
        Step::Fail(_) => (i, line),
    }
}

/// Tokenizing the exact text that a token spans gives that token back, alone:
/// the same category, spanning all of that text, on line 1.
pub proof fn lemma_retokenize_token(s: Seq<char>, k: int)
    requires
        s.len() <= usize::MAX,
        tokenize(s) is Ok,
        0 <= k < tokenize(s)->Ok_0.len(),
    ensures
        ({
            let t = tokenize(s)->Ok_0[k];
            tokenize(s.subrange(t.start as int, t.end as int)) == Ok::<Seq<Token>, LexError>(
                seq![Token { ty: t.ty, line: 1, start: 0, end: (t.end - t.start) as usize }],
            )
        }),
{
    let (j, l) = lemma_token_origin(s, 0, 1, k);
    lemma_step_advances(s, j, l);
    lemma_step_alone(s, j, l);
}

} // verus!
verus! {

/// A run of identifier characters is maximal: each of its characters is one,
/// and the character after it is not.
pub proof fn lemma_ident_run_chars(s: Seq<char>, x: int)
    requires
        0 <= x <= s.len(),
    ensures
        forall|y: int| x <= y < x + ident_run(s, x) ==> is_ident_char(#[trigger] s[y]),
        x + ident_run(s, x) == s.len() || !is_ident_char(s[x + ident_run(s, x)]),
    decreases s.len() - x,
{
    if x < s.len() && is_ident_char(s[x]) {
        lemma_ident_run_chars(s, x + 1);
    }
}

/// A run of digits and dots is maximal, as for identifiers.
pub proof fn lemma_number_run_chars(s: Seq<char>, x: int)
    requires
        0 <= x <= s.len(),
    ensures
        forall|y: int| x <= y < x + number_run(s, x) ==> is_number_char(#[trigger] s[y]),
        x + number_run(s, x) == s.len() || !is_number_char(s[x + number_run(s, x)]),
    decreases s.len() - x,
{
    if x < s.len() && is_number_char(s[x]) {
        lemma_number_run_chars(s, x + 1);
    }
}

/// A closed string literal body ends with its closing quote.
pub proof fn lemma_string_run_last(s: Seq<char>, x: int, line: int)
    requires
        0 <= x,
        string_run(s, x, line) is Some,
    ensures
        s[x + run_count(string_run(s, x, line)) - 1] == '"',
    decreases s.len() - x,
{
    if s[x] == '"' {
    } else if s[x] == '\\' {
        let l1 = if s[x + 1] == 'n' {
            line + 1
        } else {
            line
        };
        lemma_string_run_last(s, x + 2, l1);
    } else {
        lemma_string_run_last(s, x + 1, line);
    }
}

/// The text that an identifier or literal token spans is exactly the lexeme
/// scanned for it: an identifier runs from a letter or `_` over identifier
/// characters up to the first that is not one, and is no reserved word; a
/// number runs from a digit over digits and dots up to the first that is
/// neither, with at most one dot; a string runs from its opening quote to the
/// closing quote that ends the scan of its body.
pub proof fn lemma_token_text(s: Seq<char>, k: int)
    requires
        s.len() <= usize::MAX,
        tokenize(s) is Ok,
        0 <= k < tokenize(s)->Ok_0.len(),
    ensures
        ({
            let t = tokenize(s)->Ok_0[k];
            let a = t.start as int;
            let e = t.end as int;
            &&& 0 <= a < e <= s.len()
            &&& t.ty == TokenType::Identifier ==> {
                &&& is_ident_start(s[a])
                &&& forall|y: int| a < y < e ==> is_ident_char(#[trigger] s[y])
                &&& e == s.len() || !is_ident_char(s[e])
                &&& keyword_of(s.subrange(a, e)) is None
            }
            &&& t.ty == TokenType::Literal(LiteralKind::Number) ==> {
                &&& is_digit(s[a])
                &&& forall|y: int| a < y < e ==> is_number_char(#[trigger] s[y])
                &&& e == s.len() || !is_number_char(s[e])
                &&& dot_count(s.subrange(a, e)) <= 1
            }
            &&& t.ty == TokenType::Literal(LiteralKind::String) ==> {
                &&& s[a] == '"'
                &&& s[e - 1] == '"'
                &&& exists|l: int|
                    #![trigger string_run(s, a + 1, l)]
                    string_run(s, a + 1, l) is Some && run_count(string_run(s, a + 1, l)) == e
                        - a - 1
            }
        }),
{
    let (j, l) = lemma_token_origin(s, 0, 1, k);
    lemma_step_advances(s, j, l);
    let c = s[j];
    if punct_type(c) is Some || c == '\n' || is_white_space(c) {
    } else if is_digit(c) {
        lemma_number_run_bound(s, j + 1);
        lemma_number_run_chars(s, j + 1);
    } else if is_op_char(c) {
    } else if c == '"' {
        lemma_string_run_bound(s, j + 1, l);
        lemma_string_run_last(s, j + 1, l);
    } else if is_ident_start(c) {
        lemma_ident_run_bound(s, j + 1);
        lemma_ident_run_chars(s, j + 1);
    }
}

} // verus!
