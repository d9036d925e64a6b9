use vstd::prelude::*;

verus! {

/// Reserved words of the language.
#[derive(Clone, Copy, Debug, PartialEq, Eq, Structural)]
pub enum KeywordKind {
    Integer,
    Decimal,
    Boolean,
    String,
    Funk,
    If,
    ElseIf,
    Else,
}

/// The two kinds of literal the tokenizer recognises.
#[derive(Clone, Copy, Debug, PartialEq, Eq, Structural)]
pub enum LiteralKind {
    Number,
    String,
}

/// Lexical category of a token.
#[derive(Clone, Copy, Debug, PartialEq, Eq, Structural)]
pub enum TokenType {
    LParen,
    RParen,
    LBrace,
    RBrace,
    LBracket,
    RBracket,
    Comma,
    Semicolon,
    Newline,
    Plus,
    Minus,
    Star,
    Slash,
    Equals,
    EqualsEquals,
    Identifier,
    Keyword(KeywordKind),
    Literal(LiteralKind),
    Unknown,
}

/// A classified unit of source text: its category, the line it starts on and
/// the half-open character range `start..end` it occupies in the source.
#[derive(Clone, Copy, Debug, PartialEq, Eq, Structural)]
pub struct Token {
    pub ty: TokenType,
    pub line: usize,
    pub start: usize,
    pub end: usize,
}

/// Every token spans text inside a source of `n` characters, and a string
/// literal token spans at least its two quotes.
pub open spec fn tokens_fit(toks: Seq<Token>, n: int) -> bool {
    forall|i: int|
        0 <= i < toks.len() ==> {
            &&& (#[trigger] toks[i]).start <= toks[i].end <= n
            &&& toks[i].ty == TokenType::Literal(LiteralKind::String) ==> toks[i].start + 2
                <= toks[i].end
        }
}

/// Names what `char::is_alphabetic` answers (the Unicode `Alphabetic` property).
pub uninterp spec fn alphabetic(c: char) -> bool;

/// Names what `char::is_alphanumeric` answers (`Alphabetic` or a Unicode numeric).
pub uninterp spec fn alphanumeric(c: char) -> bool;

/// Relies on `char::is_alphabetic`, which depends on the character alone.
#[verifier::external_body]
pub(crate) fn char_is_alphabetic(c: char) -> (r: bool)
    ensures
        r == alphabetic(c),
{
    c.is_alphabetic()
}

/// Relies on `char::is_alphanumeric`, which depends on the character alone.
#[verifier::external_body]
pub(crate) fn char_is_alphanumeric(c: char) -> (r: bool)
    ensures
        r == alphanumeric(c),
{
    c.is_alphanumeric()
}

/// Characters with the Unicode `White_Space` property.
pub open spec fn is_white_space(c: char) -> bool {
    ('\u{9}' <= c && c <= '\u{d}') || c == ' ' || c == '\u{85}' || c == '\u{a0}' || c
        == '\u{1680}' || ('\u{2000}' <= c && c <= '\u{200a}') || c == '\u{2028}' || c
        == '\u{2029}' || c == '\u{202f}' || c == '\u{205f}' || c == '\u{3000}'
}

pub open spec fn is_digit(c: char) -> bool {
    '0' <= c && c <= '9'
}

pub open spec fn is_ident_start(c: char) -> bool {
    alphabetic(c) || c == '_'
}

pub open spec fn is_ident_char(c: char) -> bool {
    alphanumeric(c) || c == '_'
}

pub open spec fn is_number_char(c: char) -> bool {
    is_digit(c) || c == '.'
}

/// The operator alphabet.
pub open spec fn is_op_char(c: char) -> bool {
    c == '+' || c == '-' || c == '*' || c == '/' || c == '='
}

/// Single-character punctuation and its category.
pub open spec fn punct_type(c: char) -> Option<TokenType> {
    if c == '(' {
        Some(TokenType::LParen)
    } else if c == ')' {
        Some(TokenType::RParen)
    } else if c == '{' {
        Some(TokenType::LBrace)
    } else if c == '}' {
        Some(TokenType::RBrace)
    } else if c == '[' {
        Some(TokenType::LBracket)
    } else if c == ']' {
        Some(TokenType::RBracket)
    } else if c == ',' {
        Some(TokenType::Comma)
    } else if c == ';' {
        Some(TokenType::Semicolon)
    } else {
        None
    }
}

/// The recognised operators, spelled out.
pub open spec fn operator_type(t: Seq<char>) -> Option<TokenType> {
    if t == seq!['+'] {
        Some(TokenType::Plus)
    } else if t == seq!['-'] {
        Some(TokenType::Minus)
    } else if t == seq!['*'] {
        Some(TokenType::Star)
    } else if t == seq!['/'] {
        Some(TokenType::Slash)
    } else if t == seq!['='] {
        Some(TokenType::Equals)
    } else if t == seq!['=', '='] {
        Some(TokenType::EqualsEquals)
    } else {
        None
    }
}

/// The reserved words, spelled out.
pub open spec fn keyword_of(t: Seq<char>) -> Option<KeywordKind> {
    if t == seq!['I', 'n', 't', 'e', 'g', 'e', 'r'] {
        Some(KeywordKind::Integer)
    } else if t == seq!['D', 'e', 'c', 'i', 'm', 'a', 'l'] {
        Some(KeywordKind::Decimal)
    } else if t == seq!['B', 'o', 'o', 'l', 'e', 'a', 'n'] {
        Some(KeywordKind::Boolean)
    } else if t == seq!['S', 't', 'r', 'i', 'n', 'g'] {
        Some(KeywordKind::String)
    } else if t == seq!['f', 'u', 'n', 'k'] {
        Some(KeywordKind::Funk)
    } else if t == seq!['i', 'f'] {
        Some(KeywordKind::If)
    } else if t == seq!['e', 'l', 's', 'e', 'i', 'f'] {
        Some(KeywordKind::ElseIf)
    } else if t == seq!['e', 'l', 's', 'e'] {
        Some(KeywordKind::Else)
    } else {
        None
    }
}

pub fn is_white_space_char(c: char) -> (r: bool)
    ensures
        r == is_white_space(c),
{
    ('\u{9}' <= c && c <= '\u{d}') || c == ' ' || c == '\u{85}' || c == '\u{a0}' || c
        == '\u{1680}' || ('\u{2000}' <= c && c <= '\u{200a}') || c == '\u{2028}' || c
        == '\u{2029}' || c == '\u{202f}' || c == '\u{205f}' || c == '\u{3000}'
}

pub fn punct_type_of(c: char) -> (r: Option<TokenType>)
    ensures
        r == punct_type(c),
{
    if c == '(' {
        Some(TokenType::LParen)
    } else if c == ')' {
        Some(TokenType::RParen)
    } else if c == '{' {
        Some(TokenType::LBrace)
    } else if c == '}' {
        Some(TokenType::RBrace)
    } else if c == '[' {
        Some(TokenType::LBracket)
    } else if c == ']' {
        Some(TokenType::RBracket)
    } else if c == ',' {
        Some(TokenType::Comma)
    } else if c == ';' {
        Some(TokenType::Semicolon)
    } else {
        None
    }
}

/// Whether `s[a..e]` spells `w`.
fn span_is(s: &Vec<char>, a: usize, e: usize, w: &[char]) -> (r: bool)
    requires
        a <= e <= s@.len(),
    ensures
        r == (s@.subrange(a as int, e as int) == w@),
{
    if e - a != w.len() {
        return false;
    }
    let mut k: usize = 0;
    while k < w.len()
        invariant
            a <= e <= s@.len(),
            e - a == w@.len(),
            k <= w@.len(),
            forall|j: int| 0 <= j < k ==> s@[a + j] == w@[j],
        decreases w@.len() - k,
    {
        if s[a + k] != w[k] {
            assert(s@.subrange(a as int, e as int)[k as int] != w@[k as int]);
            return false;
        }
        k = k + 1;
    }
    assert(s@.subrange(a as int, e as int) =~= w@);
    true
}

/// The operator spelled by `s[a..e]`, if any.
pub fn operator_type_of(s: &Vec<char>, a: usize, e: usize) -> (r: Option<TokenType>)
    requires
        a <= e <= s@.len(),
    ensures
        r == operator_type(s@.subrange(a as int, e as int)),
{
    let plus: [char; 1] = ['+'];
    let minus: [char; 1] = ['-'];
    let star: [char; 1] = ['*'];
    let slash: [char; 1] = ['/'];
    let equals: [char; 1] = ['='];
    let equals_equals: [char; 2] = ['=', '='];
    proof {
        broadcast use vstd::array::group_array_axioms;
        assert(plus@ =~= seq!['+']);
        assert(minus@ =~= seq!['-']);
        assert(star@ =~= seq!['*']);
        assert(slash@ =~= seq!['/']);
        assert(equals@ =~= seq!['=']);
        assert(equals_equals@ =~= seq!['=', '=']);
    }
    if span_is(s, a, e, plus.as_slice()) {
        Some(TokenType::Plus)
    } else if span_is(s, a, e, minus.as_slice()) {
        Some(TokenType::Minus)
    } else if span_is(s, a, e, star.as_slice()) {
        Some(TokenType::Star)
    } else if span_is(s, a, e, slash.as_slice()) {
        Some(TokenType::Slash)
    } else if span_is(s, a, e, equals.as_slice()) {
        Some(TokenType::Equals)
    } else if span_is(s, a, e, equals_equals.as_slice()) {
        Some(TokenType::EqualsEquals)
    } else {
        None
    }
}

/// The reserved word spelled by `s[a..e]`, if any.
pub fn keyword_of_span(s: &Vec<char>, a: usize, e: usize) -> (r: Option<KeywordKind>)
    requires
        a <= e <= s@.len(),
    ensures
        r == keyword_of(s@.subrange(a as int, e as int)),
{
    let w_integer: [char; 7] = ['I', 'n', 't', 'e', 'g', 'e', 'r'];
    let w_decimal: [char; 7] = ['D', 'e', 'c', 'i', 'm', 'a', 'l'];
    let w_boolean: [char; 7] = ['B', 'o', 'o', 'l', 'e', 'a', 'n'];
    let w_string: [char; 6] = ['S', 't', 'r', 'i', 'n', 'g'];
    let w_funk: [char; 4] = ['f', 'u', 'n', 'k'];
    let w_if: [char; 2] = ['i', 'f'];
    let w_elseif: [char; 6] = ['e', 'l', 's', 'e', 'i', 'f'];
    let w_else: [char; 4] = ['e', 'l', 's', 'e'];
    proof {
        broadcast use vstd::array::group_array_axioms;
        assert(w_integer@ =~= seq!['I', 'n', 't', 'e', 'g', 'e', 'r']);
        assert(w_decimal@ =~= seq!['D', 'e', 'c', 'i', 'm', 'a', 'l']);
        assert(w_boolean@ =~= seq!['B', 'o', 'o', 'l', 'e', 'a', 'n']);
        assert(w_string@ =~= seq!['S', 't', 'r', 'i', 'n', 'g']);
        assert(w_funk@ =~= seq!['f', 'u', 'n', 'k']);
        assert(w_if@ =~= seq!['i', 'f']);
        assert(w_elseif@ =~= seq!['e', 'l', 's', 'e', 'i', 'f']);
        assert(w_else@ =~= seq!['e', 'l', 's', 'e']);
    }
    if span_is(s, a, e, w_integer.as_slice()) {
        Some(KeywordKind::Integer)
    } else if span_is(s, a, e, w_decimal.as_slice()) {
        Some(KeywordKind::Decimal)
    } else if span_is(s, a, e, w_boolean.as_slice()) {
        Some(KeywordKind::Boolean)
    } else if span_is(s, a, e, w_string.as_slice()) {
        Some(KeywordKind::String)
    } else if span_is(s, a, e, w_funk.as_slice()) {
        Some(KeywordKind::Funk)
    } else if span_is(s, a, e, w_if.as_slice()) {
        Some(KeywordKind::If)
    } else if span_is(s, a, e, w_elseif.as_slice()) {
        Some(KeywordKind::ElseIf)
    } else if span_is(s, a, e, w_else.as_slice()) {
        Some(KeywordKind::Else)
    } else {
        None
    }
}

} // verus!
