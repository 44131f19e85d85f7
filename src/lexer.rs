//! The scanner: turns characters into tokens, one at a time, from a position.
use crate::types::Token;
use vstd::prelude::*;
use vstd::string::StrSliceExecFns;

verus! {

pub open spec fn is_space(c: char) -> bool {
    c == ' ' || c == '\t' || c == '\n' || c == '\x0C'
}

pub open spec fn is_ident_start(c: char) -> bool {
    ('a' <= c && c <= 'z') || ('A' <= c && c <= 'Z') || c == '_'
}

/// The character sets that a token's tail runs over.
#[derive(Clone, Copy)]
pub enum CharClass {
    Decimal,
    Binary,
    Octal,
    Hex,
    IdentTail,
}

pub open spec fn in_class(k: CharClass, c: char) -> bool {
    match k {
        CharClass::Decimal => '0' <= c && c <= '9',
        CharClass::Binary => c == '0' || c == '1',
        CharClass::Octal => '0' <= c && c <= '7',
        CharClass::Hex => ('0' <= c && c <= '9') || ('a' <= c && c <= 'f') || ('A' <= c
            && c <= 'F'),
        CharClass::IdentTail => is_ident_start(c) || ('0' <= c && c <= '9'),
    }
}

/// The first position at or after `i` that holds no whitespace.
pub open spec fn skip_spaces(s: Seq<char>, i: int) -> int
    decreases s.len() - i,
{
    if 0 <= i < s.len() && is_space(s[i]) {
        skip_spaces(s, i + 1)
    } else {
        i
    }
}

/// The first position at or after `i` whose character is not in `k`.
pub open spec fn class_run_end(s: Seq<char>, i: int, k: CharClass) -> int
    decreases s.len() - i,
{
    if 0 <= i < s.len() && in_class(k, s[i]) {
        class_run_end(s, i + 1, k)
    } else {
        i
    }
}

/// The first position at or after `i` that holds `q`, or the length if none does.
pub open spec fn find_char(s: Seq<char>, i: int, q: char) -> int
    decreases s.len() - i,
{
    if 0 <= i < s.len() && s[i] != q {
        find_char(s, i + 1, q)
    } else {
        i
    }
}

/// A radix-prefixed literal (`0b`, `0o`, `0x`) starts at `p`.
pub open spec fn prefixed_at(s: Seq<char>, p: int, marker: char, k: CharClass) -> bool {
    p + 2 < s.len() && s[p] == '0' && s[p + 1] == marker && in_class(k, s[p + 2])
}

/// The token that starts at the non-blank position `p`, and where it ends.
/// `None` is a character that starts no token; it covers that one character.
pub open spec fn scan_token(s: Seq<char>, p: int) -> (Option<Token>, int) {
    let c = s[p];
    if c == '(' {
        (Some(Token::LParent), p + 1)
    } else if c == ')' {
        (Some(Token::RParent), p + 1)
    } else if c == '=' {
        (Some(Token::Equal), p + 1)
    } else if c == '+' {
        (Some(Token::Add), p + 1)
    } else if c == '-' {
        (Some(Token::Sub), p + 1)
    } else if c == '*' {
        (Some(Token::Mul), p + 1)
    } else if c == '/' {
        (Some(Token::Div), p + 1)
    } else if c == ':' {
        (Some(Token::Colon), p + 1)
    } else if c == '"' {
        let q = find_char(s, p + 1, '"');
        if q < s.len() {
            (Some(Token::StringLiteral), q + 1)
        } else {
            (None, p + 1)
        }
    } else if c == '\'' {
        let q = find_char(s, p + 1, '\'');
        if q < s.len() {
            (Some(Token::CharLiteral), q + 1)
        } else {
            (None, p + 1)
        }
    } else if prefixed_at(s, p, 'b', CharClass::Binary) {
        (Some(Token::Int2Literal), class_run_end(s, p + 2, CharClass::Binary))
    } else if prefixed_at(s, p, 'o', CharClass::Octal) {
        (Some(Token::Int8Literal), class_run_end(s, p + 2, CharClass::Octal))
    } else if prefixed_at(s, p, 'x', CharClass::Hex) {
        (Some(Token::Int16Literal), class_run_end(s, p + 2, CharClass::Hex))
    } else if in_class(CharClass::Decimal, c) {
        (Some(Token::Int10Literal), class_run_end(s, p, CharClass::Decimal))
    } else if is_ident_start(c) {
        (Some(Token::Ident), class_run_end(s, p + 1, CharClass::IdentTail))
    } else {
        (None, p + 1)
    }
}

/// One step of the scanner: a token kind and the span of source it covers.
pub struct Lex {
    pub token: Option<Token>,
    pub start: int,
    pub end: int,
}

/// The lexeme that the scanner finds when it resumes at `pos`: whitespace is
/// skipped; at the end of the input it is `None` with an empty span.
pub open spec fn lexeme_at(s: Seq<char>, pos: int) -> Lex {
    let p = skip_spaces(s, pos);
    if p >= s.len() {
        Lex { token: None, start: s.len() as int, end: s.len() as int }
    } else {
        let (t, e) = scan_token(s, p);
        Lex { token: t, start: p, end: e }
    }
}

pub proof fn lemma_skip_spaces_bounds(s: Seq<char>, i: int)
    requires
        0 <= i <= s.len(),
    ensures
        i <= skip_spaces(s, i) <= s.len(),
    decreases s.len() - i,
{
    if i < s.len() && is_space(s[i]) {
        lemma_skip_spaces_bounds(s, i + 1);
    }
}

pub proof fn lemma_class_run_bounds(s: Seq<char>, i: int, k: CharClass)
    requires
        0 <= i <= s.len(),
    ensures
        i <= class_run_end(s, i, k) <= s.len(),
    decreases s.len() - i,
{
    if i < s.len() && in_class(k, s[i]) {
        lemma_class_run_bounds(s, i + 1, k);
    }
}

pub proof fn lemma_find_char_bounds(s: Seq<char>, i: int, q: char)
    requires
        0 <= i <= s.len(),
    ensures
        i <= find_char(s, i, q) <= s.len(),
    decreases s.len() - i,
{
    if i < s.len() && s[i] != q {
        lemma_find_char_bounds(s, i + 1, q);
    }
}

/// A lexeme lies after the resume position, inside the input, and covers at
/// least one character unless it marks the end of the input.
pub proof fn lemma_lexeme_bounds(s: Seq<char>, pos: int)
    requires
        0 <= pos <= s.len(),
    ensures
        pos <= lexeme_at(s, pos).start <= lexeme_at(s, pos).end <= s.len(),
        lexeme_at(s, pos).start < s.len() ==> lexeme_at(s, pos).start < lexeme_at(s, pos).end,
        lexeme_at(s, pos).start == s.len() ==> lexeme_at(s, pos).token is None,
        lexeme_at(s, pos).token == Some(Token::Int2Literal) || lexeme_at(s, pos).token == Some(
            Token::Int8Literal,
        ) || lexeme_at(s, pos).token == Some(Token::Int16Literal) ==> lexeme_at(s, pos).start + 2
            <= lexeme_at(s, pos).end,
{
    lemma_skip_spaces_bounds(s, pos);
    let p = skip_spaces(s, pos);
    if p < s.len() {
        lemma_find_char_bounds(s, p + 1, '"');
        lemma_find_char_bounds(s, p + 1, '\'');
        lemma_class_run_bounds(s, p, CharClass::Decimal);
        lemma_class_run_bounds(s, p + 1, CharClass::IdentTail);
        if p + 2 < s.len() {
            lemma_class_run_bounds(s, p + 2, CharClass::Binary);
            lemma_class_run_bounds(s, p + 2, CharClass::Octal);
            lemma_class_run_bounds(s, p + 2, CharClass::Hex);
        }
        if in_class(CharClass::Decimal, s[p]) {
            lemma_class_run_bounds(s, p + 1, CharClass::Decimal);
        }
    }
}

pub fn is_space_char(c: char) -> (r: bool)
    ensures
        r == is_space(c),
{
    c == ' ' || c == '\t' || c == '\n' || c == '\x0C'
}

pub fn is_ident_start_char(c: char) -> (r: bool)
    ensures
        r == is_ident_start(c),
{
    ('a' <= c && c <= 'z') || ('A' <= c && c <= 'Z') || c == '_'
}

pub fn in_class_char(k: CharClass, c: char) -> (r: bool)
    ensures
        r == in_class(k, c),
{
    match k {
        CharClass::Decimal => '0' <= c && c <= '9',
        CharClass::Binary => c == '0' || c == '1',
        CharClass::Octal => '0' <= c && c <= '7',
        CharClass::Hex => ('0' <= c && c <= '9') || ('a' <= c && c <= 'f') || ('A' <= c
            && c <= 'F'),
        CharClass::IdentTail => is_ident_start_char(c) || ('0' <= c && c <= '9'),
    }
}

fn skip_spaces_from(chars: &Vec<char>, i: usize) -> (r: usize)
    requires
        i <= chars.len(),
    ensures
        r == skip_spaces(chars@, i as int),
{
    let mut j: usize = i;
    while j < chars.len() && is_space_char(chars[j])
        invariant
            i <= j <= chars.len(),
            skip_spaces(chars@, i as int) == skip_spaces(chars@, j as int),
        decreases chars.len() - j,
    {
        j = j + 1;
    }
    j
}

fn class_run_from(chars: &Vec<char>, i: usize, k: CharClass) -> (r: usize)
    requires
        i <= chars.len(),
    ensures
        r == class_run_end(chars@, i as int, k),
{
    let mut j: usize = i;
    while j < chars.len() && in_class_char(k, chars[j])
        invariant
            i <= j <= chars.len(),
            class_run_end(chars@, i as int, k) == class_run_end(chars@, j as int, k),
        decreases chars.len() - j,
    {
        j = j + 1;
    }
    j
}

pub fn find_char_from(chars: &Vec<char>, i: usize, q: char) -> (r: usize)
    requires
        i <= chars.len(),
    ensures
        r == find_char(chars@, i as int, q),
{
    let mut j: usize = i;
    while j < chars.len() && chars[j] != q
        invariant
            i <= j <= chars.len(),
            find_char(chars@, i as int, q) == find_char(chars@, j as int, q),
        decreases chars.len() - j,
    {
        j = j + 1;
    }
    j
}

fn prefixed_at_exec(chars: &Vec<char>, p: usize, marker: char, k: CharClass) -> (r: bool)
    requires
        p < chars.len(),
    ensures
        r == prefixed_at(chars@, p as int, marker, k),
{
    chars.len() - p > 2 && chars[p] == '0' && chars[p + 1] == marker && in_class_char(
        k,
        chars[p + 2],
    )
}

/// The characters of `input`, in order.
pub fn char_vec(input: &str) -> (r: Vec<char>)
    ensures
        r@ == input@,
{
    let n = input.unicode_len();
    let mut chars: Vec<char> = Vec::new();
    let mut i: usize = 0;
    while i < n
        invariant
            n == input@.len(),
            0 <= i <= n,
            chars@ == input@.subrange(0, i as int),
        decreases n - i,
    {
        chars.push(input.get_char(i));
        i = i + 1;
        assert(chars@ =~= input@.subrange(0, i as int));
    }
    assert(chars@ =~= input@);
    chars
}

/// The executable form of a lexeme.
pub struct Lexeme {
    pub token: Option<Token>,
    pub start: usize,
    pub end: usize,
}

impl Lexeme {
    pub open spec fn view(&self) -> Lex {
        Lex { token: self.token, start: self.start as int, end: self.end as int }
    }
}

fn quoted(chars: &Vec<char>, p: usize, q: char, t: Token) -> (r: (Option<Token>, usize))
    requires
        p < chars.len(),
    ensures
        ({
            let e = find_char(chars@, p + 1, q);
            if e < chars.len() {
                r.0 == Some(t) && r.1 == e + 1
            } else {
                r.0 is None && r.1 == p + 1
            }
        }),
{
    let e = find_char_from(chars, p + 1, q);
    proof {
        lemma_find_char_bounds(chars@, p + 1, q);
    }
    if e < chars.len() {
        (Some(t), e + 1)
    } else {
        (None, p + 1)
    }
}

fn scan_token_exec(chars: &Vec<char>, p: usize) -> (r: (Option<Token>, usize))
    requires
        p < chars.len(),
    ensures
        r.0 == scan_token(chars@, p as int).0,
        r.1 == scan_token(chars@, p as int).1,
{
    let c = chars[p];
    if c == '(' {
        (Some(Token::LParent), p + 1)
    } else if c == ')' {
        (Some(Token::RParent), p + 1)
    } else if c == '=' {
        (Some(Token::Equal), p + 1)
    } else if c == '+' {
        (Some(Token::Add), p + 1)
    } else if c == '-' {
        (Some(Token::Sub), p + 1)
    } else if c == '*' {
        (Some(Token::Mul), p + 1)
    } else if c == '/' {
        (Some(Token::Div), p + 1)
    } else if c == ':' {
        (Some(Token::Colon), p + 1)
    } else if c == '"' {
        quoted(chars, p, '"', Token::StringLiteral)
    } else if c == '\'' {
        quoted(chars, p, '\'', Token::CharLiteral)
    } else if prefixed_at_exec(chars, p, 'b', CharClass::Binary) {
        (Some(Token::Int2Literal), class_run_from(chars, p + 2, CharClass::Binary))
    } else if prefixed_at_exec(chars, p, 'o', CharClass::Octal) {
        (Some(Token::Int8Literal), class_run_from(chars, p + 2, CharClass::Octal))
    } else if prefixed_at_exec(chars, p, 'x', CharClass::Hex) {
        (Some(Token::Int16Literal), class_run_from(chars, p + 2, CharClass::Hex))
    } else if in_class_char(CharClass::Decimal, c) {
        (Some(Token::Int10Literal), class_run_from(chars, p, CharClass::Decimal))
    } else if is_ident_start_char(c) {
        (Some(Token::Ident), class_run_from(chars, p + 1, CharClass::IdentTail))
    } else {
        (None, p + 1)
    }
}

/// Resumes scanning at `pos`.
pub fn next_lexeme(chars: &Vec<char>, pos: usize) -> (r: Lexeme)
    requires
        pos <= chars.len(),
    ensures
        r@ == lexeme_at(chars@, pos as int),
{
    let p = skip_spaces_from(chars, pos);
    proof {
        lemma_skip_spaces_bounds(chars@, pos as int);
    }
    if p >= chars.len() {
        Lexeme { token: None, start: chars.len(), end: chars.len() }
    } else {
        let (t, e) = scan_token_exec(chars, p);
        Lexeme { token: t, start: p, end: e }
    }
}

} // verus!
