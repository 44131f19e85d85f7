//! The executable parser, proved against the model in `syntax`.
use crate::lexer::{char_vec, lemma_lexeme_bounds, lexeme_at, next_lexeme, Lex};
use crate::literal::{extract_char, parse_digits, parse_radix};
use crate::syntax::{
    assignment_ahead, int_outcome, is_keyword, let_word, spec_assignment, spec_definition, spec_expr,
    spec_factor, spec_term, expr_tail, term_tail, Outcome,
};
use crate::types::{Ast, Node, Token};
use vstd::prelude::*;
use vstd::string::{StrSliceExecFns, StringExecFns};

verus! {

/// What `expect_error` compares the current lexeme's text with.
pub enum Expected {
    Str(&'static str),
    Char(char),
}

pub open spec fn expected_text(e: Expected) -> Seq<char> {
    match e {
        Expected::Str(s) => s@,
        Expected::Char(c) => seq![c],
    }
}

/// Whether a parse rule's result and the parser it leaves behind are those of
/// outcome `o`.
pub open spec fn reports(o: Outcome, r: Option<Node>, cursor: int, aborted: bool) -> bool {
    match o {
        Outcome::Parsed(a, q) => r is Some && r->0@ == a && cursor == q && !aborted,
        Outcome::Absent => r is None && !aborted,
        Outcome::Fatal => r is None && aborted,
    }
}

/// A parsed outcome has consumed at least one lexeme.
pub open spec fn advances(o: Outcome, q: int, n: int) -> bool {
    o is Parsed ==> q < o->Parsed_1 <= n
}

/// A parser over one input, with one lexeme of lookahead.
pub struct Parser<'a> {
    source: &'a str,
    chars: Vec<char>,
    from: usize,
    current: Option<Token>,
    start: usize,
    end: usize,
    aborted: bool,
}

fn char_node(c: char) -> (n: Node)
    ensures
        n@ == Ast::Chr(c),
{
    Node::CharLiteral(c)
}

/// Whether `a` and `b` hold the same characters.
fn text_equals(a: &str, b: &str) -> (r: bool)
    ensures
        r == (a@ == b@),
{
    let n = a.unicode_len();
    if n != b.unicode_len() {
        return false;
    }
    let mut i: usize = 0;
    while i < n
        invariant
            n == a@.len() == b@.len(),
            0 <= i <= n,
            forall|j: int| 0 <= j < i ==> a@[j] == b@[j],
        decreases n - i,
    {
        if a.get_char(i) != b.get_char(i) {
            return false;
        }
        i = i + 1;
    }
    assert(a@ =~= b@);
    true
}

impl<'a> Parser<'a> {
    /// The input's characters.
    pub closed spec fn input(&self) -> Seq<char> {
        self.chars@
    }

    /// The position from which the current lexeme was scanned.
    pub closed spec fn cursor(&self) -> int {
        self.from as int
    }

    /// An expectation of the grammar has failed: the parse is over.
    pub closed spec fn is_aborted(&self) -> bool {
        self.aborted
    }

    pub closed spec fn wf(&self) -> bool {
        &&& self.chars@ == self.source@
        &&& self.from <= self.chars.len()
        &&& lexeme_at(self.chars@, self.from as int) == (Lex {
            token: self.current,
            start: self.start as int,
            end: self.end as int,
        })
    }

    /// The lexeme that the parser looks at.
    pub closed spec fn lookahead(&self) -> Lex {
        lexeme_at(self.chars@, self.from as int)
    }

    proof fn lemma_wf(&self)
        requires
            self.wf(),
        ensures
            self.from <= self.start <= self.end <= self.chars.len(),
            self.start < self.chars.len() ==> self.start < self.end,
            self.start == self.chars.len() ==> self.current is None,
            self.current == Some(Token::Int2Literal) || self.current == Some(Token::Int8Literal)
                || self.current == Some(Token::Int16Literal) ==> self.start + 2 <= self.end,
            self.lookahead() == lexeme_at(self.input(), self.cursor()),
    {
        lemma_lexeme_bounds(self.chars@, self.from as int);
    }

    /// A parser at the start of `input`, its first lexeme read.
    pub fn new(input: &'a str) -> (r: Parser<'a>)
        ensures
            r.wf(),
            r.input() == input@,
            r.cursor() == 0,
            !r.is_aborted(),
    {
        let chars = char_vec(input);
        let l = next_lexeme(&chars, 0);
        Parser { source: input, chars, from: 0, current: l.token, start: l.start, end: l.end, aborted: false }
    }

    /// The current lexeme's kind; `None` at the end of the input or at a
    /// character that starts no token.
    pub fn current(&self) -> (r: Option<Token>)
        requires
            self.wf(),
        ensures
            r == self.lookahead().token,
    {
        self.current
    }

    /// The text of the current lexeme.
    pub fn slice(&self) -> (r: &'a str)
        requires
            self.wf(),
        ensures
            r@ == self.input().subrange(self.lookahead().start, self.lookahead().end),
    {
        proof {
            self.lemma_wf();
        }
        self.source.substring_char(self.start, self.end)
    }

    /// Whether an expectation of the grammar has failed.
    pub fn aborted(&self) -> (r: bool)
        ensures
            r == self.is_aborted(),
    {
        self.aborted
    }

    /// Moves to the next lexeme.
    pub fn advance(&mut self)
        requires
            old(self).wf(),
        ensures
            final(self).wf(),
            final(self).input() == old(self).input(),
            final(self).cursor() == old(self).lookahead().end,
            final(self).is_aborted() == old(self).is_aborted(),
    {
        proof {
            self.lemma_wf();
        }
        let l = next_lexeme(&self.chars, self.end);
        self.from = self.end;
        self.current = l.token;
        self.start = l.start;
        self.end = l.end;
    }

    /// Checks that the current lexeme's text is `expected`; if it is not, the
    /// parse is aborted.
    pub fn expect_error(&mut self, expected: Expected)
        requires
            old(self).wf(),
        ensures
            final(self).wf(),
            final(self).input() == old(self).input(),
            final(self).cursor() == old(self).cursor(),
            final(self).is_aborted() == (old(self).is_aborted() || old(self).input().subrange(
                old(self).lookahead().start,
                old(self).lookahead().end,
            ) != expected_text(expected)),
    {
        let found = self.slice();
        let matched = match expected {
            Expected::Str(s) => text_equals(found, s),
            Expected::Char(c) => {
                if found.unicode_len() == 1 {
                    let f = found.get_char(0);
                    proof {
                        if f == c {
                            assert(found@ =~= seq![c]);
                        }
                    }
                    f == c
                } else {
                    false
                }
            },
        };
        if !matched {
            self.aborted = true;
        }
    }

    /// Whether `word` is one of the reserved words.
    pub fn is_keyword_lists(word: &str) -> (r: bool)
        ensures
            r == is_keyword(word@),
    {
        proof {
            reveal_strlit("let");
            reveal_strlit("if");
            reveal_strlit("for");
            reveal_strlit("while");
            reveal_strlit("match");
        }
        let r = text_equals(word, "let") || text_equals(word, "if") || text_equals(word, "for")
            || text_equals(word, "while") || text_equals(word, "match");
        proof {
            assert("let"@ =~= let_word());
            assert("if"@ =~= seq!['i', 'f']);
            assert("for"@ =~= seq!['f', 'o', 'r']);
            assert("while"@ =~= seq!['w', 'h', 'i', 'l', 'e']);
            assert("match"@ =~= seq!['m', 'a', 't', 'c', 'h']);
        }
        r
    }

    /// Whether the current identifier `ident` is the target of an assignment:
    /// a scan from a copy of the cursor finds `=` as the next lexeme. The
    /// parser itself does not move.
    pub fn is_assignment_statement(&self, ident: &str) -> (r: bool)
        requires
            self.wf(),
        ensures
            r == assignment_ahead(self.input(), self.cursor(), ident@),
    {
        proof {
            self.lemma_wf();
        }
        if ident.unicode_len() == 0 {
            return false;
        }
        let probe: usize = self.end;
        let next = next_lexeme(&self.chars, probe);
        matches!(next.token, Some(Token::Equal))
    }

    /// No identifier is yet told apart as an assignment target.
    pub fn is_assignment_target_identifier(&self) -> (r: bool)
        ensures
            !r,
    {
        false
    }

    /// No literal is yet told apart as an assignment target.
    pub fn is_assignment_target_literal(&self) -> (r: bool)
        ensures
            !r,
    {
        false
    }

    /// An integer literal whose digits follow `skip` prefix characters.
    fn int_literal(&mut self, skip: usize, radix: u32) -> (r: Option<Node>)
        requires
            old(self).wf(),
            !old(self).is_aborted(),
            old(self).lookahead().start + skip <= old(self).lookahead().end,
            2 <= radix <= 16,
        ensures
            final(self).wf(),
            final(self).input() == old(self).input(),
            reports(
                int_outcome(
                    parse_radix(
                        old(self).input().subrange(
                            old(self).lookahead().start + skip,
                            old(self).lookahead().end,
                        ),
                        radix as int,
                    ),
                    old(self).lookahead().end,
                ),
                r,
                final(self).cursor(),
                final(self).is_aborted(),
            ),
    {
        proof {
            self.lemma_wf();
        }
        match parse_digits(&self.chars, self.start + skip, self.end, radix) {
            Some(n) => {
                self.advance();
                Some(Node::IntLiteral(n))
            },
            None => None,
        }
    }

    /// A string literal, quotes included.
    fn string_literal(&mut self) -> (r: Option<Node>)
        requires
            old(self).wf(),
            !old(self).is_aborted(),
            old(self).lookahead().token == Some(Token::StringLiteral),
        ensures
            final(self).wf(),
            final(self).input() == old(self).input(),
            reports(
                spec_factor(old(self).input(), old(self).cursor()),
                r,
                final(self).cursor(),
                final(self).is_aborted(),
            ),
    {
        proof {
            self.lemma_wf();
        }
        let text = self.slice().to_owned();
        self.advance();
        Some(Node::StringLiteral(text))
    }

    /// A char literal: three characters, the outer two single quotes.
    fn char_literal(&mut self) -> (r: Option<Node>)
        requires
            old(self).wf(),
            !old(self).is_aborted(),
            old(self).lookahead().token == Some(Token::CharLiteral),
        ensures
            final(self).wf(),
            final(self).input() == old(self).input(),
            reports(
                spec_factor(old(self).input(), old(self).cursor()),
                r,
                final(self).cursor(),
                final(self).is_aborted(),
            ),
    {
        proof {
            self.lemma_wf();
        }
        let c = extract_char(self.slice());
        self.advance();
        match c {
            Some(ch) => Some(char_node(ch)),
            None => None,
        }
    }

    /// `'(' expr ')'`
    fn parenthesized(&mut self) -> (r: Option<Node>)
        requires
            old(self).wf(),
            !old(self).is_aborted(),
            old(self).lookahead().token == Some(Token::LParent),
        ensures
            final(self).wf(),
            final(self).input() == old(self).input(),
            reports(
                spec_factor(old(self).input(), old(self).cursor()),
                r,
                final(self).cursor(),
                final(self).is_aborted(),
            ),
            advances(
                spec_factor(old(self).input(), old(self).cursor()),
                old(self).cursor(),
                old(self).input().len() as int,
            ),
        decreases self.input().len() - self.cursor(), 1int,
    {
        proof {
            self.lemma_wf();
        }
        self.advance();
        match self.expr() {
            Some(v) => {
                proof {
                    self.lemma_wf();
                }
                if matches!(self.current, Some(Token::RParent)) {
                    self.advance();
                    Some(v)
                } else {
                    None
                }
            },
            None => None,
        }
    }

    /// An identifier: the target of an assignment, the word `let`, or a
    /// reference.
    fn identifier(&mut self) -> (r: Option<Node>)
        requires
            old(self).wf(),
            !old(self).is_aborted(),
            old(self).lookahead().token == Some(Token::Ident),
        ensures
            final(self).wf(),
            final(self).input() == old(self).input(),
            reports(
                spec_factor(old(self).input(), old(self).cursor()),
                r,
                final(self).cursor(),
                final(self).is_aborted(),
            ),
            advances(
                spec_factor(old(self).input(), old(self).cursor()),
                old(self).cursor(),
                old(self).input().len() as int,
            ),
        decreases self.input().len() - self.cursor(), 1int,
    {
        proof {
            self.lemma_wf();
            reveal_strlit("let");
            assert("let"@ =~= let_word());
        }
        let ident = self.slice();
        if self.is_assignment_statement(ident) {
            return self.parse_value_assignment();
        }
        if Parser::is_keyword_lists(ident) {
            if text_equals(ident, "let") {
                return self.parse_value_definition();
            }
        }
        let name = ident.to_owned();
        self.advance();
        Some(Node::Ident(name))
    }

    /// `factor := INT | STRING | CHAR | '(' expr ')' | IDENT`, where an
    /// identifier may start an assignment or a definition.
    pub fn factor(&mut self) -> (r: Option<Node>)
        requires
            old(self).wf(),
            !old(self).is_aborted(),
        ensures
            final(self).wf(),
            final(self).input() == old(self).input(),
            reports(
                spec_factor(old(self).input(), old(self).cursor()),
                r,
                final(self).cursor(),
                final(self).is_aborted(),
            ),
            advances(
                spec_factor(old(self).input(), old(self).cursor()),
                old(self).cursor(),
                old(self).input().len() as int,
            ),
        decreases self.input().len() - self.cursor(), 2int,
    {
        proof {
            self.lemma_wf();
            reveal_strlit("let");
            assert("let"@ =~= let_word());
        }
        match self.current {
            Some(Token::Int10Literal) => self.int_literal(0, 10),
            Some(Token::Int16Literal) => self.int_literal(2, 16),
            Some(Token::Int2Literal) => self.int_literal(2, 2),
            Some(Token::Int8Literal) => self.int_literal(2, 8),
            Some(Token::StringLiteral) => self.string_literal(),
            Some(Token::CharLiteral) => self.char_literal(),
            Some(Token::LParent) => self.parenthesized(),
            Some(Token::Ident) => self.identifier(),
            _ => None,
        }
    }

    /// `term := factor (('*' | '/') factor)*`
    pub fn term(&mut self) -> (r: Option<Node>)
        requires
            old(self).wf(),
            !old(self).is_aborted(),
        ensures
            final(self).wf(),
            final(self).input() == old(self).input(),
            reports(
                spec_term(old(self).input(), old(self).cursor()),
                r,
                final(self).cursor(),
                final(self).is_aborted(),
            ),
            advances(
                spec_term(old(self).input(), old(self).cursor()),
                old(self).cursor(),
                old(self).input().len() as int,
            ),
        decreases self.input().len() - self.cursor(), 3int,
    {
        let ghost s = self.chars@;
        let ghost q0 = self.from as int;
        proof {
            self.lemma_wf();
        }
        let mut acc = match self.factor() {
            Some(v) => v,
            None => {
                return None;
            },
        };
        while matches!(self.current, Some(Token::Mul) | Some(Token::Div))
            invariant
                self.wf(),
                self.chars@ == s,
                s == old(self).input(),
                q0 == old(self).cursor(),
                !self.aborted,
                0 <= q0 < self.from <= s.len(),
                spec_term(s, q0) == term_tail(s, self.from as int, acc@),
            decreases s.len() - self.from,
        {
            proof {
                self.lemma_wf();
            }
            let op = self.current;
            self.advance();
            let rhs = match self.factor() {
                Some(v) => v,
                None => {
                    return None;
                },
            };
            acc = if matches!(op, Some(Token::Mul)) {
                Node::Mul(Box::new(acc), Box::new(rhs))
            } else {
                Node::Div(Box::new(acc), Box::new(rhs))
            };
        }
        Some(acc)
    }

    /// `expr := term (('+' | '-') term)*`: the entry point of the grammar.
    pub fn expr(&mut self) -> (r: Option<Node>)
        requires
            old(self).wf(),
            !old(self).is_aborted(),
        ensures
            final(self).wf(),
            final(self).input() == old(self).input(),
            reports(
                spec_expr(old(self).input(), old(self).cursor()),
                r,
                final(self).cursor(),
                final(self).is_aborted(),
            ),
            advances(
                spec_expr(old(self).input(), old(self).cursor()),
                old(self).cursor(),
                old(self).input().len() as int,
            ),
        decreases self.input().len() - self.cursor(), 4int,
    {
        let ghost s = self.chars@;
        let ghost q0 = self.from as int;
        proof {
            self.lemma_wf();
        }
        let mut acc = match self.term() {
            Some(v) => v,
            None => {
                return None;
            },
        };
        while matches!(self.current, Some(Token::Add) | Some(Token::Sub))
            invariant
                self.wf(),
                self.chars@ == s,
                s == old(self).input(),
                q0 == old(self).cursor(),
                !self.aborted,
                0 <= q0 < self.from <= s.len(),
                spec_expr(s, q0) == expr_tail(s, self.from as int, acc@),
            decreases s.len() - self.from,
        {
            proof {
                self.lemma_wf();
            }
            let op = self.current;
            self.advance();
            let rhs = match self.term() {
                Some(v) => v,
                None => {
                    return None;
                },
            };
            acc = if matches!(op, Some(Token::Add)) {
                Node::Add(Box::new(acc), Box::new(rhs))
            } else {
                Node::Sub(Box::new(acc), Box::new(rhs))
            };
        }
        Some(acc)
    }

    /// `IDENT '=' expr`, entered once the `=` has been seen ahead.
    pub fn parse_value_assignment(&mut self) -> (r: Option<Node>)
        requires
            old(self).wf(),
            !old(self).is_aborted(),
        ensures
            final(self).wf(),
            final(self).input() == old(self).input(),
            reports(
                spec_assignment(old(self).input(), old(self).cursor()),
                r,
                final(self).cursor(),
                final(self).is_aborted(),
            ),
            advances(
                spec_assignment(old(self).input(), old(self).cursor()),
                old(self).cursor(),
                old(self).input().len() as int,
            ),
        decreases self.input().len() - self.cursor(), 0int,
    {
        proof {
            self.lemma_wf();
        }
        if !matches!(self.current, Some(Token::Ident)) {
            return None;
        }
        let ident = self.slice();
        self.advance();
        proof {
            self.lemma_wf();
        }
        self.advance();
        let value = match self.expr() {
            Some(v) => v,
            None => {
                return None;
            },
        };
        Some(Node::Assignment(ident.to_owned(), Box::new(value)))
    }

    /// `let NAME (':' TYPE)? '=' expr`, entered at the word `let`.
    pub fn parse_value_definition(&mut self) -> (r: Option<Node>)
        requires
            old(self).wf(),
            !old(self).is_aborted(),
        ensures
            final(self).wf(),
            final(self).input() == old(self).input(),
            reports(
                spec_definition(old(self).input(), old(self).cursor()),
                r,
                final(self).cursor(),
                final(self).is_aborted(),
            ),
            advances(
                spec_definition(old(self).input(), old(self).cursor()),
                old(self).cursor(),
                old(self).input().len() as int,
            ),
        decreases self.input().len() - self.cursor(), 0int,
    {
        proof {
            self.lemma_wf();
            reveal_strlit("let");
            reveal_strlit(":");
            reveal_strlit("=");
            assert("let"@ =~= let_word());
            assert(":"@ =~= seq![':']);
            assert("="@ =~= seq!['=']);
        }
        if !matches!(self.current, Some(Token::Ident)) {
            return None;
        }
        self.expect_error(Expected::Str("let"));
        if self.aborted {
            return None;
        }
        self.advance();
        proof {
            self.lemma_wf();
        }
        let ident = self.slice();
        self.advance();
        proof {
            self.lemma_wf();
        }
        let data_type: Option<&'a str> = if text_equals(self.slice(), ":") {
            self.expect_error(Expected::Str(":"));
            self.advance();
            proof {
                self.lemma_wf();
            }
            Some(self.slice())
        } else {
            None
        };
        match data_type {
            Some(_) => {
                self.advance();
                proof {
                    self.lemma_wf();
                }
                self.advance();
            },
            None => {
                self.expect_error(Expected::Str("="));
                if self.aborted {
                    return None;
                }
                self.advance();
            },
        }
        let value = match self.expr() {
            Some(v) => v,
            None => {
                return None;
            },
        };
        let ty = match data_type {
            Some(t) => Some(t.to_owned()),
            None => None,
        };
        Some(Node::VariableDefinition(ident.to_owned(), ty, Box::new(value)))
    }
}

} // verus!
