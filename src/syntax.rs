//! The recursive-descent parser.
//!
//! The parser reads one lexeme ahead. Its state is the position from which
//! that lexeme was scanned: the lexeme itself is `lexeme_at(input, cursor)`.
//! The grammar, with left-associative operators:
//!
//! ```text
//! expr   := term (('+' | '-') term)*
//! term   := factor (('*' | '/') factor)*
//! factor := INT | STRING | CHAR | '(' expr ')' | IDENT
//! ```
//!
//! An identifier followed by `=` starts an assignment `IDENT '=' expr`; the
//! word `let` starts a definition `let IDENT (':' TYPE)? '=' expr`.
use crate::lexer::{lemma_lexeme_bounds, lexeme_at, Lex};
use crate::literal::{char_literal_value, parse_radix};
use crate::types::{Ast, Token};
use vstd::prelude::*;

verus! {

/// What a parse rule does from a given state: it builds a tree and leaves the
/// parser at a new state; it finds no tree; or an expectation of the grammar
/// fails, which ends the whole parse.
pub enum Outcome {
    Parsed(Ast, int),
    Absent,
    Fatal,
}

pub open spec fn lexeme_text(s: Seq<char>, l: Lex) -> Seq<char> {
    s.subrange(l.start, l.end)
}

pub open spec fn let_word() -> Seq<char> {
    seq!['l', 'e', 't']
}

/// The reserved words. Only `let` starts a statement.
pub open spec fn is_keyword(w: Seq<char>) -> bool {
    w == let_word() || w == seq!['i', 'f'] || w == seq!['f', 'o', 'r'] || w == seq![
        'w',
        'h',
        'i',
        'l',
        'e',
    ] || w == seq!['m', 'a', 't', 'c', 'h']
}

/// The identifier of the current lexeme is the target of an assignment: the
/// next lexeme is `=`.
pub open spec fn assignment_ahead(s: Seq<char>, q: int, ident: Seq<char>) -> bool {
    ident.len() > 0 && lexeme_at(s, lexeme_at(s, q).end).token == Some(Token::Equal)
}

/// An integer literal's outcome: its value if it fits in `i32`.
pub open spec fn int_outcome(v: Option<i32>, next: int) -> Outcome {
    match v {
        Some(n) => Outcome::Parsed(Ast::Int(n), next),
        None => Outcome::Absent,
    }
}

/// A rule's tree wrapped by `f`, or its failure passed on.
pub open spec fn wrap(o: Outcome, f: spec_fn(Ast) -> Ast) -> Outcome {
    match o {
        Outcome::Parsed(v, q) => Outcome::Parsed(f(v), q),
        other => other,
    }
}

/// `expr` from state `q`. A parsed outcome always lies after the state it
/// started from (the parser's contracts prove it as `advances`); the test of
/// that in the rules below only makes the measure of the recursion evident.
pub open spec fn spec_expr(s: Seq<char>, q: int) -> Outcome
    decreases s.len() - q, 3int,
    when 0 <= q <= s.len()
{
    match spec_term(s, q) {
        Outcome::Parsed(v, q1) => if q <= q1 <= s.len() {
            expr_tail(s, q1, v)
        } else {
            Outcome::Absent
        },
        other => other,
    }
}

/// The `(('+' | '-') term)*` loop, with the tree built so far in `acc`.
pub open spec fn expr_tail(s: Seq<char>, q: int, acc: Ast) -> Outcome
    decreases s.len() - q, 2int,
    when 0 <= q <= s.len()
{
    let l = lexeme_at(s, q);
    if l.token == Some(Token::Add) || l.token == Some(Token::Sub) {
        proof {
            lemma_lexeme_bounds(s, q);
        }
        match spec_term(s, l.end) {
            Outcome::Parsed(rhs, q2) => if l.end <= q2 <= s.len() {
                if l.token == Some(Token::Add) {
                    expr_tail(s, q2, Ast::Add(Box::new(acc), Box::new(rhs)))
                } else {
                    expr_tail(s, q2, Ast::Sub(Box::new(acc), Box::new(rhs)))
                }
            } else {
                Outcome::Absent
            },
            other => other,
        }
    } else {
        Outcome::Parsed(acc, q)
    }
}

/// `term` from state `q`.
pub open spec fn spec_term(s: Seq<char>, q: int) -> Outcome
    decreases s.len() - q, 2int,
    when 0 <= q <= s.len()
{
    match spec_factor(s, q) {
        Outcome::Parsed(v, q1) => if q <= q1 <= s.len() {
            term_tail(s, q1, v)
        } else {
            Outcome::Absent
        },
        other => other,
    }
}

/// The `(('*' | '/') factor)*` loop, with the tree built so far in `acc`.
pub open spec fn term_tail(s: Seq<char>, q: int, acc: Ast) -> Outcome
    decreases s.len() - q, 1int,
    when 0 <= q <= s.len()
{
    let l = lexeme_at(s, q);
    if l.token == Some(Token::Mul) || l.token == Some(Token::Div) {
        proof {
            lemma_lexeme_bounds(s, q);
        }
        match spec_factor(s, l.end) {
            Outcome::Parsed(rhs, q2) => if l.end <= q2 <= s.len() {
                if l.token == Some(Token::Mul) {
                    term_tail(s, q2, Ast::Mul(Box::new(acc), Box::new(rhs)))
                } else {
                    term_tail(s, q2, Ast::Div(Box::new(acc), Box::new(rhs)))
                }
            } else {
                Outcome::Absent
            },
            other => other,
        }
    } else {
        Outcome::Parsed(acc, q)
    }
}

/// `factor` from state `q`. Integer literals keep their text after a radix
/// prefix; string literals keep their quotes.
pub open spec fn spec_factor(s: Seq<char>, q: int) -> Outcome
    decreases s.len() - q, 1int,
    when 0 <= q <= s.len()
{
    let l = lexeme_at(s, q);
    let t = lexeme_text(s, l);
    proof {
        lemma_lexeme_bounds(s, q);
    }
    match l.token {
        Some(Token::Int10Literal) => int_outcome(parse_radix(t, 10), l.end),
        Some(Token::Int2Literal) => int_outcome(parse_radix(s.subrange(l.start + 2, l.end), 2), l.end),
        Some(Token::Int8Literal) => int_outcome(parse_radix(s.subrange(l.start + 2, l.end), 8), l.end),
        Some(Token::Int16Literal) => int_outcome(
            parse_radix(s.subrange(l.start + 2, l.end), 16),
            l.end,
        ),
        Some(Token::StringLiteral) => Outcome::Parsed(Ast::Str(t), l.end),
        Some(Token::CharLiteral) => match char_literal_value(t) {
            Some(c) => Outcome::Parsed(Ast::Chr(c), l.end),
            None => Outcome::Absent,
        },
        Some(Token::LParent) => match spec_expr(s, l.end) {
            Outcome::Parsed(v, q1) => if lexeme_at(s, q1).token == Some(Token::RParent) {
                Outcome::Parsed(v, lexeme_at(s, q1).end)
            } else {
                Outcome::Absent
            },
            other => other,
        },
        Some(Token::Ident) => if assignment_ahead(s, q, t) {
            spec_assignment(s, q)
        } else if t == let_word() {
            spec_definition(s, q)
        } else {
            Outcome::Parsed(Ast::Ident(t), l.end)
        },
        _ => Outcome::Absent,
    }
}

/// `IDENT '=' expr`: the second lexeme is skipped unread.
pub open spec fn spec_assignment(s: Seq<char>, q: int) -> Outcome
    decreases s.len() - q, 0int,
    when 0 <= q <= s.len()
{
    let l0 = lexeme_at(s, q);
    if l0.token != Some(Token::Ident) {
        Outcome::Absent
    } else {
        let name = lexeme_text(s, l0);
        let l1 = lexeme_at(s, l0.end);
        proof {
            lemma_lexeme_bounds(s, q);
            lemma_lexeme_bounds(s, l0.end);
        }
        wrap(spec_expr(s, l1.end), |v: Ast| Ast::Assign(name, Box::new(v)))
    }
}

/// `let NAME (':' TYPE)? '=' expr`. The name and the type are the text of
/// whatever lexemes stand there; after a type the next lexeme is skipped
/// unread, and without one it must be `=`.
pub open spec fn spec_definition(s: Seq<char>, q: int) -> Outcome
    decreases s.len() - q, 0int,
    when 0 <= q <= s.len()
{
    let l0 = lexeme_at(s, q);
    if l0.token != Some(Token::Ident) {
        Outcome::Absent
    } else if lexeme_text(s, l0) != let_word() {
        Outcome::Fatal
    } else {
        proof {
            lemma_lexeme_bounds(s, q);
        }
        let l1 = lexeme_at(s, l0.end);
        proof {
            lemma_lexeme_bounds(s, l0.end);
        }
        let name = lexeme_text(s, l1);
        let l2 = lexeme_at(s, l1.end);
        proof {
            lemma_lexeme_bounds(s, l1.end);
        }
        if lexeme_text(s, l2) == seq![':'] {
            let l3 = lexeme_at(s, l2.end);
            proof {
                lemma_lexeme_bounds(s, l2.end);
            }
            let l4 = lexeme_at(s, l3.end);
            proof {
                lemma_lexeme_bounds(s, l3.end);
            }
            let ty = lexeme_text(s, l3);
            wrap(spec_expr(s, l4.end), |v: Ast| Ast::VarDef(name, Some(ty), Box::new(v)))
        } else if lexeme_text(s, l2) == seq!['='] {
            wrap(spec_expr(s, l2.end), |v: Ast| Ast::VarDef(name, None, Box::new(v)))
        } else {
            Outcome::Fatal
        }
    }
}

/// The outcome of parsing a whole input with a fresh parser.
pub open spec fn parse(s: Seq<char>) -> Outcome {
    spec_expr(s, 0)
}

} // verus!
