//! Laws that relate the parser and the evaluator.
use crate::eval::eval_ast;
use crate::lexer::{class_run_end, in_class, is_space, lexeme_at, skip_spaces, CharClass, Lex};
use crate::literal::{digit_value, digits_value, lemma_digits_value_nonneg, parse_radix};
use crate::syntax::{expr_tail, parse, spec_expr, spec_factor, spec_term, term_tail, Outcome};
use crate::types::{Ast, Token, Value};
use crate::value::{int_arith, ArithOp};
use vstd::prelude::*;

verus! {

/// Dividing any tree by the literal `0` evaluates to no value; nothing
/// panics on the way.
pub proof fn law_divide_by_literal_zero(l: Ast)
    ensures
        eval_ast(Ast::Div(Box::new(l), Box::new(Ast::Int(0)))) is None,
{
    assert(eval_ast(Ast::Int(0)) == Some(Value::Int32(0)));
}

/// Parsing is a function of the input text: two fresh parses of the same
/// text give the same outcome, the same tree and the same value.
pub proof fn law_parse_deterministic(s1: Seq<char>, s2: Seq<char>)
    requires
        s1 == s2,
    ensures
        parse(s1) == parse(s2),
        parse(s1) matches Outcome::Parsed(t1, _) ==> (parse(s2) matches Outcome::Parsed(t2, _)
            && t1 == t2 && eval_ast(t1) == eval_ast(t2)),
{
}

/// A non-empty run of decimal digits.
pub open spec fn is_decimal_run(d: Seq<char>) -> bool {
    d.len() > 0 && forall|i: int| 0 <= i < d.len() ==> in_class(CharClass::Decimal, #[trigger] d[i])
}

/// A run of whitespace, possibly empty.
pub open spec fn is_blank(w: Seq<char>) -> bool {
    forall|i: int| 0 <= i < w.len() ==> is_space(#[trigger] w[i])
}

pub open spec fn op_char(op: ArithOp) -> char {
    match op {
        ArithOp::Add => '+',
        ArithOp::Sub => '-',
        ArithOp::Mul => '*',
        ArithOp::Div => '/',
    }
}

pub open spec fn op_token(op: ArithOp) -> Token {
    match op {
        ArithOp::Add => Token::Add,
        ArithOp::Sub => Token::Sub,
        ArithOp::Mul => Token::Mul,
        ArithOp::Div => Token::Div,
    }
}

pub open spec fn op_tree(op: ArithOp, l: Ast, r: Ast) -> Ast {
    match op {
        ArithOp::Add => Ast::Add(Box::new(l), Box::new(r)),
        ArithOp::Sub => Ast::Sub(Box::new(l), Box::new(r)),
        ArithOp::Mul => Ast::Mul(Box::new(l), Box::new(r)),
        ArithOp::Div => Ast::Div(Box::new(l), Box::new(r)),
    }
}

/// The text `a op b`, with whitespace `w1` and `w2` around the operator.
pub open spec fn binary_text(a: Seq<char>, w1: Seq<char>, op: ArithOp, w2: Seq<char>, b: Seq<char>) -> Seq<char> {
    a + w1 + seq![op_char(op)] + w2 + b
}

proof fn lemma_run_to(s: Seq<char>, i: int, j: int, k: CharClass)
    requires
        0 <= i <= j <= s.len(),
        forall|m: int| i <= m < j ==> in_class(k, #[trigger] s[m]),
        j == s.len() || !in_class(k, s[j]),
    ensures
        class_run_end(s, i, k) == j,
    decreases j - i,
{
    if i < j {
        lemma_run_to(s, i + 1, j, k);
    }
}

proof fn lemma_skip_to(s: Seq<char>, i: int, j: int)
    requires
        0 <= i <= j <= s.len(),
        forall|m: int| i <= m < j ==> is_space(#[trigger] s[m]),
        j == s.len() || !is_space(s[j]),
    ensures
        skip_spaces(s, i) == j,
    decreases j - i,
{
    if i < j {
        lemma_skip_to(s, i + 1, j);
    }
}

/// A decimal literal that starts at `p`, after blanks from `from`, and runs
/// to `e`, where a blank, an operator or the end follows it.
proof fn lemma_decimal_lexeme(s: Seq<char>, from: int, p: int, e: int, d: Seq<char>)
    requires
        0 <= from <= p < e <= s.len(),
        forall|m: int| from <= m < p ==> is_space(#[trigger] s[m]),
        is_decimal_run(d),
        d.len() == e - p,
        forall|m: int| 0 <= m < d.len() ==> s[p + m] == #[trigger] d[m],
        e == s.len() || s[e] == ' ' || s[e] == '\t' || s[e] == '\n' || s[e] == '\x0C' || s[e] == '+'
            || s[e] == '-' || s[e] == '*' || s[e] == '/',
    ensures
        lexeme_at(s, from) == (Lex { token: Some(Token::Int10Literal), start: p, end: e }),
        s.subrange(p, e) == d,
{
    assert(s[p] == d[0]);
    assert(in_class(CharClass::Decimal, d[0]));
    lemma_skip_to(s, from, p);
    assert forall|m: int| p <= m < e implies in_class(CharClass::Decimal, #[trigger] s[m]) by {
        assert(s[p + (m - p)] == d[m - p]);
    }
    lemma_run_to(s, p, e, CharClass::Decimal);
    if p + 1 < e {
        assert(s[p + 1] == d[1]);
        assert(in_class(CharClass::Decimal, d[1]));
    }
    assert(s.subrange(p, e) =~= d);
}

proof fn lemma_decimal_value(d: Seq<char>)
    requires
        is_decimal_run(d),
        digits_value(d, 10) <= i32::MAX,
    ensures
        parse_radix(d, 10) == Some(digits_value(d, 10) as i32),
{
    assert forall|i: int| 0 <= i < d.len() implies #[trigger] digit_value(d[i]) < 10 by {
        assert(in_class(CharClass::Decimal, d[i]));
    }
}

/// Two decimal literals joined by one of `+ - * /` parse, consuming the whole
/// text, to that operation on the two literals, and evaluate to the exact
/// `Int32` result. Left out: literals above `i32::MAX`, a zero divisor and a
/// result outside `i32`, which have no `Int32` result.
pub proof fn law_binary_integer_expression(
    a: Seq<char>,
    w1: Seq<char>,
    op: ArithOp,
    w2: Seq<char>,
    b: Seq<char>,
)
    requires
        is_decimal_run(a),
        is_decimal_run(b),
        is_blank(w1),
        is_blank(w2),
        digits_value(a, 10) <= i32::MAX,
        digits_value(b, 10) <= i32::MAX,
        int_arith(op, digits_value(a, 10), digits_value(b, 10)) is Some,
        i32::MIN <= int_arith(op, digits_value(a, 10), digits_value(b, 10))->0 <= i32::MAX,
    ensures
        ({
            let s = binary_text(a, w1, op, w2, b);
            let t = op_tree(
                op,
                Ast::Int(digits_value(a, 10) as i32),
                Ast::Int(digits_value(b, 10) as i32),
            );
            &&& parse(s) == Outcome::Parsed(t, s.len() as int)
            &&& lexeme_at(s, s.len() as int).token is None
            &&& eval_ast(t) == Some(
                Value::Int32(int_arith(op, digits_value(a, 10), digits_value(b, 10))->0 as i32),
            )
        }),
{
    let s = binary_text(a, w1, op, w2, b);
    let c = op_char(op);
    let n = s.len() as int;
    let pa = a.len() as int;
    let po = pa + w1.len();
    let pb = po + 1 + w2.len();
    let va = digits_value(a, 10) as i32;
    let vb = digits_value(b, 10) as i32;
    assert(n == pb + b.len());
    assert forall|m: int| 0 <= m < pa implies s[m] == #[trigger] a[m] by {}
    assert forall|m: int| 0 <= m < w1.len() implies s[pa + m] == #[trigger] w1[m] by {}
    assert(s[po] == c);
    assert forall|m: int| 0 <= m < w2.len() implies s[po + 1 + m] == #[trigger] w2[m] by {}
    assert forall|m: int| 0 <= m < b.len() implies s[pb + m] == #[trigger] b[m] by {}
    assert forall|m: int| pa <= m < po implies is_space(#[trigger] s[m]) by {
        assert(s[pa + (m - pa)] == w1[m - pa]);
    }
    assert forall|m: int| po + 1 <= m < pb implies is_space(#[trigger] s[m]) by {
        assert(s[po + 1 + (m - po - 1)] == w2[m - po - 1]);
    }
    // The first literal, the operator, the second literal, the end.
    if w1.len() > 0 {
        assert(s[pa] == w1[0]);
    }
    lemma_decimal_lexeme(s, 0, 0, pa, a);
    lemma_skip_to(s, pa, po);
    assert(lexeme_at(s, pa) == (Lex { token: Some(op_token(op)), start: po, end: po + 1 }));
    lemma_decimal_lexeme(s, po + 1, pb, n, b);
    lemma_skip_to(s, n, n);
    assert(lexeme_at(s, n) == (Lex { token: None, start: n, end: n }));
    lemma_decimal_value(a);
    lemma_decimal_value(b);
    lemma_digits_value_nonneg(a, 10);
    lemma_digits_value_nonneg(b, 10);
    assert(spec_factor(s, 0) == Outcome::Parsed(Ast::Int(va), pa));
    assert(spec_factor(s, po + 1) == Outcome::Parsed(Ast::Int(vb), n));
    let t = op_tree(op, Ast::Int(va), Ast::Int(vb));
    match op {
        ArithOp::Mul | ArithOp::Div => {
            assert(term_tail(s, n, t) == Outcome::Parsed(t, n));
            assert(term_tail(s, pa, Ast::Int(va)) == Outcome::Parsed(t, n));
            assert(spec_term(s, 0) == Outcome::Parsed(t, n));
            assert(expr_tail(s, n, t) == Outcome::Parsed(t, n));
        },
        ArithOp::Add | ArithOp::Sub => {
            assert(term_tail(s, pa, Ast::Int(va)) == Outcome::Parsed(Ast::Int(va), pa));
            assert(spec_term(s, 0) == Outcome::Parsed(Ast::Int(va), pa));
            assert(term_tail(s, n, Ast::Int(vb)) == Outcome::Parsed(Ast::Int(vb), n));
            assert(spec_term(s, po + 1) == Outcome::Parsed(Ast::Int(vb), n));
            assert(expr_tail(s, n, t) == Outcome::Parsed(t, n));
            assert(expr_tail(s, pa, Ast::Int(va)) == Outcome::Parsed(t, n));
        },
    }
    assert(spec_expr(s, 0) == Outcome::Parsed(t, n));
    assert(eval_ast(Ast::Int(va)) == Some(Value::Int32(va)));
    assert(eval_ast(Ast::Int(vb)) == Some(Value::Int32(vb)));
}

} // verus!
