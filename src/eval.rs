//! The tree-walking evaluator. Unlike the strict value operators, it answers
//! `None` where an operation has no result.
use crate::types::{Ast, DataValue, Node, Value};
use crate::value::{apply, opt_value, value_arith, ArithOp};
use vstd::prelude::*;

verus! {

/// A binary node's result from its operands' results: both must be `Int32`,
/// and the arithmetic must have an `i32` result.
pub open spec fn tree_arith(op: ArithOp, a: Option<Value>, b: Option<Value>) -> Option<Value> {
    match (a, b) {
        (Some(Value::Int32(x)), Some(Value::Int32(y))) => value_arith(
            op,
            Value::Int32(x),
            Value::Int32(y),
        ),
        _ => None,
    }
}

/// What a tree evaluates to. Identifiers have no value; definitions and
/// assignments bind nothing and yield `Null`.
pub open spec fn eval_ast(a: Ast) -> Option<Value>
    decreases a,
{
    match a {
        Ast::Int(v) => Some(Value::Int32(v)),
        Ast::Str(t) => Some(Value::Str(t)),
        Ast::Chr(c) => Some(Value::Chr(c)),
        Ast::Ident(_) => None,
        Ast::Add(l, r) => tree_arith(ArithOp::Add, eval_ast(*l), eval_ast(*r)),
        Ast::Sub(l, r) => tree_arith(ArithOp::Sub, eval_ast(*l), eval_ast(*r)),
        Ast::Mul(l, r) => tree_arith(ArithOp::Mul, eval_ast(*l), eval_ast(*r)),
        Ast::Div(l, r) => tree_arith(ArithOp::Div, eval_ast(*l), eval_ast(*r)),
        Ast::VarDef(_, _, _) => Some(Value::Null),
        Ast::Assign(_, _) => Some(Value::Null),
    }
}

fn combine(op: ArithOp, a: DataValue, b: DataValue) -> (r: Option<DataValue>)
    ensures
        opt_value(r) == tree_arith(op, Some(a@), Some(b@)),
{
    match (a, b) {
        (DataValue::Int32(x), DataValue::Int32(y)) => apply(
            op,
            DataValue::Int32(x),
            DataValue::Int32(y),
        ),
        _ => None,
    }
}

impl Node {
    /// Evaluates the tree.
    pub fn eval(&self) -> (r: Option<DataValue>)
        ensures
            opt_value(r) == eval_ast(self@),
        decreases self,
    {
        let (op, l, r) = match self {
            Node::IntLiteral(v) => {
                return Some(DataValue::Int32(*v));
            },
            Node::StringLiteral(s) => {
                return Some(DataValue::String(s.clone()));
            },
            Node::CharLiteral(c) => {
                return Some(DataValue::Char(*c));
            },
            Node::Ident(_) => {
                return None;
            },
            Node::VariableDefinition(_, _, _) => {
                return Some(DataValue::Null);
            },
            Node::Assignment(_, _) => {
                return Some(DataValue::Null);
            },
            Node::Add(l, r) => (ArithOp::Add, l, r),
            Node::Sub(l, r) => (ArithOp::Sub, l, r),
            Node::Mul(l, r) => (ArithOp::Mul, l, r),
            Node::Div(l, r) => (ArithOp::Div, l, r),
        };
        let a = match l.eval() {
            Some(a) => a,
            None => {
                return None;
            },
        };
        let b = match r.eval() {
            Some(b) => b,
            None => {
                return None;
            },
        };
        combine(op, a, b)
    }
}

} // verus!
