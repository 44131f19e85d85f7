use vstd::prelude::*;

verus! {

/// The kinds of token the scanner produces. A token carries no text: the
/// characters it covers are read from the source by position.
#[derive(Debug, Clone, Copy, PartialEq, Eq, Structural)]
pub enum Token {
    LParent,
    RParent,
    Equal,
    Add,
    Sub,
    Mul,
    Div,
    Colon,
    StringLiteral,
    CharLiteral,
    Int10Literal,
    Int2Literal,
    Int8Literal,
    Int16Literal,
    Ident,
}

/// A syntax tree. Every child is owned by its parent.
#[derive(Debug)]
pub enum Node {
    IntLiteral(i32),
    StringLiteral(String),
    CharLiteral(char),
    Ident(String),
    Add(Box<Node>, Box<Node>),
    Sub(Box<Node>, Box<Node>),
    Mul(Box<Node>, Box<Node>),
    Div(Box<Node>, Box<Node>),
    /// `let name (: type)? = value`
    VariableDefinition(String, Option<String>, Box<Node>),
    /// `name = value`
    Assignment(String, Box<Node>),
}

/// The mathematical form of a `Node`: strings become character sequences.
pub enum Ast {
    Int(i32),
    Str(Seq<char>),
    Chr(char),
    Ident(Seq<char>),
    Add(Box<Ast>, Box<Ast>),
    Sub(Box<Ast>, Box<Ast>),
    Mul(Box<Ast>, Box<Ast>),
    Div(Box<Ast>, Box<Ast>),
    VarDef(Seq<char>, Option<Seq<char>>, Box<Ast>),
    Assign(Seq<char>, Box<Ast>),
}

pub open spec fn opt_text(t: Option<String>) -> Option<Seq<char>> {
    match t {
        Some(s) => Some(s@),
        None => None,
    }
}

impl Node {
    pub open spec fn view(&self) -> Ast
        decreases self,
    {
        match self {
            Node::IntLiteral(v) => Ast::Int(*v),
            Node::StringLiteral(s) => Ast::Str(s@),
            Node::CharLiteral(c) => Ast::Chr(*c),
            Node::Ident(s) => Ast::Ident(s@),
            Node::Add(l, r) => Ast::Add(Box::new(l.view()), Box::new(r.view())),
            Node::Sub(l, r) => Ast::Sub(Box::new(l.view()), Box::new(r.view())),
            Node::Mul(l, r) => Ast::Mul(Box::new(l.view()), Box::new(r.view())),
            Node::Div(l, r) => Ast::Div(Box::new(l.view()), Box::new(r.view())),
            Node::VariableDefinition(n, t, v) => Ast::VarDef(n@, opt_text(*t), Box::new(v.view())),
            Node::Assignment(n, v) => Ast::Assign(n@, Box::new(v.view())),
        }
    }
}

/// A runtime value.
#[derive(Debug)]
pub enum DataValue {
    Int64(i64),
    Int32(i32),
    Int16(i16),
    Int8(i8),
    String(String),
    Char(char),
    Null,
}

/// The mathematical form of a `DataValue`.
pub enum Value {
    Int64(i64),
    Int32(i32),
    Int16(i16),
    Int8(i8),
    Str(Seq<char>),
    Chr(char),
    Null,
}

impl DataValue {
    pub open spec fn view(&self) -> Value {
        match self {
            DataValue::Int64(v) => Value::Int64(*v),
            DataValue::Int32(v) => Value::Int32(*v),
            DataValue::Int16(v) => Value::Int16(*v),
            DataValue::Int8(v) => Value::Int8(*v),
            DataValue::String(s) => Value::Str(s@),
            DataValue::Char(c) => Value::Chr(*c),
            DataValue::Null => Value::Null,
        }
    }
}

} // verus!
