//! Abstract-syntax-tree node definitions: plain tagged-union data with no
//! behavior, produced by the grammar-level parser that consumes the token
//! stream. The lexer itself never builds these values.

use vstd::prelude::*;

verus! {

/// A pattern on the left-hand side of a binding or a case alternative.
#[derive(PartialEq, Debug)]
pub enum Pattern {
    NamedSubPattern { name: String, subpattern: Box<Pattern> },
    RecordPattern(Vec<(String, Pattern)>),
    TuplePattern(Vec<Pattern>),
    NamePattern(String),
    EnumPattern { constructor: String, arguments: Vec<Pattern> },
}

/// One binding of a `let` expression.
#[derive(PartialEq, Debug)]
pub struct LetBinding {
    pub name: String,
    pub arguments: Vec<Pattern>,
    pub body: Box<Expression>,
}

/// One alternative of a `case` expression.
#[derive(PartialEq, Debug)]
pub struct CaseAlternative {
    pub pattern: Pattern,
    pub body: Box<Expression>,
}

/// An expression of the language.
#[derive(PartialEq, Debug)]
pub enum Expression {
    Literal(i64),
    Variable(String),
    Call(Vec<Expression>),
    Tuple(Vec<Expression>),
    List(Vec<Expression>),
    Let { bindings: Vec<LetBinding>, body: Box<Expression> },
    Case(Vec<CaseAlternative>),
}

/// The name and argument list of a function.
#[derive(PartialEq, Debug)]
pub struct Prototype {
    pub name: String,
    pub args: Vec<String>,
}

/// A function definition: a prototype together with a body.
#[derive(PartialEq, Debug)]
pub struct Function {
    pub prototype: Prototype,
    pub body: Box<Expression>,
}

/// A top-level statement: a bare declaration or a full definition.
#[derive(PartialEq, Debug)]
pub enum Statement {
    Declaration(Prototype),
    Definition(Function),
}

/// A whole module: its top-level statements in source order.
#[derive(PartialEq, Debug)]
pub struct Module {
    pub statements: Vec<Statement>,
}

} // verus!
