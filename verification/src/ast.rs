//! The abstract syntax tree handed to the generator by the parser, and the
//! structured errors the generator reports back.

use vstd::prelude::*;

verus! {

/// An expression node.  Every value is a 64-bit integer; `Infix` carries the
/// operator symbol exactly as the parser saw it, and `Callable` the name of a
/// built-in together with its single argument.
pub enum ExpressionNode {
    Value(i64),
    Var(String),
    Infix(Box<ExpressionNode>, String, Box<ExpressionNode>),
    Callable(String, Box<ExpressionNode>),
}

/// A top-level statement node.
pub enum StatementNode {
    Exit(ExpressionNode),
    Assign(String, ExpressionNode),
    For(String, ExpressionNode),
    EndFor,
}

/// A failure detected while lowering.  Each user-facing kind carries the
/// offending name or symbol; generation aborts at the first failure and no
/// partial assembly is handed out.
#[derive(Debug)]
pub enum GenError {
    /// A variable was referenced without a prior binding whose stack slot
    /// already exists.
    UndeclaredVariable(String),
    /// A call named a built-in outside `print` and `range`.
    UndeclaredFunction(String),
    /// An infix operator outside `+`, `-` and `*`.
    UnsupportedOperator(String),
    /// A construct this generator deliberately does not lower yet
    /// (`print` bodies, `EndFor`).
    NotImplemented,
}

/// The mathematical shape of a `GenError`: the same variants over character
/// sequences instead of heap strings.
pub ghost enum ErrKind {
    UndeclaredVariable(Seq<char>),
    UndeclaredFunction(Seq<char>),
    UnsupportedOperator(Seq<char>),
    NotImplemented,
}

impl View for GenError {
    type V = ErrKind;

    open spec fn view(&self) -> ErrKind {
        match self {
            GenError::UndeclaredVariable(name) => ErrKind::UndeclaredVariable(name@),
            GenError::UndeclaredFunction(name) => ErrKind::UndeclaredFunction(name@),
            GenError::UnsupportedOperator(op) => ErrKind::UnsupportedOperator(op@),
            GenError::NotImplemented => ErrKind::NotImplemented,
        }
    }
}

} // verus!
