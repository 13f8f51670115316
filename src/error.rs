use vstd::prelude::*;
use crate::lexer::LexError;
use crate::tokens::{ArithmeticOp, Keyword, Punct, Token};

verus! {

/// What the parser looked for where it found something else.
#[derive(Clone, Copy, Debug, PartialEq, Eq, Structural)]
pub enum Expected {
    Keyword(Keyword),
    Punctuation(Punct),
    Identifier,
    TypeName,
    Factor,
}

#[derive(Debug, PartialEq)]
pub enum SyntaxError {
    /// `found`, which starts at `pos`, stands where `expected` should.
    UnexpectedToken { expected: Expected, found: Token, pos: usize },
}

#[derive(Debug, PartialEq)]
pub enum SemanticError {
    /// `name` is declared twice in the scope named `scope`.
    DuplicateDeclaration { name: String, scope: String },
    /// `name`, used in the scope named `scope`, is declared neither there nor
    /// in an enclosing scope.
    UndeclaredVariable { name: String, scope: String },
}

/// A semantic error, with names as character sequences.
pub enum Fault {
    DuplicateDeclaration { name: Seq<char>, scope: Seq<char> },
    UndeclaredVariable { name: Seq<char>, scope: Seq<char> },
}

impl View for SemanticError {
    type V = Fault;

    open spec fn view(&self) -> Fault {
        match self {
            SemanticError::DuplicateDeclaration { name, scope } => Fault::DuplicateDeclaration {
                name: name@,
                scope: scope@,
            },
            SemanticError::UndeclaredVariable { name, scope } => Fault::UndeclaredVariable {
                name: name@,
                scope: scope@,
            },
        }
    }
}

#[derive(Debug, PartialEq)]
pub enum RuntimeError {
    /// The right operand of `op` is zero (after truncation, for `DIV`).
    DivisionByZero { op: ArithmeticOp },
    /// The result of `op` does not fit in `i64`.
    Overflow { op: ArithmeticOp },
    /// `name` is read before anything was assigned to it.
    UnassignedVariable { name: String },
}

/// A runtime error, with names as character sequences.
pub enum RunFault {
    DivisionByZero { op: ArithmeticOp },
    Overflow { op: ArithmeticOp },
    UnassignedVariable { name: Seq<char> },
}

impl View for RuntimeError {
    type V = RunFault;

    open spec fn view(&self) -> RunFault {
        match self {
            RuntimeError::DivisionByZero { op } => RunFault::DivisionByZero { op: *op },
            RuntimeError::Overflow { op } => RunFault::Overflow { op: *op },
            RuntimeError::UnassignedVariable { name } => RunFault::UnassignedVariable {
                name: name@,
            },
        }
    }
}

/// Why a run failed; the first error ends it.
#[derive(Debug, PartialEq)]
pub enum Error {
    Lex(LexError),
    Syntax(SyntaxError),
    Semantic(SemanticError),
    Runtime(RuntimeError),
}

} // verus!
