use vstd::prelude::*;
use crate::tokens::{ArithmeticOp, Real};

verus! {

/// The declared type of a variable or parameter.
#[derive(Clone, Copy, Debug, PartialEq, Eq, Structural)]
pub enum TypeSpec {
    Integer,
    Real,
}

/// A value at run time.
#[derive(Clone, Copy, Debug, PartialEq, Eq, Structural)]
pub enum VariableValue {
    Integer(i64),
    Real(Real),
    /// What declarations and empty statements produce.
    Absent,
}

/// A node of the syntax tree. Lists are chains: a `Compound`, `VarDecl` or
/// `Param` holds its first element and the rest of the list.
#[derive(Debug, PartialEq)]
pub enum AST {
    /// A numeric literal.
    Num(VariableValue),
    /// A variable read, by its upper-case name.
    Var(String),
    BinOp(ArithmeticOp, Box<AST>, Box<AST>),
    UnaryOp(ArithmeticOp, Box<AST>),
    /// An assignment to the named variable.
    Assign(String, Box<AST>),
    /// A statement, or a procedure declaration, and the rest of its list.
    Compound(Box<AST>, Option<Box<AST>>),
    /// A declared variable, its type and the next declaration (`NoOp` at the end).
    VarDecl(String, TypeSpec, Box<AST>),
    /// A formal parameter, its type and the next parameter (`NoOp` at the end).
    Param(String, TypeSpec, Box<AST>),
    /// A procedure's name, its parameters and its block.
    ProcedureDecl(String, Box<AST>, Box<AST>),
    /// A block: its variable declarations, its procedure declarations and its
    /// statements.
    Block(Box<AST>, Box<AST>, Box<AST>),
    /// The empty statement, and the end of a list.
    NoOp,
}

pub open spec fn wf_value(v: VariableValue) -> bool {
    match v {
        VariableValue::Real(x) => x.wf(),
        _ => true,
    }
}

/// Every real literal in the tree has a positive denominator.
pub open spec fn wf_ast(node: AST) -> bool
    decreases node,
{
    match node {
        AST::Num(v) => wf_value(v),
        AST::BinOp(_, l, r) => wf_ast(*l) && wf_ast(*r),
        AST::UnaryOp(_, x) => wf_ast(*x),
        AST::Assign(_, e) => wf_ast(*e),
        AST::Compound(first, rest) => wf_ast(*first) && match rest {
            None => true,
            Some(r) => wf_ast(*r),
        },
        AST::VarDecl(_, _, next) => wf_ast(*next),
        AST::Param(_, _, next) => wf_ast(*next),
        AST::ProcedureDecl(_, params, block) => wf_ast(*params) && wf_ast(*block),
        AST::Block(vars, procs, body) => wf_ast(*vars) && wf_ast(*procs) && wf_ast(*body),
        _ => true,
    }
}

/// A chain of `VarDecl` or `Param` nodes ending in `NoOp`.
pub open spec fn is_decl_chain(n: AST) -> bool
    decreases n,
{
    match n {
        AST::VarDecl(_, _, next) => is_decl_chain(*next),
        AST::Param(_, _, next) => is_decl_chain(*next),
        AST::NoOp => true,
        _ => false,
    }
}

/// Statements and expressions, with no declaration inside.
pub open spec fn is_code(n: AST) -> bool
    decreases n,
{
    match n {
        AST::Num(_) => true,
        AST::Var(_) => true,
        AST::NoOp => true,
        AST::BinOp(_, l, r) => is_code(*l) && is_code(*r),
        AST::UnaryOp(_, x) => is_code(*x),
        AST::Assign(_, e) => is_code(*e),
        AST::Compound(first, rest) => is_code(*first) && match rest {
            None => true,
            Some(r) => is_code(*r),
        },
        _ => false,
    }
}

/// A block as the parser builds it: variable declarations, a list of
/// procedure declarations, statements.
pub open spec fn is_block(n: AST) -> bool
    decreases n,
{
    match n {
        AST::Block(vars, procs, body) => is_decl_chain(*vars) && is_proc_list(*procs) && is_code(
            *body,
        ),
        _ => false,
    }
}

pub open spec fn is_proc_list(n: AST) -> bool
    decreases n,
{
    match n {
        AST::NoOp => true,
        AST::Compound(first, rest) => (match *first {
            AST::ProcedureDecl(_, params, blk) => is_decl_chain(*params) && is_block(*blk),
            _ => false,
        }) && (match rest {
            None => true,
            Some(r) => is_proc_list(*r),
        }),
        _ => false,
    }
}

} // verus!
