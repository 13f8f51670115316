use vstd::prelude::*;
use crate::ast::{is_block, is_code, is_decl_chain, is_proc_list, wf_ast, TypeSpec, VariableValue, AST};
use crate::error::{Error, Expected, SyntaxError};
use crate::lexer::{tokenize, tokens_wf, view_tokens, LexError, Lexer};
use crate::tokens::{ArithmeticOp, Keyword, Punct, Token};

verus! {

/// The tokens of a text, each with the position where it starts, and the
/// lexical error that ended them, if any.
pub struct Stream {
    pub toks: Seq<(Token, usize)>,
    pub err: Option<LexError>,
}

/// The token at index `i`.
pub open spec fn cur(s: Stream, i: nat) -> Token {
    if i < s.toks.len() {
        s.toks[i as int].0
    } else {
        Token::EndOfInput
    }
}

pub open spec fn pos_at(s: Stream, i: nat) -> usize {
    if i < s.toks.len() {
        s.toks[i as int].1
    } else {
        0
    }
}

pub open spec fn unexpected(s: Stream, i: nat, expected: Expected) -> Error {
    Error::Syntax(SyntaxError::UnexpectedToken { expected, found: cur(s, i), pos: pos_at(s, i) })
}

/// Moving past the token at `i`, which reads the next one: this fails where
/// the next one could not be read.
pub open spec fn advance(s: Stream, i: nat) -> Result<(), Error> {
    if i + 1 >= s.toks.len() && s.err is Some {
        Err(Error::Lex(s.err->0))
    } else {
        Ok(())
    }
}

pub open spec fn measure(s: Stream, i: nat) -> nat {
    if i <= s.toks.len() {
        (s.toks.len() - i) as nat
    } else {
        0
    }
}

/// The punctuation `p` at `i`, which is then moved past.
pub open spec fn expect_punct(s: Stream, i: nat, p: Punct) -> Result<(), Error> {
    if cur(s, i) == Token::Punctuation(p) {
        advance(s, i)
    } else {
        Err(unexpected(s, i, Expected::Punctuation(p)))
    }
}

/// The keyword `k` at `i`, which is then moved past.
pub open spec fn expect_keyword(s: Stream, i: nat, k: Keyword) -> Result<(), Error> {
    if cur(s, i) == Token::Keyword(k) {
        advance(s, i)
    } else {
        Err(unexpected(s, i, Expected::Keyword(k)))
    }
}

/// The identifier at `i`, which is then moved past.
pub open spec fn ident(s: Stream, i: nat) -> Result<String, Error> {
    match cur(s, i) {
        Token::Identifier(name) => match advance(s, i) {
            Ok(_) => Ok(name),
            Err(e) => Err(e),
        },
        _ => Err(unexpected(s, i, Expected::Identifier)),
    }
}

/// The type name at `i`, which is then moved past.
pub open spec fn type_spec(s: Stream, i: nat) -> Result<TypeSpec, Error> {
    match cur(s, i) {
        Token::Keyword(Keyword::Integer) => match advance(s, i) {
            Ok(_) => Ok(TypeSpec::Integer),
            Err(e) => Err(e),
        },
        Token::Keyword(Keyword::Real) => match advance(s, i) {
            Ok(_) => Ok(TypeSpec::Real),
            Err(e) => Err(e),
        },
        _ => Err(unexpected(s, i, Expected::TypeName)),
    }
}

/// `ident ("," ident)*` at `i`, its names appended to `acc`; with the number
/// of tokens read.
pub open spec fn p_id_list(s: Stream, acc: Seq<String>, i: nat) -> Result<(Seq<String>, nat), Error>
    decreases measure(s, i),
{
    match ident(s, i) {
        Err(e) => Err(e),
        Ok(name) => {
            if cur(s, i + 1) == Token::Punctuation(Punct::Comma) {
                match advance(s, i + 1) {
                    Err(e) => Err(e),
                    Ok(_) => match p_id_list(s, acc.push(name), i + 2) {
                        Ok((names, k)) => Ok((names, k + 2)),
                        Err(e) => Err(e),
                    },
                }
            } else {
                Ok((acc.push(name), 1))
            }
        },
    }
}

/// The declarations of `names`, all of type `ty`, in order, followed by `rest`.
pub open spec fn chain(names: Seq<String>, ty: TypeSpec, rest: AST, param: bool) -> AST
    decreases names.len(),
{
    if names.len() == 0 {
        rest
    } else {
        let node = if param {
            AST::Param(names.last(), ty, Box::new(rest))
        } else {
            AST::VarDecl(names.last(), ty, Box::new(rest))
        };
        chain(names.drop_last(), ty, node, param)
    }
}

/// `{ "VAR" (ident ("," ident)* ":" type ";")+ }` at `i`, as a `VarDecl` chain.
pub open spec fn p_var_part(s: Stream, i: nat) -> Result<(AST, nat), Error>
    decreases measure(s, i),
{
    if cur(s, i) == Token::Keyword(Keyword::Var) {
        match advance(s, i) {
            Err(e) => Err(e),
            Ok(_) => match p_var_groups(s, i + 1) {
                Ok((a, k)) => Ok((a, k + 1)),
                Err(e) => Err(e),
            },
        }
    } else {
        Ok((AST::NoOp, 0))
    }
}

/// One or more groups `ident ("," ident)* ":" type ";"` at `i`, then the rest
/// of the variable declarations.
pub open spec fn p_var_groups(s: Stream, i: nat) -> Result<(AST, nat), Error>
    decreases measure(s, i),
{
    match p_id_list(s, Seq::empty(), i) {
        Err(e) => Err(e),
        Ok((names, k1)) => {
            let j = i + k1;
            match expect_punct(s, j, Punct::Colon) {
                Err(e) => Err(e),
                Ok(_) => match type_spec(s, j + 1) {
                    Err(e) => Err(e),
                    Ok(ty) => match expect_punct(s, j + 2, Punct::Semicolon) {
                        Err(e) => Err(e),
                        Ok(_) => {
                            let rest = if cur(s, j + 3) is Identifier {
                                p_var_groups(s, j + 3)
                            } else {
                                p_var_part(s, j + 3)
                            };
                            match rest {
                                Err(e) => Err(e),
                                Ok((r, k2)) => Ok((chain(names, ty, r, false), k1 + 3 + k2)),
                            }
                        },
                    },
                },
            }
        },
    }
}

/// `ident ("," ident)* ":" type (";" param_list)?` at `i`, as a `Param` chain.
pub open spec fn p_param_groups(s: Stream, i: nat) -> Result<(AST, nat), Error>
    decreases measure(s, i),
{
    match p_id_list(s, Seq::empty(), i) {
        Err(e) => Err(e),
        Ok((names, k1)) => {
            let j = i + k1;
            match expect_punct(s, j, Punct::Colon) {
                Err(e) => Err(e),
                Ok(_) => match type_spec(s, j + 1) {
                    Err(e) => Err(e),
                    Ok(ty) => {
                        if cur(s, j + 2) == Token::Punctuation(Punct::Semicolon) {
                            match advance(s, j + 2) {
                                Err(e) => Err(e),
                                Ok(_) => match p_param_groups(s, j + 3) {
                                    Err(e) => Err(e),
                                    Ok((r, k2)) => Ok((chain(names, ty, r, true), k1 + 3 + k2)),
                                },
                            }
                        } else {
                            Ok((chain(names, ty, AST::NoOp, true), k1 + 2))
                        }
                    },
                },
            }
        },
    }
}

/// `[ "(" param_list ")" ]` at `i`.
pub open spec fn p_formal_params(s: Stream, i: nat) -> Result<(AST, nat), Error> {
    if cur(s, i) == Token::Punctuation(Punct::LParen) {
        match advance(s, i) {
            Err(e) => Err(e),
            Ok(_) => match p_param_groups(s, i + 1) {
                Err(e) => Err(e),
                Ok((ps, k)) => match expect_punct(s, i + 1 + k, Punct::RParen) {
                    Err(e) => Err(e),
                    Ok(_) => Ok((ps, k + 2)),
                },
            },
        }
    } else {
        Ok((AST::NoOp, 0))
    }
}

/// `declarations compound_statement` at `i`.
pub open spec fn p_block(s: Stream, i: nat) -> Result<(AST, nat), Error>
    decreases measure(s, i), 10nat,
{
    match p_var_part(s, i) {
        Err(e) => Err(e),
        Ok((vars, k1)) => match p_procedures(s, i + k1) {
            Err(e) => Err(e),
            Ok((procs, k2)) => match p_compound(s, i + k1 + k2) {
                Err(e) => Err(e),
                Ok((body, k3)) => Ok(
                    (AST::Block(Box::new(vars), Box::new(procs), Box::new(body)), k1 + k2 + k3),
                ),
            },
        },
    }
}

/// `{ "PROCEDURE" ident [ "(" param_list ")" ] ";" block ";" }` at `i`, as a
/// `Compound` chain ending in `NoOp`.
pub open spec fn p_procedures(s: Stream, i: nat) -> Result<(AST, nat), Error>
    decreases measure(s, i), 9nat,
{
    if cur(s, i) == Token::Keyword(Keyword::Procedure) {
        match advance(s, i) {
            Err(e) => Err(e),
            Ok(_) => match ident(s, i + 1) {
                Err(e) => Err(e),
                Ok(name) => match p_formal_params(s, i + 2) {
                    Err(e) => Err(e),
                    Ok((params, k1)) => {
                        let j = i + 2 + k1;
                        match expect_punct(s, j, Punct::Semicolon) {
                            Err(e) => Err(e),
                            Ok(_) => match p_block(s, j + 1) {
                                Err(e) => Err(e),
                                Ok((blk, k2)) => {
                                    let m = j + 1 + k2;
                                    match expect_punct(s, m, Punct::Semicolon) {
                                        Err(e) => Err(e),
                                        Ok(_) => match p_procedures(s, m + 1) {
                                            Err(e) => Err(e),
                                            Ok((rest, k3)) => Ok(
                                                (
                                                    AST::Compound(
                                                        Box::new(
                                                            AST::ProcedureDecl(
                                                                name,
                                                                Box::new(params),
                                                                Box::new(blk),
                                                            ),
                                                        ),
                                                        Some(Box::new(rest)),
                                                    ),
                                                    k1 + k2 + k3 + 4,
                                                ),
                                            ),
                                        },
                                    }
                                },
                            },
                        }
                    },
                },
            },
        }
    } else {
        Ok((AST::NoOp, 0))
    }
}

/// `"BEGIN" stmt_list "END"` at `i`.
pub open spec fn p_compound(s: Stream, i: nat) -> Result<(AST, nat), Error>
    decreases measure(s, i), 6nat,
{
    match expect_keyword(s, i, Keyword::Begin) {
        Err(e) => Err(e),
        Ok(_) => match p_statement_list(s, i + 1) {
            Err(e) => Err(e),
            Ok((list, k)) => match expect_keyword(s, i + 1 + k, Keyword::End) {
                Err(e) => Err(e),
                Ok(_) => Ok((list, k + 2)),
            },
        },
    }
}

/// `statement (";" statement)*` at `i`, as a `Compound` chain.
pub open spec fn p_statement_list(s: Stream, i: nat) -> Result<(AST, nat), Error>
    decreases measure(s, i), 8nat,
{
    match p_statement(s, i) {
        Err(e) => Err(e),
        Ok((st, k1)) => {
            if cur(s, i + k1) == Token::Punctuation(Punct::Semicolon) {
                match advance(s, i + k1) {
                    Err(e) => Err(e),
                    Ok(_) => match p_statement_list(s, i + k1 + 1) {
                        Err(e) => Err(e),
                        Ok((rest, k2)) => Ok(
                            (AST::Compound(Box::new(st), Some(Box::new(rest))), k1 + 1 + k2),
                        ),
                    },
                }
            } else {
                Ok((AST::Compound(Box::new(st), None), k1))
            }
        },
    }
}

/// `compound_statement | assignment | empty` at `i`.
pub open spec fn p_statement(s: Stream, i: nat) -> Result<(AST, nat), Error>
    decreases measure(s, i), 7nat,
{
    match cur(s, i) {
        Token::Keyword(Keyword::Begin) => p_compound(s, i),
        Token::Identifier(_) => p_assignment(s, i),
        _ => Ok((AST::NoOp, 0)),
    }
}

/// `variable ":=" expr` at `i`.
pub open spec fn p_assignment(s: Stream, i: nat) -> Result<(AST, nat), Error>
    decreases measure(s, i), 6nat,
{
    match ident(s, i) {
        Err(e) => Err(e),
        Ok(name) => match expect_punct(s, i + 1, Punct::Assign) {
            Err(e) => Err(e),
            Ok(_) => match p_expr(s, i + 2) {
                Err(e) => Err(e),
                Ok((e, k)) => Ok((AST::Assign(name, Box::new(e)), k + 2)),
            },
        },
    }
}

pub open spec fn is_additive(t: Token) -> bool {
    t == Token::Operator(ArithmeticOp::Plus) || t == Token::Operator(ArithmeticOp::Minus)
}

pub open spec fn is_multiplicative(t: Token) -> bool {
    t == Token::Operator(ArithmeticOp::Mul) || t == Token::Operator(ArithmeticOp::RealDiv)
        || t == Token::Operator(ArithmeticOp::IntDiv)
}

/// `term (("+"|"-") term)*` at `i`.
pub open spec fn p_expr(s: Stream, i: nat) -> Result<(AST, nat), Error>
    decreases measure(s, i), 5nat,
{
    match p_term(s, i) {
        Err(e) => Err(e),
        Ok((t, k1)) => match p_expr_tail(s, t, i + k1) {
            Err(e) => Err(e),
            Ok((e, k2)) => Ok((e, k1 + k2)),
        },
    }
}

/// `(("+"|"-") term)*` at `i`, each one folded onto `acc` from the left.
pub open spec fn p_expr_tail(s: Stream, acc: AST, i: nat) -> Result<(AST, nat), Error>
    decreases measure(s, i), 4nat,
{
    if is_additive(cur(s, i)) {
        let op = cur(s, i)->Operator_0;
        match advance(s, i) {
            Err(e) => Err(e),
            Ok(_) => match p_term(s, i + 1) {
                Err(e) => Err(e),
                Ok((r, k1)) => match p_expr_tail(
                    s,
                    AST::BinOp(op, Box::new(acc), Box::new(r)),
                    i + 1 + k1,
                ) {
                    Err(e) => Err(e),
                    Ok((e, k2)) => Ok((e, 1 + k1 + k2)),
                },
            },
        }
    } else {
        Ok((acc, 0))
    }
}

/// `factor (("*"|"/"|"DIV") factor)*` at `i`.
pub open spec fn p_term(s: Stream, i: nat) -> Result<(AST, nat), Error>
    decreases measure(s, i), 3nat,
{
    match p_factor(s, i) {
        Err(e) => Err(e),
        Ok((f, k1)) => match p_term_tail(s, f, i + k1) {
            Err(e) => Err(e),
            Ok((t, k2)) => Ok((t, k1 + k2)),
        },
    }
}

/// `(("*"|"/"|"DIV") factor)*` at `i`, each one folded onto `acc` from the left.
pub open spec fn p_term_tail(s: Stream, acc: AST, i: nat) -> Result<(AST, nat), Error>
    decreases measure(s, i), 2nat,
{
    if is_multiplicative(cur(s, i)) {
        let op = cur(s, i)->Operator_0;
        match advance(s, i) {
            Err(e) => Err(e),
            Ok(_) => match p_factor(s, i + 1) {
                Err(e) => Err(e),
                Ok((r, k1)) => match p_term_tail(
                    s,
                    AST::BinOp(op, Box::new(acc), Box::new(r)),
                    i + 1 + k1,
                ) {
                    Err(e) => Err(e),
                    Ok((t, k2)) => Ok((t, 1 + k1 + k2)),
                },
            },
        }
    } else {
        Ok((acc, 0))
    }
}

/// `("+"|"-") factor | INTEGER | REAL | "(" expr ")" | variable` at `i`.
pub open spec fn p_factor(s: Stream, i: nat) -> Result<(AST, nat), Error>
    decreases measure(s, i), 1nat,
{
    match cur(s, i) {
        Token::Operator(op) => {
            if op == ArithmeticOp::Plus || op == ArithmeticOp::Minus {
                match advance(s, i) {
                    Err(e) => Err(e),
                    Ok(_) => match p_factor(s, i + 1) {
                        Err(e) => Err(e),
                        Ok((f, k)) => Ok((AST::UnaryOp(op, Box::new(f)), k + 1)),
                    },
                }
            } else {
                Err(unexpected(s, i, Expected::Factor))
            }
        },
        Token::IntegerLiteral(n) => match advance(s, i) {
            Err(e) => Err(e),
            Ok(_) => Ok((AST::Num(VariableValue::Integer(n)), 1)),
        },
        Token::RealLiteral(x) => match advance(s, i) {
            Err(e) => Err(e),
            Ok(_) => Ok((AST::Num(VariableValue::Real(x)), 1)),
        },
        Token::Punctuation(Punct::LParen) => match advance(s, i) {
            Err(e) => Err(e),
            Ok(_) => match p_expr(s, i + 1) {
                Err(e) => Err(e),
                Ok((e, k)) => match expect_punct(s, i + 1 + k, Punct::RParen) {
                    Err(err) => Err(err),
                    Ok(_) => Ok((e, k + 2)),
                },
            },
        },
        Token::Identifier(name) => match advance(s, i) {
            Err(e) => Err(e),
            Ok(_) => Ok((AST::Var(name), 1)),
        },
        _ => Err(unexpected(s, i, Expected::Factor)),
    }
}

/// `[ "PROGRAM" ident ";" ]` at the start: the number of tokens it takes.
pub open spec fn p_heading(s: Stream) -> Result<nat, Error> {
    if cur(s, 0) == Token::Keyword(Keyword::Program) {
        match advance(s, 0) {
            Err(e) => Err(e),
            Ok(_) => match ident(s, 1) {
                Err(e) => Err(e),
                Ok(_) => match expect_punct(s, 2, Punct::Semicolon) {
                    Err(e) => Err(e),
                    Ok(_) => Ok(3),
                },
            },
        }
    } else {
        Ok(0)
    }
}

/// `[ "PROGRAM" ident ";" ] block "."`: the program's block.
pub open spec fn p_program(s: Stream) -> Result<AST, Error> {
    if s.toks.len() == 0 && s.err is Some {
        Err(Error::Lex(s.err->0))
    } else {
        match p_heading(s) {
            Err(e) => Err(e),
            Ok(k1) => match p_block(s, k1) {
                Err(e) => Err(e),
                Ok((b, k2)) => match expect_punct(s, k1 + k2, Punct::Dot) {
                    Err(e) => Err(e),
                    Ok(_) => Ok(b),
                },
            },
        }
    }
}

/// What a program text parses to.
pub open spec fn parse_text(text: Seq<char>, toks: Seq<(Token, usize)>) -> Result<AST, Error> {
    p_program(Stream { toks, err: tokenize(text).1 })
}

/// Moving past the token at `i` reads a token that is there.
pub open spec fn readable(s: Stream, i: nat) -> bool {
    i + 1 < s.toks.len() || s.err is None
}

/// `acc` with each operator of `ops` applied to it and the matching operand,
/// from the left: `(...((acc o1 x1) o2 x2) ... ) ok xk`.
pub open spec fn fold_left(acc: AST, ops: Seq<ArithmeticOp>, operands: Seq<AST>) -> AST
    decreases ops.len(),
{
    if ops.len() == 0 || operands.len() == 0 {
        acc
    } else {
        fold_left(
            AST::BinOp(ops[0], Box::new(acc), Box::new(operands[0])),
            ops.drop_first(),
            operands.drop_first(),
        )
    }
}

/// The number of tokens in `o1 x1 ... ok xk` where `xj` takes `lens[j]` tokens.
pub open spec fn span(lens: Seq<nat>) -> nat
    decreases lens.len(),
{
    if lens.len() == 0 {
        0
    } else {
        1 + lens[0] + span(lens.drop_first())
    }
}

/// From `i` on the tokens are `o1 x1 o2 x2 ... ok xk` and then a token that
/// is not such an operator: each `oj` is the operator `ops[j]`, of the
/// additive level (`additive`) or the multiplicative one, and each `xj` is a
/// term (a factor, at the multiplicative level) that parses to `operands[j]`
/// in `lens[j]` tokens.
pub open spec fn operator_run(
    s: Stream,
    i: nat,
    additive: bool,
    ops: Seq<ArithmeticOp>,
    operands: Seq<AST>,
    lens: Seq<nat>,
) -> bool
    decreases ops.len(),
{
    let is_op = |t: Token|
        if additive {
            is_additive(t)
        } else {
            is_multiplicative(t)
        };
    ops.len() == operands.len() && ops.len() == lens.len() && if ops.len() == 0 {
        !is_op(cur(s, i))
    } else {
        &&& cur(s, i) == Token::Operator(ops[0])
        &&& is_op(cur(s, i))
        &&& readable(s, i)
        &&& (if additive {
            p_term(s, i + 1)
        } else {
            p_factor(s, i + 1)
        }) == Ok::<(AST, nat), Error>((operands[0], lens[0]))
        &&& operator_run(
            s,
            i + 1 + lens[0],
            additive,
            ops.drop_first(),
            operands.drop_first(),
            lens.drop_first(),
        )
    }
}

proof fn lemma_expr_tail(s: Stream, acc: AST, i: nat, ops: Seq<ArithmeticOp>, operands: Seq<AST>, lens: Seq<nat>)
    requires
        operator_run(s, i, true, ops, operands, lens),
    ensures
        p_expr_tail(s, acc, i) == Ok::<(AST, nat), Error>((fold_left(acc, ops, operands), span(lens))),
    decreases ops.len(),
{
    if ops.len() > 0 {
        let next = AST::BinOp(ops[0], Box::new(acc), Box::new(operands[0]));
        lemma_expr_tail(s, next, i + 1 + lens[0], ops.drop_first(), operands.drop_first(), lens.drop_first());
    }
}

proof fn lemma_term_tail(s: Stream, acc: AST, i: nat, ops: Seq<ArithmeticOp>, operands: Seq<AST>, lens: Seq<nat>)
    requires
        operator_run(s, i, false, ops, operands, lens),
    ensures
        p_term_tail(s, acc, i) == Ok::<(AST, nat), Error>((fold_left(acc, ops, operands), span(lens))),
    decreases ops.len(),
{
    if ops.len() > 0 {
        let next = AST::BinOp(ops[0], Box::new(acc), Box::new(operands[0]));
        lemma_term_tail(s, next, i + 1 + lens[0], ops.drop_first(), operands.drop_first(), lens.drop_first());
    }
}

/// `+` and `-` fold to the left, and each of their operands is a whole term
/// (so `*`, `/` and `DIV` bind tighter): `t0 o1 t1 ... ok tk` is
/// `(...((t0 o1 t1) o2 t2) ...) ok tk`.
pub proof fn additive_operators_fold_left(
    s: Stream,
    i: nat,
    first: AST,
    k: nat,
    ops: Seq<ArithmeticOp>,
    terms: Seq<AST>,
    lens: Seq<nat>,
)
    requires
        p_term(s, i) == Ok::<(AST, nat), Error>((first, k)),
        operator_run(s, i + k, true, ops, terms, lens),
    ensures
        p_expr(s, i) == Ok::<(AST, nat), Error>((fold_left(first, ops, terms), k + span(lens))),
{
    lemma_expr_tail(s, first, i + k, ops, terms, lens);
}

/// `*`, `/` and `DIV` fold to the left over factors: `f0 o1 f1 ... ok fk` is
/// `(...((f0 o1 f1) o2 f2) ...) ok fk`.
pub proof fn multiplicative_operators_fold_left(
    s: Stream,
    i: nat,
    first: AST,
    k: nat,
    ops: Seq<ArithmeticOp>,
    factors: Seq<AST>,
    lens: Seq<nat>,
)
    requires
        p_factor(s, i) == Ok::<(AST, nat), Error>((first, k)),
        operator_run(s, i + k, false, ops, factors, lens),
    ensures
        p_term(s, i) == Ok::<(AST, nat), Error>((fold_left(first, ops, factors), k + span(lens))),
{
    lemma_term_tail(s, first, i + k, ops, factors, lens);
}

/// A unary `+` or `-` applies to the whole factor after it, so a chain of
/// them nests to the right: `op f` is `UnaryOp(op, f)`.
pub proof fn unary_operators_nest_right(s: Stream, i: nat, f: AST, k: nat)
    requires
        cur(s, i) == Token::Operator(ArithmeticOp::Plus) || cur(s, i) == Token::Operator(
            ArithmeticOp::Minus,
        ),
        readable(s, i),
        p_factor(s, i + 1) == Ok::<(AST, nat), Error>((f, k)),
    ensures
        p_factor(s, i) == Ok::<(AST, nat), Error>(
            (AST::UnaryOp(cur(s, i)->Operator_0, Box::new(f)), k + 1),
        ),
{
}

/// `UnaryOp(ops[0], UnaryOp(ops[1], ... f))`.
pub open spec fn nest_unary(ops: Seq<ArithmeticOp>, f: AST) -> AST
    decreases ops.len(),
{
    if ops.len() == 0 {
        f
    } else {
        AST::UnaryOp(ops[0], Box::new(nest_unary(ops.drop_first(), f)))
    }
}

/// A chain `u1 u2 ... uk p` of unary `+` and `-` before a factor `p` nests
/// to the right: `UnaryOp(u1, UnaryOp(u2, ... UnaryOp(uk, p)))`.
pub proof fn unary_chain_nests_right(s: Stream, i: nat, ops: Seq<ArithmeticOp>, f: AST, k: nat)
    requires
        forall|j: int|
            0 <= j < ops.len() ==> (#[trigger] ops[j] == ArithmeticOp::Plus || ops[j]
                == ArithmeticOp::Minus) && cur(s, (i + j) as nat) == Token::Operator(ops[j])
                && readable(s, (i + j) as nat),
        p_factor(s, i + ops.len()) == Ok::<(AST, nat), Error>((f, k)),
    ensures
        p_factor(s, i) == Ok::<(AST, nat), Error>((nest_unary(ops, f), k + ops.len())),
    decreases ops.len(),
{
    if ops.len() > 0 {
        let rest = ops.drop_first();
        assert forall|j: int| 0 <= j < rest.len() implies (#[trigger] rest[j] == ArithmeticOp::Plus
            || rest[j] == ArithmeticOp::Minus) && cur(s, (i + 1 + j) as nat) == Token::Operator(
            rest[j],
        ) && readable(s, (i + 1 + j) as nat) by {
            assert(rest[j] == ops[j + 1]);
            assert((i + (j + 1)) as nat == (i + 1 + j) as nat);
        }
        assert(i + 1 + rest.len() == i + ops.len());
        unary_chain_nests_right(s, i + 1, rest, f, k);
        assert(ops[0] == ArithmeticOp::Plus || ops[0] == ArithmeticOp::Minus);
        assert(cur(s, (i + 0) as nat) == Token::Operator(ops[0]));
        unary_operators_nest_right(s, i, nest_unary(rest, f), k + rest.len());
    }
}

/// `r` is what `res` says, and the parser moved from `before` to `after` over the
/// tokens that `res` counts.
pub open spec fn outcome<T>(res: Result<(T, nat), Error>, r: Result<T, Error>, before: nat, after: nat) -> bool {
    match res {
        Ok((a, k)) => r == Ok::<T, Error>(a) && after == before + k,
        Err(e) => r == Err::<T, Error>(e),
    }
}

/// The tree of a program text, read token by token.
#[derive(Debug)]
pub struct Parser {
    pub tokens: Vec<(Token, usize)>,
    pub lex_error: Option<LexError>,
    pub pos: usize,
}

fn clone_token(t: &Token) -> (r: Token)
    ensures
        r == *t,
{
    match t {
        Token::IntegerLiteral(n) => Token::IntegerLiteral(*n),
        Token::RealLiteral(x) => Token::RealLiteral(*x),
        Token::Operator(op) => Token::Operator(*op),
        Token::Identifier(name) => Token::Identifier(name.clone()),
        Token::Keyword(k) => Token::Keyword(*k),
        Token::Punctuation(p) => Token::Punctuation(*p),
        Token::EndOfInput => Token::EndOfInput,
    }
}

/// The declarations of `names`, all of type `ty`, in order, followed by `rest`.
fn make_chain(all: Vec<String>, ty: TypeSpec, rest: AST, param: bool) -> (r: AST)
    requires
        wf_ast(rest),
        is_decl_chain(rest),
    ensures
        r == chain(all@, ty, rest, param),
        wf_ast(r),
        is_decl_chain(r),
{
    let ghost rest0 = rest;
    let mut names = all;
    let mut acc = rest;
    while names.len() > 0
        invariant
            chain(names@, ty, acc, param) == chain(all@, ty, rest0, param),
            wf_ast(acc),
            is_decl_chain(acc),
        decreases names@.len(),
    {
        match names.pop() {
            Some(n) => {
                acc = if param {
                    AST::Param(n, ty, Box::new(acc))
                } else {
                    AST::VarDecl(n, ty, Box::new(acc))
                };
            },
            None => {},
        }
    }
    acc
}

impl Parser {
    pub open spec fn stream(&self) -> Stream {
        Stream { toks: self.tokens@, err: self.lex_error }
    }

    pub open spec fn same_input(&self, other: &Parser) -> bool {
        self.tokens == other.tokens && self.lex_error == other.lex_error && self.pos
            <= self.tokens@.len()
    }

    /// A parser at the start of `text`, whose tokens are all read at once;
    /// they are handed out one at a time, and a lexical error when the parser
    /// moves onto it.
    pub fn new(text: &str) -> (p: Parser)
        ensures
            view_tokens(p.tokens@) == tokenize(text@).0,
            p.lex_error == tokenize(text@).1,
            p.pos == 0,
            tokens_wf(p.tokens@),
    {
        let mut lexer = Lexer::new(text);
        let (tokens, lex_error) = lexer.tokenize();
        Parser { tokens, lex_error, pos: 0 }
    }

    fn cur(&self) -> (r: Token)
        ensures
            r == cur(self.stream(), self.pos as nat),
            tokens_wf(self.tokens@) ==> (r matches Token::RealLiteral(x) ==> x.wf()),
    {
        if self.pos < self.tokens.len() {
            clone_token(&self.tokens[self.pos].0)
        } else {
            Token::EndOfInput
        }
    }

    fn unexpected(&self, expected: Expected) -> (r: Error)
        ensures
            r == unexpected(self.stream(), self.pos as nat, expected),
    {
        let pos = if self.pos < self.tokens.len() {
            self.tokens[self.pos].1
        } else {
            0
        };
        Error::Syntax(SyntaxError::UnexpectedToken { expected, found: self.cur(), pos })
    }

    fn advance(&mut self) -> (r: Result<(), Error>)
        requires
            old(self).pos < old(self).tokens@.len(),
        ensures
            final(self).same_input(old(self)),
            final(self).pos == old(self).pos + 1,
            r == advance(old(self).stream(), old(self).pos as nat),
    {
        let n = self.tokens.len();
        self.pos = self.pos + 1;
        if self.pos >= n {
            match self.lex_error {
                Some(e) => {
                    return Err(Error::Lex(e));
                },
                None => {},
            }
        }
        Ok(())
    }

    fn expect_punct(&mut self, p: Punct) -> (r: Result<(), Error>)
        requires
            old(self).pos <= old(self).tokens@.len(),
        ensures
            final(self).same_input(old(self)),
            r == expect_punct(old(self).stream(), old(self).pos as nat, p),
            r is Ok ==> final(self).pos == old(self).pos + 1,
    {
        let matched = match self.cur() {
            Token::Punctuation(q) => q == p,
            _ => false,
        };
        if matched {
            self.advance()
        } else {
            Err(self.unexpected(Expected::Punctuation(p)))
        }
    }

    fn expect_keyword(&mut self, k: Keyword) -> (r: Result<(), Error>)
        requires
            old(self).pos <= old(self).tokens@.len(),
        ensures
            final(self).same_input(old(self)),
            r == expect_keyword(old(self).stream(), old(self).pos as nat, k),
            r is Ok ==> final(self).pos == old(self).pos + 1,
    {
        let matched = match self.cur() {
            Token::Keyword(q) => q == k,
            _ => false,
        };
        if matched {
            self.advance()
        } else {
            Err(self.unexpected(Expected::Keyword(k)))
        }
    }

    fn ident(&mut self) -> (r: Result<String, Error>)
        requires
            old(self).pos <= old(self).tokens@.len(),
        ensures
            final(self).same_input(old(self)),
            r == ident(old(self).stream(), old(self).pos as nat),
            r is Ok ==> final(self).pos == old(self).pos + 1,
    {
        match self.cur() {
            Token::Identifier(name) => match self.advance() {
                Ok(_) => Ok(name),
                Err(e) => Err(e),
            },
            _ => Err(self.unexpected(Expected::Identifier)),
        }
    }

    fn type_spec(&mut self) -> (r: Result<TypeSpec, Error>)
        requires
            old(self).pos <= old(self).tokens@.len(),
        ensures
            final(self).same_input(old(self)),
            r == type_spec(old(self).stream(), old(self).pos as nat),
            r is Ok ==> final(self).pos == old(self).pos + 1,
    {
        match self.cur() {
            Token::Keyword(Keyword::Integer) => match self.advance() {
                Ok(_) => Ok(TypeSpec::Integer),
                Err(e) => Err(e),
            },
            Token::Keyword(Keyword::Real) => match self.advance() {
                Ok(_) => Ok(TypeSpec::Real),
                Err(e) => Err(e),
            },
            _ => Err(self.unexpected(Expected::TypeName)),
        }
    }

    fn id_list(&mut self, acc: Vec<String>) -> (r: Result<Vec<String>, Error>)
        requires
            old(self).pos <= old(self).tokens@.len(),
        ensures
            final(self).same_input(old(self)),
            match p_id_list(old(self).stream(), acc@, old(self).pos as nat) {
                Ok((names, k)) => r matches Ok(v) && v@ == names && final(self).pos == old(
                    self,
                ).pos + k,
                Err(e) => r == Err::<Vec<String>, Error>(e),
            },
        decreases old(self).tokens@.len() - old(self).pos,
    {
        let mut acc = acc;
        let name = match self.ident() {
            Ok(n) => n,
            Err(e) => {
                return Err(e);
            },
        };
        acc.push(name);
        match self.cur() {
            Token::Punctuation(Punct::Comma) => {
                match self.advance() {
                    Ok(_) => {},
                    Err(e) => {
                        return Err(e);
                    },
                }
                self.id_list(acc)
            },
            _ => Ok(acc),
        }
    }

    fn var_part(&mut self) -> (r: Result<AST, Error>)
        requires
            old(self).pos <= old(self).tokens@.len(),
            tokens_wf(old(self).tokens@),
        ensures
            final(self).same_input(old(self)),
            r matches Ok(a) ==> wf_ast(a),
            r matches Ok(a) ==> is_decl_chain(a),
            outcome(p_var_part(old(self).stream(), old(self).pos as nat), r, old(self).pos as nat, final(self).pos as nat),
        decreases old(self).tokens@.len() - old(self).pos,
    {
        match self.cur() {
            Token::Keyword(Keyword::Var) => {
                match self.advance() {
                    Ok(_) => {},
                    Err(e) => {
                        return Err(e);
                    },
                }
                self.var_groups()
            },
            _ => Ok(AST::NoOp),
        }
    }

    fn var_groups(&mut self) -> (r: Result<AST, Error>)
        requires
            old(self).pos <= old(self).tokens@.len(),
            tokens_wf(old(self).tokens@),
        ensures
            final(self).same_input(old(self)),
            r matches Ok(a) ==> wf_ast(a),
            r matches Ok(a) ==> is_decl_chain(a),
            outcome(p_var_groups(old(self).stream(), old(self).pos as nat), r, old(self).pos as nat, final(self).pos as nat),
        decreases old(self).tokens@.len() - old(self).pos,
    {
        let names = match self.id_list(Vec::new()) {
            Ok(v) => v,
            Err(e) => {
                return Err(e);
            },
        };
        match self.expect_punct(Punct::Colon) {
            Ok(_) => {},
            Err(e) => {
                return Err(e);
            },
        }
        let ty = match self.type_spec() {
            Ok(t) => t,
            Err(e) => {
                return Err(e);
            },
        };
        match self.expect_punct(Punct::Semicolon) {
            Ok(_) => {},
            Err(e) => {
                return Err(e);
            },
        }
        let rest = match self.cur() {
            Token::Identifier(_) => self.var_groups(),
            _ => self.var_part(),
        };
        match rest {
            Ok(r) => Ok(make_chain(names, ty, r, false)),
            Err(e) => Err(e),
        }
    }

    fn param_groups(&mut self) -> (r: Result<AST, Error>)
        requires
            old(self).pos <= old(self).tokens@.len(),
            tokens_wf(old(self).tokens@),
        ensures
            final(self).same_input(old(self)),
            r matches Ok(a) ==> wf_ast(a),
            r matches Ok(a) ==> is_decl_chain(a),
            outcome(p_param_groups(old(self).stream(), old(self).pos as nat), r, old(self).pos as nat, final(self).pos as nat),
        decreases old(self).tokens@.len() - old(self).pos,
    {
        let names = match self.id_list(Vec::new()) {
            Ok(v) => v,
            Err(e) => {
                return Err(e);
            },
        };
        match self.expect_punct(Punct::Colon) {
            Ok(_) => {},
            Err(e) => {
                return Err(e);
            },
        }
        let ty = match self.type_spec() {
            Ok(t) => t,
            Err(e) => {
                return Err(e);
            },
        };
        match self.cur() {
            Token::Punctuation(Punct::Semicolon) => {
                match self.advance() {
                    Ok(_) => {},
                    Err(e) => {
                        return Err(e);
                    },
                }
                match self.param_groups() {
                    Ok(r) => Ok(make_chain(names, ty, r, true)),
                    Err(e) => Err(e),
                }
            },
            _ => Ok(make_chain(names, ty, AST::NoOp, true)),
        }
    }

    fn formal_params(&mut self) -> (r: Result<AST, Error>)
        requires
            old(self).pos <= old(self).tokens@.len(),
            tokens_wf(old(self).tokens@),
        ensures
            final(self).same_input(old(self)),
            r matches Ok(a) ==> wf_ast(a),
            r matches Ok(a) ==> is_decl_chain(a),
            outcome(p_formal_params(old(self).stream(), old(self).pos as nat), r, old(self).pos as nat, final(self).pos as nat),
        decreases old(self).tokens@.len() - old(self).pos,
    {
        match self.cur() {
            Token::Punctuation(Punct::LParen) => {
                match self.advance() {
                    Ok(_) => {},
                    Err(e) => {
                        return Err(e);
                    },
                }
                let ps = match self.param_groups() {
                    Ok(ps) => ps,
                    Err(e) => {
                        return Err(e);
                    },
                };
                match self.expect_punct(Punct::RParen) {
                    Ok(_) => Ok(ps),
                    Err(e) => Err(e),
                }
            },
            _ => Ok(AST::NoOp),
        }
    }

    fn block(&mut self) -> (r: Result<AST, Error>)
        requires
            old(self).pos <= old(self).tokens@.len(),
            tokens_wf(old(self).tokens@),
        ensures
            final(self).same_input(old(self)),
            r matches Ok(a) ==> wf_ast(a),
            r matches Ok(a) ==> is_block(a),
            outcome(p_block(old(self).stream(), old(self).pos as nat), r, old(self).pos as nat, final(self).pos as nat),
        decreases old(self).tokens@.len() - old(self).pos, 10nat,
    {
        let vars = match self.var_part() {
            Ok(a) => a,
            Err(e) => {
                return Err(e);
            },
        };
        let procs = match self.procedures() {
            Ok(a) => a,
            Err(e) => {
                return Err(e);
            },
        };
        match self.compound() {
            Ok(body) => Ok(AST::Block(Box::new(vars), Box::new(procs), Box::new(body))),
            Err(e) => Err(e),
        }
    }

    fn procedures(&mut self) -> (r: Result<AST, Error>)
        requires
            old(self).pos <= old(self).tokens@.len(),
            tokens_wf(old(self).tokens@),
        ensures
            final(self).same_input(old(self)),
            r matches Ok(a) ==> wf_ast(a),
            r matches Ok(a) ==> is_proc_list(a),
            outcome(p_procedures(old(self).stream(), old(self).pos as nat), r, old(self).pos as nat, final(self).pos as nat),
        decreases old(self).tokens@.len() - old(self).pos, 9nat,
    {
        match self.cur() {
            Token::Keyword(Keyword::Procedure) => {},
            _ => {
                return Ok(AST::NoOp);
            },
        }
        match self.advance() {
            Ok(_) => {},
            Err(e) => {
                return Err(e);
            },
        }
        let name = match self.ident() {
            Ok(n) => n,
            Err(e) => {
                return Err(e);
            },
        };
        let params = match self.formal_params() {
            Ok(a) => a,
            Err(e) => {
                return Err(e);
            },
        };
        match self.expect_punct(Punct::Semicolon) {
            Ok(_) => {},
            Err(e) => {
                return Err(e);
            },
        }
        let blk = match self.block() {
            Ok(a) => a,
            Err(e) => {
                return Err(e);
            },
        };
        match self.expect_punct(Punct::Semicolon) {
            Ok(_) => {},
            Err(e) => {
                return Err(e);
            },
        }
        let decl = AST::ProcedureDecl(name, Box::new(params), Box::new(blk));
        assert(wf_ast(decl));
        match self.procedures() {
            Ok(rest) => Ok(AST::Compound(Box::new(decl), Some(Box::new(rest)))),
            Err(e) => Err(e),
        }
    }

    fn compound(&mut self) -> (r: Result<AST, Error>)
        requires
            old(self).pos <= old(self).tokens@.len(),
            tokens_wf(old(self).tokens@),
        ensures
            final(self).same_input(old(self)),
            r matches Ok(a) ==> wf_ast(a),
            r matches Ok(a) ==> is_code(a),
            outcome(p_compound(old(self).stream(), old(self).pos as nat), r, old(self).pos as nat, final(self).pos as nat),
        decreases old(self).tokens@.len() - old(self).pos, 6nat,
    {
        match self.expect_keyword(Keyword::Begin) {
            Ok(_) => {},
            Err(e) => {
                return Err(e);
            },
        }
        let list = match self.statement_list() {
            Ok(a) => a,
            Err(e) => {
                return Err(e);
            },
        };
        match self.expect_keyword(Keyword::End) {
            Ok(_) => Ok(list),
            Err(e) => Err(e),
        }
    }

    fn statement_list(&mut self) -> (r: Result<AST, Error>)
        requires
            old(self).pos <= old(self).tokens@.len(),
            tokens_wf(old(self).tokens@),
        ensures
            final(self).same_input(old(self)),
            r matches Ok(a) ==> wf_ast(a),
            r matches Ok(a) ==> is_code(a),
            outcome(p_statement_list(old(self).stream(), old(self).pos as nat), r, old(self).pos as nat, final(self).pos as nat),
        decreases old(self).tokens@.len() - old(self).pos, 8nat,
    {
        let st = match self.statement() {
            Ok(a) => a,
            Err(e) => {
                return Err(e);
            },
        };
        match self.cur() {
            Token::Punctuation(Punct::Semicolon) => {
                match self.advance() {
                    Ok(_) => {},
                    Err(e) => {
                        return Err(e);
                    },
                }
                match self.statement_list() {
                    Ok(rest) => Ok(AST::Compound(Box::new(st), Some(Box::new(rest)))),
                    Err(e) => Err(e),
                }
            },
            _ => Ok(AST::Compound(Box::new(st), None)),
        }
    }

    fn statement(&mut self) -> (r: Result<AST, Error>)
        requires
            old(self).pos <= old(self).tokens@.len(),
            tokens_wf(old(self).tokens@),
        ensures
            final(self).same_input(old(self)),
            r matches Ok(a) ==> wf_ast(a),
            r matches Ok(a) ==> is_code(a),
            outcome(p_statement(old(self).stream(), old(self).pos as nat), r, old(self).pos as nat, final(self).pos as nat),
        decreases old(self).tokens@.len() - old(self).pos, 7nat,
    {
        match self.cur() {
            Token::Keyword(Keyword::Begin) => self.compound(),
            Token::Identifier(_) => self.assignment(),
            _ => Ok(AST::NoOp),
        }
    }

    fn assignment(&mut self) -> (r: Result<AST, Error>)
        requires
            old(self).pos <= old(self).tokens@.len(),
            tokens_wf(old(self).tokens@),
        ensures
            final(self).same_input(old(self)),
            r matches Ok(a) ==> wf_ast(a),
            r matches Ok(a) ==> is_code(a),
            outcome(p_assignment(old(self).stream(), old(self).pos as nat), r, old(self).pos as nat, final(self).pos as nat),
        decreases old(self).tokens@.len() - old(self).pos, 6nat,
    {
        let name = match self.ident() {
            Ok(n) => n,
            Err(e) => {
                return Err(e);
            },
        };
        match self.expect_punct(Punct::Assign) {
            Ok(_) => {},
            Err(e) => {
                return Err(e);
            },
        }
        match self.expr() {
            Ok(e) => Ok(AST::Assign(name, Box::new(e))),
            Err(e) => Err(e),
        }
    }

    fn expr(&mut self) -> (r: Result<AST, Error>)
        requires
            old(self).pos <= old(self).tokens@.len(),
            tokens_wf(old(self).tokens@),
        ensures
            final(self).same_input(old(self)),
            r matches Ok(a) ==> wf_ast(a),
            r matches Ok(a) ==> is_code(a),
            outcome(p_expr(old(self).stream(), old(self).pos as nat), r, old(self).pos as nat, final(self).pos as nat),
        decreases old(self).tokens@.len() - old(self).pos, 5nat,
    {
        match self.term() {
            Ok(t) => self.expr_tail(t),
            Err(e) => Err(e),
        }
    }

    fn expr_tail(&mut self, acc: AST) -> (r: Result<AST, Error>)
        requires
            old(self).pos <= old(self).tokens@.len(),
            wf_ast(acc),
            is_code(acc),
            tokens_wf(old(self).tokens@),
        ensures
            final(self).same_input(old(self)),
            r matches Ok(a) ==> wf_ast(a),
            r matches Ok(a) ==> is_code(a),
            outcome(p_expr_tail(old(self).stream(), acc, old(self).pos as nat), r, old(self).pos as nat, final(self).pos as nat),
        decreases old(self).tokens@.len() - old(self).pos, 4nat,
    {
        let op = match self.cur() {
            Token::Operator(ArithmeticOp::Plus) => ArithmeticOp::Plus,
            Token::Operator(ArithmeticOp::Minus) => ArithmeticOp::Minus,
            _ => {
                return Ok(acc);
            },
        };
        match self.advance() {
            Ok(_) => {},
            Err(e) => {
                return Err(e);
            },
        }
        match self.term() {
            Ok(r) => self.expr_tail(AST::BinOp(op, Box::new(acc), Box::new(r))),
            Err(e) => Err(e),
        }
    }

    fn term(&mut self) -> (r: Result<AST, Error>)
        requires
            old(self).pos <= old(self).tokens@.len(),
            tokens_wf(old(self).tokens@),
        ensures
            final(self).same_input(old(self)),
            r matches Ok(a) ==> wf_ast(a),
            r matches Ok(a) ==> is_code(a),
            outcome(p_term(old(self).stream(), old(self).pos as nat), r, old(self).pos as nat, final(self).pos as nat),
        decreases old(self).tokens@.len() - old(self).pos, 3nat,
    {
        match self.factor() {
            Ok(f) => self.term_tail(f),
            Err(e) => Err(e),
        }
    }

    fn term_tail(&mut self, acc: AST) -> (r: Result<AST, Error>)
        requires
            old(self).pos <= old(self).tokens@.len(),
            wf_ast(acc),
            is_code(acc),
            tokens_wf(old(self).tokens@),
        ensures
            final(self).same_input(old(self)),
            r matches Ok(a) ==> wf_ast(a),
            r matches Ok(a) ==> is_code(a),
            outcome(p_term_tail(old(self).stream(), acc, old(self).pos as nat), r, old(self).pos as nat, final(self).pos as nat),
        decreases old(self).tokens@.len() - old(self).pos, 2nat,
    {
        let op = match self.cur() {
            Token::Operator(ArithmeticOp::Mul) => ArithmeticOp::Mul,
            Token::Operator(ArithmeticOp::RealDiv) => ArithmeticOp::RealDiv,
            Token::Operator(ArithmeticOp::IntDiv) => ArithmeticOp::IntDiv,
            _ => {
                return Ok(acc);
            },
        };
        match self.advance() {
            Ok(_) => {},
            Err(e) => {
                return Err(e);
            },
        }
        match self.factor() {
            Ok(r) => self.term_tail(AST::BinOp(op, Box::new(acc), Box::new(r))),
            Err(e) => Err(e),
        }
    }

    fn factor(&mut self) -> (r: Result<AST, Error>)
        requires
            old(self).pos <= old(self).tokens@.len(),
            tokens_wf(old(self).tokens@),
        ensures
            final(self).same_input(old(self)),
            r matches Ok(a) ==> wf_ast(a),
            r matches Ok(a) ==> is_code(a),
            outcome(p_factor(old(self).stream(), old(self).pos as nat), r, old(self).pos as nat, final(self).pos as nat),
        decreases old(self).tokens@.len() - old(self).pos, 1nat,
    {
        match self.cur() {
            Token::Operator(op) => {
                if op == ArithmeticOp::Plus || op == ArithmeticOp::Minus {
                    match self.advance() {
                        Ok(_) => {},
                        Err(e) => {
                            return Err(e);
                        },
                    }
                    match self.factor() {
                        Ok(f) => Ok(AST::UnaryOp(op, Box::new(f))),
                        Err(e) => Err(e),
                    }
                } else {
                    Err(self.unexpected(Expected::Factor))
                }
            },
            Token::IntegerLiteral(n) => match self.advance() {
                Ok(_) => Ok(AST::Num(VariableValue::Integer(n))),
                Err(e) => Err(e),
            },
            Token::RealLiteral(x) => match self.advance() {
                Ok(_) => Ok(AST::Num(VariableValue::Real(x))),
                Err(e) => Err(e),
            },
            Token::Punctuation(Punct::LParen) => {
                match self.advance() {
                    Ok(_) => {},
                    Err(e) => {
                        return Err(e);
                    },
                }
                let e = match self.expr() {
                    Ok(e) => e,
                    Err(err) => {
                        return Err(err);
                    },
                };
                match self.expect_punct(Punct::RParen) {
                    Ok(_) => Ok(e),
                    Err(err) => Err(err),
                }
            },
            Token::Identifier(name) => match self.advance() {
                Ok(_) => Ok(AST::Var(name)),
                Err(e) => Err(e),
            },
            _ => Err(self.unexpected(Expected::Factor)),
        }
    }

    /// The tree of the whole program: `[ "PROGRAM" ident ";" ] block "."`.
    pub fn parse(&mut self) -> (r: Result<AST, Error>)
        requires
            old(self).pos == 0,
            tokens_wf(old(self).tokens@),
        ensures
            r == p_program(old(self).stream()),
            r matches Ok(a) ==> wf_ast(a) && is_block(a),
    {
        if self.tokens.len() == 0 {
            match self.lex_error {
                Some(e) => {
                    return Err(Error::Lex(e));
                },
                None => {},
            }
        }
        match self.cur() {
            Token::Keyword(Keyword::Program) => {
                match self.advance() {
                    Ok(_) => {},
                    Err(e) => {
                        return Err(e);
                    },
                }
                match self.ident() {
                    Ok(_) => {},
                    Err(e) => {
                        return Err(e);
                    },
                }
                match self.expect_punct(Punct::Semicolon) {
                    Ok(_) => {},
                    Err(e) => {
                        return Err(e);
                    },
                }
            },
            _ => {},
        }
        let b = match self.block() {
            Ok(b) => b,
            Err(e) => {
                return Err(e);
            },
        };
        match self.expect_punct(Punct::Dot) {
            Ok(_) => Ok(b),
            Err(e) => Err(e),
        }
    }

}

} // verus!
