use vstd::prelude::*;
use crate::ast::{wf_ast, wf_value, VariableValue, AST};
use crate::error::{Error, RunFault, RuntimeError};
use crate::lexer::{tokenize, tokens_wf, view_tokens};
use crate::parser::{p_program, parse_text, Parser};
use crate::symbols::{analysis, analyze};
use crate::tokens::{chars_of, upper, upper_string, Token};
use crate::value::{binary, binary_op, coerce, unary, unary_op};

verus! {

/// The variables at run time, each with its last value, in the order of
/// their first assignment.
pub type Store = Seq<(Seq<char>, VariableValue)>;

/// Where `name` stands in the store, or -1.
pub open spec fn index_of(st: Store, name: Seq<char>) -> int
    decreases st.len(),
{
    if st.len() == 0 {
        -1
    } else if st.last().0 == name {
        st.len() - 1
    } else {
        index_of(st.drop_last(), name)
    }
}

pub proof fn lemma_index_of_bounds(st: Store, name: Seq<char>)
    ensures
        -1 <= index_of(st, name) < st.len(),
        index_of(st, name) >= 0 ==> st[index_of(st, name)].0 == name,
    decreases st.len(),
{
    if st.len() > 0 && st.last().0 != name {
        lemma_index_of_bounds(st.drop_last(), name);
    }
}

pub open spec fn lookup(st: Store, name: Seq<char>) -> Option<VariableValue> {
    let i = index_of(st, name);
    if i >= 0 {
        Some(st[i].1)
    } else {
        None
    }
}

/// The store after `name` is given the value `v`.
pub open spec fn store(st: Store, name: Seq<char>, v: VariableValue) -> Store {
    let i = index_of(st, name);
    if i >= 0 {
        st.update(i, (name, v))
    } else {
        st.push((name, v))
    }
}

pub open spec fn wf_store(st: Store) -> bool {
    forall|i: int| 0 <= i < st.len() ==> wf_value(#[trigger] st[i].1)
}

/// Evaluating `node` with the store `st`: its value and the store
/// afterwards, or the first runtime error. Declarations are not evaluated and
/// give no value, and procedures are never entered; a block gives the value of
/// its statements; a statement list gives the value of its last statement.
///
/// Whether a name is declared is decided by the analysis alone, before any
/// evaluation: the store knows nothing of declarations. A variable gets its
/// slot at run time on its first assignment, which stores the value as it is;
/// later assignments coerce into the slot's type. Reading a variable that no
/// assignment has reached yet, though it is declared, is the runtime error
/// `UnassignedVariable`.
pub open spec fn eval(node: AST, st: Store) -> Result<(VariableValue, Store), RunFault>
    decreases node,
{
    match node {
        AST::Num(v) => Ok((v, st)),
        AST::Var(name) => match lookup(st, name@) {
            Some(v) => Ok((v, st)),
            None => Err(RunFault::UnassignedVariable { name: name@ }),
        },
        AST::BinOp(op, l, r) => match eval(*l, st) {
            Err(f) => Err(f),
            Ok((a, st1)) => match eval(*r, st1) {
                Err(f) => Err(f),
                Ok((b, st2)) => match binary(op, a, b) {
                    Err(f) => Err(f),
                    Ok(v) => Ok((v, st2)),
                },
            },
        },
        AST::UnaryOp(op, x) => match eval(*x, st) {
            Err(f) => Err(f),
            Ok((a, st1)) => match unary(op, a) {
                Err(f) => Err(f),
                Ok(v) => Ok((v, st1)),
            },
        },
        AST::Assign(name, e) => match eval(*e, st) {
            Err(f) => Err(f),
            Ok((v, st1)) => {
                let stored = coerce(lookup(st1, name@), v);
                Ok((stored, store(st1, name@, stored)))
            },
        },
        AST::Compound(first, rest) => match eval(*first, st) {
            Err(f) => Err(f),
            Ok((v, st1)) => match rest {
                None => Ok((v, st1)),
                Some(r) => eval(*r, st1),
            },
        },
        AST::Block(_, _, body) => eval(*body, st),
        _ => Ok((VariableValue::Absent, st)),
    }
}

/// The variables of a run and their values.
#[derive(Debug)]
pub struct Context {
    pub variables: Vec<(String, VariableValue)>,
}

impl View for Context {
    type V = Store;

    open spec fn view(&self) -> Store {
        self.variables@.map_values(|p: (String, VariableValue)| (p.0@, p.1))
    }
}

impl Context {
    pub fn new() -> (c: Context)
        ensures
            c@ == Store::empty(),
    {
        let c = Context { variables: Vec::new() };
        assert(c@ =~= Store::empty());
        c
    }

    /// Where `name` stands, or the number of variables.
    fn position(&self, name: &String) -> (r: usize)
        ensures
            index_of(self@, name@) >= 0 ==> r == index_of(self@, name@),
            index_of(self@, name@) < 0 ==> r == self@.len(),
            -1 <= index_of(self@, name@) < self@.len(),
    {
        proof {
            lemma_index_of_bounds(self@, name@);
        }
        let mut i = self.variables.len();
        assert(self@.subrange(0, i as int) =~= self@);
        while i > 0
            invariant
                i <= self@.len(),
                self@.len() == self.variables@.len(),
                index_of(self@, name@) == index_of(self@.subrange(0, i as int), name@),
                -1 <= index_of(self@, name@) < self@.len(),
            decreases i,
        {
            assert(self@.subrange(0, i - 1) =~= self@.subrange(0, i as int).drop_last());
            if self.variables[i - 1].0 == *name {
                assert(self@[i - 1].0 == name@);
                return i - 1;
            }
            i = i - 1;
        }
        self.variables.len()
    }

    /// The value last assigned to `name`, if any.
    fn get(&self, name: &String) -> (r: Option<VariableValue>)
        ensures
            r == lookup(self@, name@),
    {
        let i = self.position(name);
        if i < self.variables.len() {
            Some(self.variables[i].1)
        } else {
            None
        }
    }

    /// Gives `name` the value `v`.
    fn set(&mut self, name: &String, v: VariableValue)
        ensures
            final(self)@ == store(old(self)@, name@, v),
    {
        let i = self.position(name);
        if i < self.variables.len() {
            self.variables[i] = (name.clone(), v);
            assert(self@ =~= old(self)@.update(i as int, (name@, v)));
        } else {
            self.variables.push((name.clone(), v));
            assert(self@ =~= old(self)@.push((name@, v)));
        }
    }

    /// The value of the variable written `name`, in any case.
    pub fn get_var(&self, name: &str) -> (r: Option<VariableValue>)
        ensures
            r == lookup(self@, upper(name@)),
    {
        let cs = chars_of(name);
        let key = upper_string(&cs, 0, cs.len());
        proof {
            assert(cs@.subrange(0, cs@.len() as int) =~= cs@);
        }
        self.get(&key)
    }
}

/// What a run ends with, given what the text parsed to: the parse error; or
/// the first semantic error; or the first runtime error; or the program's
/// value and the variables it left.
pub open spec fn run_outcome(parsed: Result<AST, Error>, r: Result<(VariableValue, Context), Error>) -> bool {
    match parsed {
        Err(e) => r == Err::<(VariableValue, Context), Error>(e),
        Ok(tree) => match analysis(tree) {
            Err(f) => r matches Err(Error::Semantic(e)) && e@ == f,
            Ok(_) => match eval(tree, Store::empty()) {
                Err(f) => r matches Err(Error::Runtime(e)) && e@ == f,
                Ok((v, st)) => r matches Ok((rv, ctx)) && rv == v && ctx@ == st,
            },
        },
    }
}

/// A program text, run from its tokens to its value: parsed, then analysed
/// (which alone rejects undeclared names), then evaluated (see `eval` for how
/// variables get their slots).
#[derive(Debug)]
pub struct Interpreter {
    pub parser: Parser,
    pub context: Context,
}

impl Interpreter {
    pub fn new(text: &str) -> (i: Interpreter)
        ensures
            view_tokens(i.parser.tokens@) == tokenize(text@).0,
            i.parser.lex_error == tokenize(text@).1,
            i.parser.pos == 0,
            tokens_wf(i.parser.tokens@),
            i.context@ == Store::empty(),
    {
        Interpreter { parser: Parser::new(text), context: Context::new() }
    }

    /// Evaluates `node`: see the spec function `eval`.
    pub fn visit(&mut self, node: &AST) -> (r: Result<VariableValue, RuntimeError>)
        requires
            wf_ast(*node),
            wf_store(old(self).context@),
        ensures
            match eval(*node, old(self).context@) {
                Ok((v, st)) => r == Ok::<VariableValue, RuntimeError>(v) && final(self).context@
                    == st,
                Err(f) => r matches Err(e) && e@ == f,
            },
            wf_store(final(self).context@),
            r matches Ok(v) ==> wf_value(v),
        decreases node,
    {
        match node {
            AST::Num(v) => Ok(*v),
            AST::Var(name) => match self.context.get(name) {
                Some(v) => {
                    proof {
                        lemma_index_of_bounds(self.context@, name@);
                    }
                    Ok(v)
                },
                None => Err(RuntimeError::UnassignedVariable { name: name.clone() }),
            },
            AST::BinOp(op, l, rt) => {
                let a = match self.visit(l) {
                    Ok(a) => a,
                    Err(e) => {
                        return Err(e);
                    },
                };
                let b = match self.visit(rt) {
                    Ok(b) => b,
                    Err(e) => {
                        return Err(e);
                    },
                };
                binary_op(*op, a, b)
            },
            AST::UnaryOp(op, x) => {
                let a = match self.visit(x) {
                    Ok(a) => a,
                    Err(e) => {
                        return Err(e);
                    },
                };
                unary_op(*op, a)
            },
            AST::Assign(name, e) => {
                let v = match self.visit(e) {
                    Ok(v) => v,
                    Err(err) => {
                        return Err(err);
                    },
                };
                let stored = match self.context.get(name) {
                    Some(slot) => {
                        let mut slot = slot;
                        slot.assign(v)
                    },
                    None => v,
                };
                let ghost st1 = self.context@;
                self.context.set(name, stored);
                proof {
                    lemma_index_of_bounds(st1, name@);
                    assert forall|i: int| 0 <= i < self.context@.len() implies wf_value(
                        #[trigger] self.context@[i].1,
                    ) by {
                        if i < st1.len() {
                            assert(wf_value(st1[i].1));
                        }
                    }
                }
                Ok(stored)
            },
            AST::Compound(first, rest) => {
                let v = match self.visit(first) {
                    Ok(v) => v,
                    Err(e) => {
                        return Err(e);
                    },
                };
                match rest {
                    None => Ok(v),
                    Some(rt) => self.visit(rt),
                }
            },
            AST::Block(_, _, body) => self.visit(body),
            _ => Ok(VariableValue::Absent),
        }
    }

    /// Parses the text, analyses the tree and, where both succeed, evaluates
    /// it: the variables left and the program's value.
    pub fn exec(self) -> (r: Result<(Context, VariableValue), Error>)
        requires
            self.parser.pos == 0,
            tokens_wf(self.parser.tokens@),
            self.context@ == Store::empty(),
        ensures
            run_outcome(
                p_program(self.parser.stream()),
                match r {
                    Ok((c, v)) => Ok((v, c)),
                    Err(e) => Err(e),
                },
            ),
    {
        let mut me = self;
        let tree = match me.parser.parse() {
            Ok(t) => t,
            Err(e) => {
                return Err(e);
            },
        };
        match analyze(&tree) {
            Ok(_) => {},
            Err(e) => {
                return Err(Error::Semantic(e));
            },
        }
        match me.visit(&tree) {
            Ok(v) => Ok((me.context, v)),
            Err(e) => Err(Error::Runtime(e)),
        }
    }
}

/// Runs a program text: its value and its variables afterwards, or the first
/// error met.
pub fn analyze_and_run(source: &str) -> (r: Result<(VariableValue, Context), Error>)
    ensures
        exists|toks: Seq<(Token, usize)>|
            view_tokens(toks) == tokenize(source@).0 && run_outcome(parse_text(source@, toks), r),
{
    let interpreter = Interpreter::new(source);
    let ghost toks = interpreter.parser.tokens@;
    let r = interpreter.exec();
    let out = match r {
        Ok((c, v)) => Ok((v, c)),
        Err(e) => Err(e),
    };
    assert(view_tokens(toks) == tokenize(source@).0 && run_outcome(parse_text(source@, toks), out));
    out
}

} // verus!
