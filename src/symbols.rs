use vstd::prelude::*;
use crate::ast::{is_block, is_code, is_decl_chain, is_proc_list, TypeSpec, AST};
use crate::error::{Fault, SemanticError};

verus! {

/// A scope as the analysis sees it: its name, its nesting level and the
/// names declared in it, in order.
pub struct Frame {
    pub name: Seq<char>,
    pub level: nat,
    pub names: Seq<Seq<char>>,
}

/// `n` is declared in one of the scopes of the stack.
pub open spec fn declared(st: Seq<Frame>, n: Seq<char>) -> bool {
    exists|j: int| 0 <= j < st.len() && #[trigger] st[j].names.contains(n)
}

/// The stack with the names of its innermost scope replaced by `names`.
pub open spec fn with_names(st: Seq<Frame>, names: Seq<Seq<char>>) -> Seq<Frame> {
    st.update(st.len() - 1, Frame { name: st.last().name, level: st.last().level, names })
}

pub open spec fn with_name(st: Seq<Frame>, n: Seq<char>) -> Seq<Frame> {
    with_names(st, st.last().names.push(n))
}

pub open spec fn inner_level(level: nat) -> nat {
    if level < usize::MAX {
        level + 1
    } else {
        level
    }
}

/// Visiting `node` with the scope stack `st` (innermost last): the stack
/// afterwards, or the first error met. Declarations add to the innermost
/// scope; a procedure gets a scope of its own for its parameters and its
/// block, discarded at its end; a name that is read or assigned must be
/// declared in some scope of the stack.
pub open spec fn visit(node: AST, st: Seq<Frame>) -> Result<Seq<Frame>, Fault>
    decreases node,
{
    match node {
        AST::Num(_) => Ok(st),
        AST::NoOp => Ok(st),
        AST::Var(name) => {
            if declared(st, name@) {
                Ok(st)
            } else {
                Err(Fault::UndeclaredVariable { name: name@, scope: st.last().name })
            }
        },
        AST::BinOp(_, l, r) => match visit(*l, st) {
            Err(f) => Err(f),
            Ok(st1) => visit(*r, st1),
        },
        AST::UnaryOp(_, x) => visit(*x, st),
        AST::Assign(name, e) => match visit(*e, st) {
            Err(f) => Err(f),
            Ok(st1) => {
                if declared(st1, name@) {
                    Ok(st1)
                } else {
                    Err(Fault::UndeclaredVariable { name: name@, scope: st1.last().name })
                }
            },
        },
        AST::Compound(first, rest) => match visit(*first, st) {
            Err(f) => Err(f),
            Ok(st1) => match rest {
                None => Ok(st1),
                Some(r) => visit(*r, st1),
            },
        },
        AST::VarDecl(name, _, next) => {
            if st.last().names.contains(name@) {
                Err(Fault::DuplicateDeclaration { name: name@, scope: st.last().name })
            } else {
                visit(*next, with_name(st, name@))
            }
        },
        AST::Param(name, _, next) => {
            if st.last().names.contains(name@) {
                Err(Fault::DuplicateDeclaration { name: name@, scope: st.last().name })
            } else {
                visit(*next, with_name(st, name@))
            }
        },
        AST::ProcedureDecl(name, params, block) => {
            let inner = st.push(
                Frame { name: name@, level: inner_level(st.last().level), names: Seq::empty() },
            );
            match visit(*params, inner) {
                Err(f) => Err(f),
                Ok(st1) => match visit(*block, st1) {
                    Err(f) => Err(f),
                    Ok(_) => Ok(st),
                },
            }
        },
        AST::Block(vars, procs, body) => match visit(*vars, st) {
            Err(f) => Err(f),
            Ok(st1) => match visit(*procs, st1) {
                Err(f) => Err(f),
                Ok(st2) => visit(*body, st2),
            },
        },
    }
}

/// Analysing a program: its block visited in a scope named `global`, at level 1.
pub open spec fn analysis(program: AST) -> Result<(), Fault> {
    match visit(program, seq![Frame { name: "global"@, level: 1, names: Seq::empty() }]) {
        Ok(_) => Ok(()),
        Err(f) => Err(f),
    }
}

/// The declarations of one scope.
#[derive(Debug)]
pub struct SymbolTable {
    pub scope_name: String,
    pub scope_level: usize,
    pub variables: Vec<(String, TypeSpec)>,
}

impl View for SymbolTable {
    type V = Frame;

    open spec fn view(&self) -> Frame {
        Frame {
            name: self.scope_name@,
            level: self.scope_level as nat,
            names: self.variables@.map_values(|p: (String, TypeSpec)| p.0@),
        }
    }
}

fn same_string(a: &String, b: &String) -> (r: bool)
    ensures
        r == (a@ == b@),
{
    *a == *b
}

impl SymbolTable {
    /// The declared names with their type tags, in order of declaration.
    pub open spec fn entries(&self) -> Seq<(Seq<char>, TypeSpec)> {
        self.variables@.map_values(|p: (String, TypeSpec)| (p.0@, p.1))
    }

    pub fn new(name: String, level: usize) -> (t: SymbolTable)
        ensures
            t@ == (Frame { name: name@, level: level as nat, names: Seq::empty() }),
            t.scope_name == name,
            t.scope_level == level,
            t.entries() == Seq::<(Seq<char>, TypeSpec)>::empty(),
    {
        let t = SymbolTable { scope_name: name, scope_level: level, variables: Vec::new() };
        assert(t@.names =~= Seq::empty());
        assert(t.entries() =~= Seq::<(Seq<char>, TypeSpec)>::empty());
        t
    }

    /// Whether `name` is declared in this scope.
    pub fn lookup(&self, name: &String) -> (r: bool)
        ensures
            r == self@.names.contains(name@),
    {
        let mut i: usize = 0;
        while i < self.variables.len()
            invariant
                i <= self.variables@.len(),
                forall|j: int| 0 <= j < i ==> self@.names[j] != name@,
            decreases self.variables@.len() - i,
        {
            if same_string(&self.variables[i].0, name) {
                assert(self@.names[i as int] == name@);
                return true;
            }
            i = i + 1;
        }
        false
    }

    /// Declares `name` with the type tag `ty`, unless this scope already
    /// declares it; then nothing changes.
    pub fn define(&mut self, name: &String, ty: TypeSpec) -> (r: Result<(), SemanticError>)
        ensures
            old(self)@.names.contains(name@) ==> *final(self) == *old(self),
            !old(self)@.names.contains(name@) ==> final(self).entries() == old(self).entries().push(
                (name@, ty),
            ) && final(self).scope_name == old(self).scope_name && final(self).scope_level
                == old(self).scope_level,
            old(self)@.names.contains(name@) ==> final(self)@ == old(self)@ && (r matches Err(e)
                && e@ == (Fault::DuplicateDeclaration { name: name@, scope: old(self)@.name })),
            !old(self)@.names.contains(name@) ==> r is Ok && final(self)@ == (Frame {
                names: old(self)@.names.push(name@),
                ..old(self)@
            }),
    {
        if self.lookup(name) {
            return Err(
                SemanticError::DuplicateDeclaration {
                    name: name.clone(),
                    scope: self.scope_name.clone(),
                },
            );
        }
        self.variables.push((name.clone(), ty));
        assert(self@.names =~= old(self)@.names.push(name@));
        assert(self.entries() =~= old(self).entries().push((name@, ty)));
        Ok(())
    }
}

pub open spec fn frames(v: Seq<SymbolTable>) -> Seq<Frame> {
    v.map_values(|t: SymbolTable| t@)
}

/// The scopes that enclose the point of the analysis, innermost last.
#[derive(Debug)]
pub struct SemanticAnalyzer {
    pub scopes: Vec<SymbolTable>,
}

impl SemanticAnalyzer {
    pub open spec fn stack(&self) -> Seq<Frame> {
        frames(self.scopes@)
    }

    pub fn new() -> (a: SemanticAnalyzer)
        ensures
            a.stack() == Seq::<Frame>::empty(),
    {
        let a = SemanticAnalyzer { scopes: Vec::new() };
        assert(a.stack() =~= Seq::<Frame>::empty());
        a
    }

    /// The innermost scope.
    pub fn current_scope(&self) -> (r: &SymbolTable)
        requires
            self.scopes@.len() > 0,
        ensures
            r@ == self.stack().last(),
            *r == self.scopes@.last(),
    {
        &self.scopes[self.scopes.len() - 1]
    }

    /// Enters `scope`, inside the current one.
    pub fn push_scope(&mut self, scope: SymbolTable)
        ensures
            final(self).stack() == old(self).stack().push(scope@),
            final(self).scopes@ == old(self).scopes@.push(scope),
            final(self).scopes@.len() == old(self).scopes@.len() + 1,
    {
        self.scopes.push(scope);
        assert(self.stack() =~= old(self).stack().push(scope@));
    }

    /// Leaves the innermost scope and hands it back.
    pub fn pop_scope(&mut self) -> (r: SymbolTable)
        requires
            old(self).scopes@.len() > 0,
        ensures
            final(self).stack() == old(self).stack().drop_last(),
            final(self).scopes@.len() == old(self).scopes@.len() - 1,
            final(self).scopes@ == old(self).scopes@.drop_last(),
            r@ == old(self).stack().last(),
            r == old(self).scopes@.last(),
    {
        let r = self.scopes.pop().unwrap();
        assert(self.stack() =~= old(self).stack().drop_last());
        r
    }

    /// Whether `name` is declared in the current scope or an enclosing one.
    pub fn is_declared(&self, name: &String) -> (r: bool)
        ensures
            r == declared(self.stack(), name@),
    {
        let mut i = self.scopes.len();
        while i > 0
            invariant
                i <= self.scopes@.len(),
                forall|j: int| i <= j < self.scopes@.len() ==> !(#[trigger] self.stack()[j]).names.contains(name@),
            decreases i,
        {
            i = i - 1;
            if self.scopes[i].lookup(name) {
                assert(self.stack()[i as int].names.contains(name@));
                return true;
            }
        }
        false
    }

    /// Visits `node`: see the spec function `visit`.
    pub fn visit(&mut self, node: &AST) -> (r: Result<(), SemanticError>)
        requires
            old(self).scopes@.len() > 0,
        ensures
            match visit(*node, old(self).stack()) {
                Ok(st) => r is Ok && final(self).stack() == st,
                Err(f) => r matches Err(e) && e@ == f,
            },
            r is Ok ==> final(self).stack().len() == old(self).stack().len()
                && final(self).stack().drop_last() == old(self).stack().drop_last(),
        decreases node,
    {
        match node {
            AST::Num(_) => Ok(()),
            AST::NoOp => Ok(()),
            AST::Var(name) => self.check_declared(name),
            AST::BinOp(_, l, rt) => {
                match self.visit(l) {
                    Ok(_) => {},
                    Err(e) => {
                        return Err(e);
                    },
                }
                self.visit(rt)
            },
            AST::UnaryOp(_, x) => self.visit(x),
            AST::Assign(name, e) => {
                match self.visit(e) {
                    Ok(_) => {},
                    Err(err) => {
                        return Err(err);
                    },
                }
                self.check_declared(name)
            },
            AST::Compound(first, rest) => {
                match self.visit(first) {
                    Ok(_) => {},
                    Err(e) => {
                        return Err(e);
                    },
                }
                match rest {
                    None => Ok(()),
                    Some(rt) => self.visit(rt),
                }
            },
            AST::VarDecl(name, ty, next) => {
                match self.define(name, *ty) {
                    Ok(_) => {},
                    Err(e) => {
                        return Err(e);
                    },
                }
                self.visit(next)
            },
            AST::Param(name, ty, next) => {
                match self.define(name, *ty) {
                    Ok(_) => {},
                    Err(e) => {
                        return Err(e);
                    },
                }
                self.visit(next)
            },
            AST::ProcedureDecl(name, params, block) => {
                let level = self.current_scope().scope_level;
                let inner = if level < usize::MAX {
                    level + 1
                } else {
                    level
                };
                let ghost st = self.stack();
                self.push_scope(SymbolTable::new(name.clone(), inner));
                match self.visit(params) {
                    Ok(_) => {},
                    Err(e) => {
                        return Err(e);
                    },
                }
                match self.visit(block) {
                    Ok(_) => {},
                    Err(e) => {
                        return Err(e);
                    },
                }
                let ghost st2 = self.stack();
                let _ = self.pop_scope();
                proof {
                    assert(st2.drop_last() =~= st);
                }
                Ok(())
            },
            AST::Block(vars, procs, body) => {
                match self.visit(vars) {
                    Ok(_) => {},
                    Err(e) => {
                        return Err(e);
                    },
                }
                match self.visit(procs) {
                    Ok(_) => {},
                    Err(e) => {
                        return Err(e);
                    },
                }
                self.visit(body)
            },
        }
    }

    fn check_declared(&self, name: &String) -> (r: Result<(), SemanticError>)
        requires
            self.scopes@.len() > 0,
        ensures
            declared(self.stack(), name@) ==> r is Ok,
            !declared(self.stack(), name@) ==> (r matches Err(e) && e@ == (
            Fault::UndeclaredVariable { name: name@, scope: self.stack().last().name })),
    {
        if self.is_declared(name) {
            Ok(())
        } else {
            Err(
                SemanticError::UndeclaredVariable {
                    name: name.clone(),
                    scope: self.current_scope().scope_name.clone(),
                },
            )
        }
    }

    /// Declares `name` in the innermost scope.
    fn define(&mut self, name: &String, ty: TypeSpec) -> (r: Result<(), SemanticError>)
        requires
            old(self).scopes@.len() > 0,
        ensures
            old(self).stack().last().names.contains(name@) ==> (r matches Err(e) && e@ == (
            Fault::DuplicateDeclaration { name: name@, scope: old(self).stack().last().name })),
            !old(self).stack().last().names.contains(name@) ==> r is Ok && final(self).stack()
                == with_name(old(self).stack(), name@),
            final(self).scopes@.len() == old(self).scopes@.len(),
    {
        let mut top = self.pop_scope();
        let r = top.define(name, ty);
        self.push_scope(top);
        proof {
            if r is Ok {
                assert(self.stack() =~= with_name(old(self).stack(), name@));
            }
        }
        r
    }
}

/// Checks a program's declarations and references: see `analysis`.
pub fn analyze(program: &AST) -> (r: Result<(), SemanticError>)
    ensures
        analyzed(*program, r),
{
    let mut a = SemanticAnalyzer::new();
    a.push_scope(SymbolTable::new(String::from_str("global"), 1));
    assert(a.stack() =~= seq![Frame { name: "global"@, level: 1, names: Seq::empty() }]);
    match a.visit(program) {
        Ok(_) => {
            let _ = a.pop_scope();
            Ok(())
        },
        Err(e) => Err(e),
    }
}


/// The names a chain of `VarDecl` or `Param` nodes declares, in order.
pub open spec fn decl_names(n: AST) -> Seq<Seq<char>>
    decreases n,
{
    match n {
        AST::VarDecl(name, _, next) => seq![name@] + decl_names(*next),
        AST::Param(name, _, next) => seq![name@] + decl_names(*next),
        _ => Seq::empty(),
    }
}

/// Every name that the code reads or assigns is in `env`.
pub open spec fn refs_declared(n: AST, env: Set<Seq<char>>) -> bool
    decreases n,
{
    match n {
        AST::Var(name) => env.contains(name@),
        AST::Assign(name, e) => refs_declared(*e, env) && env.contains(name@),
        AST::BinOp(_, l, r) => refs_declared(*l, env) && refs_declared(*r, env),
        AST::UnaryOp(_, x) => refs_declared(*x, env),
        AST::Compound(first, rest) => refs_declared(*first, env) && match rest {
            None => true,
            Some(r) => refs_declared(*r, env),
        },
        _ => true,
    }
}

/// The block is well scoped when the names of enclosing scopes are `env`
/// and its own scope already holds `scope`: no name is declared twice in its
/// scope, its procedures are well scoped with its names added to `env`, and
/// its statements use only names of `env` and of its scope.
pub open spec fn block_ok(b: AST, env: Set<Seq<char>>, scope: Seq<Seq<char>>) -> bool
    decreases b,
{
    match b {
        AST::Block(vars, procs, body) => {
            let local = scope + decl_names(*vars);
            local.no_duplicates() && procs_ok(*procs, env + local.to_set()) && refs_declared(
                *body,
                env + local.to_set(),
            )
        },
        _ => true,
    }
}

/// Each procedure's block is well scoped in a scope of its own that starts
/// with its parameters.
pub open spec fn procs_ok(n: AST, env: Set<Seq<char>>) -> bool
    decreases n,
{
    match n {
        AST::Compound(first, rest) => (match *first {
            AST::ProcedureDecl(_, params, blk) => block_ok(*blk, env, decl_names(*params)),
            _ => true,
        }) && (match rest {
            None => true,
            Some(r) => procs_ok(*r, env),
        }),
        _ => true,
    }
}

/// All the names declared in the stack.
pub open spec fn stack_names(st: Seq<Frame>) -> Set<Seq<char>> {
    Set::new(|n: Seq<char>| declared(st, n))
}

proof fn lemma_stack_names_split(st: Seq<Frame>)
    requires
        st.len() > 0,
    ensures
        stack_names(st) == stack_names(st.drop_last()) + st.last().names.to_set(),
{
    assert forall|n: Seq<char>| #[trigger] stack_names(st).contains(n) == (stack_names(
        st.drop_last(),
    ) + st.last().names.to_set()).contains(n) by {
        if declared(st, n) && !st.last().names.contains(n) {
            let j = choose|j: int| 0 <= j < st.len() && #[trigger] st[j].names.contains(n);
            assert(st.drop_last()[j].names.contains(n));
        }
        if declared(st.drop_last(), n) {
            let j = choose|j: int|
                0 <= j < st.drop_last().len() && #[trigger] st.drop_last()[j].names.contains(n);
            assert(st[j].names.contains(n));
        }
        if st.last().names.contains(n) {
            assert(st[st.len() - 1].names.contains(n));
        }
    }
    assert(stack_names(st) =~= stack_names(st.drop_last()) + st.last().names.to_set());
}

proof fn lemma_prefix_no_duplicates(a: Seq<Seq<char>>, b: Seq<Seq<char>>)
    requires
        (a + b).no_duplicates(),
    ensures
        a.no_duplicates(),
{
    assert forall|i: int, j: int| 0 <= i < a.len() && 0 <= j < a.len() && i != j implies a[i]
        != a[j] by {
        assert((a + b)[i] == a[i] && (a + b)[j] == a[j]);
    }
}

/// Statements and expressions pass the analysis exactly when every name
/// they read or assign is declared in the stack, which they leave as it was:
/// values play no part, so a division by zero passes it.
pub proof fn code_analysis_reads_only_names(n: AST, st: Seq<Frame>)
    requires
        is_code(n),
        st.len() > 0,
    ensures
        (visit(n, st) is Ok) == refs_declared(n, stack_names(st)),
        visit(n, st) is Ok ==> visit(n, st)->Ok_0 == st,
    decreases n,
{
    match n {
        AST::BinOp(_, l, r) => {
            code_analysis_reads_only_names(*l, st);
            code_analysis_reads_only_names(*r, st);
        },
        AST::UnaryOp(_, x) => {
            code_analysis_reads_only_names(*x, st);
        },
        AST::Assign(_, e) => {
            code_analysis_reads_only_names(*e, st);
        },
        AST::Compound(first, rest) => {
            code_analysis_reads_only_names(*first, st);
            match rest {
                None => {},
                Some(r) => {
                    code_analysis_reads_only_names(*r, st);
                },
            }
        },
        _ => {},
    }
}

proof fn lemma_decl_chain(c: AST, st: Seq<Frame>)
    requires
        is_decl_chain(c),
        st.len() > 0,
        st.last().names.no_duplicates(),
    ensures
        (visit(c, st) is Ok) == (st.last().names + decl_names(c)).no_duplicates(),
        visit(c, st) is Ok ==> visit(c, st)->Ok_0 == with_names(st, st.last().names + decl_names(c)),
    decreases c,
{
    let names = st.last().names;
    match c {
        AST::NoOp => {
            assert(names + decl_names(c) =~= names);
            assert(with_names(st, names) =~= st);
        },
        AST::VarDecl(name, _, next) => {
            lemma_decl_step(c, name@, *next, st);
        },
        AST::Param(name, _, next) => {
            lemma_decl_step(c, name@, *next, st);
        },
        _ => {},
    }
}

proof fn lemma_decl_step(c: AST, name: Seq<char>, next: AST, st: Seq<Frame>)
    requires
        (c matches AST::VarDecl(n, _, nx) && n@ == name && *nx == next) || (c matches AST::Param(
            n,
            _,
            nx,
        ) && n@ == name && *nx == next),
        is_decl_chain(next),
        st.len() > 0,
        st.last().names.no_duplicates(),
    ensures
        (visit(c, st) is Ok) == (st.last().names + decl_names(c)).no_duplicates(),
        visit(c, st) is Ok ==> visit(c, st)->Ok_0 == with_names(st, st.last().names + decl_names(c)),
    decreases c, 0nat,
{
    let names = st.last().names;
    assert(decl_names(c) == seq![name] + decl_names(next));
    let all = names + decl_names(c);
    assert(all[names.len() as int] == name);
    if names.contains(name) {
        let i = choose|i: int| 0 <= i < names.len() && names[i] == name;
        assert(all[i] == name);
    } else {
        let st1 = with_name(st, name);
        assert(st1.last().names == names.push(name));
        assert forall|i: int, j: int|
            0 <= i < names.push(name).len() && 0 <= j < names.push(name).len() && i != j implies names.push(
            name,
        )[i] != names.push(name)[j] by {
            if i == names.len() {
                assert(names[j] != name);
            } else if j == names.len() {
                assert(names[i] != name);
            }
        }
        lemma_decl_chain(next, st1);
        assert(names.push(name) + decl_names(next) =~= all);
        assert(with_names(st1, all) =~= with_names(st, all));
    }
}

proof fn lemma_block(b: AST, st: Seq<Frame>)
    requires
        is_block(b),
        st.len() > 0,
        st.last().names.no_duplicates(),
    ensures
        (visit(b, st) is Ok) == block_ok(b, stack_names(st.drop_last()), st.last().names),
    decreases b,
{
    match b {
        AST::Block(vars, procs, body) => {
            let local = st.last().names + decl_names(*vars);
            lemma_decl_chain(*vars, st);
            if local.no_duplicates() {
                let st2 = with_names(st, local);
                lemma_stack_names_split(st2);
                assert(st2.drop_last() =~= st.drop_last());
                assert(st2.last().names == local);
                lemma_procs(*procs, st2);
                code_analysis_reads_only_names(*body, st2);
            }
        },
        _ => {},
    }
}

proof fn lemma_procs(p: AST, st: Seq<Frame>)
    requires
        is_proc_list(p),
        st.len() > 0,
    ensures
        (visit(p, st) is Ok) == procs_ok(p, stack_names(st)),
        visit(p, st) is Ok ==> visit(p, st)->Ok_0 == st,
    decreases p,
{
    match p {
        AST::Compound(first, rest) => {
            lemma_proc(*first, st);
            match rest {
                None => {},
                Some(r) => {
                    lemma_procs(*r, st);
                },
            }
        },
        _ => {},
    }
}

proof fn lemma_proc(d: AST, st: Seq<Frame>)
    requires
        d matches AST::ProcedureDecl(_, params, blk) && is_decl_chain(*params) && is_block(*blk),
        st.len() > 0,
    ensures
        d matches AST::ProcedureDecl(_, params, blk) && (visit(d, st) is Ok) == block_ok(
            *blk,
            stack_names(st),
            decl_names(*params),
        ),
        visit(d, st) is Ok ==> visit(d, st)->Ok_0 == st,
    decreases d,
{
    match d {
        AST::ProcedureDecl(name, params, blk) => {
            let inner = st.push(
                Frame { name: name@, level: inner_level(st.last().level), names: Seq::empty() },
            );
            assert(inner.last().names.no_duplicates());
            lemma_decl_chain(*params, inner);
            let pn = decl_names(*params);
            assert(inner.last().names + pn =~= pn);
            if pn.no_duplicates() {
                let st3 = with_names(inner, pn);
                assert(visit(*params, inner) == Ok::<Seq<Frame>, Fault>(st3));
                assert(st3.drop_last() =~= st);
                assert(st3.last().names == pn);
                lemma_block(*blk, st3);
            } else {
                assert(visit(*params, inner) is Err);
                match *blk {
                    AST::Block(vars, _, _) => {
                        if block_ok(*blk, stack_names(st), pn) {
                            lemma_prefix_no_duplicates(pn, decl_names(*vars));
                        }
                    },
                    _ => {},
                }
            }
        },
        _ => {},
    }
}

/// A program as the parser builds it passes the analysis exactly when no
/// scope declares a name twice and every name read or assigned is declared
/// in the scope where it is used or in an enclosing one.
pub proof fn analysis_accepts_iff_well_scoped(program: AST)
    requires
        is_block(program),
    ensures
        (analysis(program) is Ok) == block_ok(program, Set::empty(), Seq::empty()),
{
    let st = seq![Frame { name: "global"@, level: 1, names: Seq::<Seq<char>>::empty() }];
    lemma_block(program, st);
    assert(stack_names(st.drop_last()) =~= Set::empty());
}

/// A program whose variable declarations repeat a name is rejected.
pub proof fn duplicate_declaration_is_rejected(program: AST, i: int, j: int)
    requires
        is_block(program),
        program matches AST::Block(vars, _, _) && 0 <= i < j < decl_names(*vars).len()
            && decl_names(*vars)[i] == decl_names(*vars)[j],
    ensures
        analysis(program) is Err,
{
    analysis_accepts_iff_well_scoped(program);
    match program {
        AST::Block(vars, _, _) => {
            assert(Seq::<Seq<char>>::empty() + decl_names(*vars) =~= decl_names(*vars));
        },
        _ => {},
    }
}

/// A procedure's scope is discarded at its end: a procedure declaration that
/// passes the analysis leaves the scope stack exactly as it found it, so none
/// of its parameters or locals is visible after it.
pub proof fn procedure_scope_is_discarded(name: String, params: AST, block: AST, st: Seq<Frame>)
    ensures
        visit(AST::ProcedureDecl(name, Box::new(params), Box::new(block)), st) is Ok ==> visit(
            AST::ProcedureDecl(name, Box::new(params), Box::new(block)),
            st,
        )->Ok_0 == st,
{
}

/// The analysis is a function of the tree alone: two runs on one tree end
/// the same way, with the same error where they fail.
pub proof fn analysis_is_repeatable(program: AST, r1: Result<(), SemanticError>, r2: Result<
    (),
    SemanticError,
>)
    requires
        analyzed(program, r1),
        analyzed(program, r2),
    ensures
        (r1 is Ok) == (r2 is Ok),
        r1 matches Err(e1) ==> r2 matches Err(e2) && e1@ == e2@,
{
}

/// What `analyze` promises of its result `r` on `program`.
pub open spec fn analyzed(program: AST, r: Result<(), SemanticError>) -> bool {
    match analysis(program) {
        Ok(_) => r is Ok,
        Err(f) => r matches Err(e) && e@ == f,
    }
}

} // verus!
