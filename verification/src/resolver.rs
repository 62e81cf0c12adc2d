//! The static pass that computes, for each variable reference, how many
//! scopes lie between the use and the declaration. The pass stops at the
//! first error it meets.

use vstd::prelude::*;
use vstd::hash_map::StringHashMap;
use vstd::string::*;
use std::collections::HashMap;
use std::collections::HashSet;
use std::rc::Rc;
use crate::expr::{entry_within, Expr};
use crate::stmt::{all_resolved_within, declared, FunctionDecl, Stmt};
use crate::token::Token;

verus! {

broadcast use vstd::std_specs::hash::group_hash_axioms;

/// Why a program was rejected.
#[derive(Debug)]
pub enum ResolveError {
    /// The initializer of a local variable reads the variable itself.
    OwnInitializer { name: String },
    /// Two nodes that can carry a distance share one identity.
    DuplicateNode { id: usize },
}

/// Mathematical counterpart of [`Resolver`]: the stack of lexical scopes,
/// innermost last, each mapping a name to whether it is ready to be read;
/// the distances recorded so far; and the identities of the nodes visited so
/// far.
pub struct ResolverModel {
    pub scopes: Seq<Map<Seq<char>, bool>>,
    pub locals: Map<usize, usize>,
    pub seen: Set<usize>,
}

/// Index of the innermost of the first `n` scopes that holds `name`.
pub open spec fn innermost(scopes: Seq<Map<Seq<char>, bool>>, name: Seq<char>, n: nat) -> Option<
    nat,
>
    decreases n,
{
    if n == 0 {
        None
    } else if n <= scopes.len() && scopes[n - 1].contains_key(name) {
        Some((n - 1) as nat)
    } else {
        innermost(scopes, name, (n - 1) as nat)
    }
}

impl ResolverModel {
    /// Every recorded distance belongs to a visited node.
    pub open spec fn wf(self) -> bool {
        forall|id: usize| #[trigger] self.locals.contains_key(id) ==> self.seen.contains(id)
    }

    /// The state after a scope was pushed.
    pub open spec fn begin_scope(self) -> ResolverModel {
        ResolverModel { scopes: self.scopes.push(Map::empty()), ..self }
    }

    /// The state after the innermost scope was popped.
    pub open spec fn end_scope(self) -> ResolverModel {
        ResolverModel { scopes: self.scopes.drop_last(), ..self }
    }

    /// The state after `name` was entered in the innermost scope as ready or
    /// not ready. Outside every scope nothing is entered.
    pub open spec fn declare(self, name: Seq<char>, ready: bool) -> ResolverModel {
        if self.scopes.len() == 0 {
            self
        } else {
            let last = self.scopes.len() - 1;
            ResolverModel {
                scopes: self.scopes.update(last, self.scopes[last].insert(name, ready)),
                ..self
            }
        }
    }

    /// Whether `name` is declared in the innermost scope and not yet ready.
    pub open spec fn in_own_initializer(self, name: Seq<char>) -> bool {
        self.scopes.len() > 0 && self.scopes.last().contains_key(name) && !self.scopes.last()[name]
    }

    /// The state after the node `id`, which refers to `name`, was visited:
    /// when a scope holds `name`, the number of scopes between the innermost
    /// scope and the innermost scope that holds `name` is recorded for `id`.
    pub open spec fn note(self, id: usize, name: Seq<char>) -> ResolverModel {
        ResolverModel {
            locals: match innermost(self.scopes, name, self.scopes.len()) {
                Some(k) => self.locals.insert(id, (self.scopes.len() - 1 - k) as usize),
                None => self.locals,
            },
            seen: self.seen.insert(id),
            ..self
        }
    }

    /// Visits the node `id`, which refers to `name`, unless a node of that
    /// identity was visited before.
    pub open spec fn visit(self, id: usize, name: Seq<char>) -> Result<ResolverModel, ResolveError> {
        if self.seen.contains(id) {
            Err(ResolveError::DuplicateNode { id })
        } else {
            Ok(self.note(id, name))
        }
    }

    /// Whether `other` is a later state of the pass: it has visited every
    /// node that `self` has, and records for those nodes what `self` does.
    pub open spec fn leads_to(self, other: ResolverModel) -> bool {
        records_kept(self.locals, self.seen, other.locals, other.seen)
    }
}

/// Whether the later record holds every visited node of the earlier one, and
/// for those nodes the distances of the earlier one.
pub open spec fn records_kept(
    locals: Map<usize, usize>,
    seen: Set<usize>,
    later_locals: Map<usize, usize>,
    later_seen: Set<usize>,
) -> bool {
    &&& forall|id: usize| #[trigger] seen.contains(id) ==> later_seen.contains(id)
    &&& forall|id: usize| #[trigger]
        seen.contains(id) ==> (later_locals.contains_key(id) <==> locals.contains_key(id)) && (
        locals.contains_key(id) ==> later_locals[id] == locals[id])
}

/// Result of resolving a read of a variable.
pub open spec fn resolve_variable(id: usize, name: Token, st: ResolverModel) -> Result<
    ResolverModel,
    ResolveError,
> {
    if st.in_own_initializer(name.lexeme@) {
        Err(ResolveError::OwnInitializer { name: name.lexeme })
    } else {
        st.visit(id, name.lexeme@)
    }
}

/// Result of resolving an expression from state `st`: the state after it, or
/// the first error.
pub open spec fn resolve_expr(e: Expr, st: ResolverModel) -> Result<ResolverModel, ResolveError>
    decreases e, 0nat,
{
    match e {
        Expr::Assign { id, name, value } => match resolve_expr(*value, st) {
            Ok(s1) => s1.visit(id, name.lexeme@),
            Err(err) => Err(err),
        },
        Expr::Binary { left, operator, right } => match resolve_expr(*left, st) {
            Ok(s1) => resolve_expr(*right, s1),
            Err(err) => Err(err),
        },
        Expr::Call { callee, arguments } => match resolve_expr(*callee, st) {
            Ok(s1) => resolve_exprs(arguments, 0, s1),
            Err(err) => Err(err),
        },
        Expr::Grouping { expression } => resolve_expr(*expression, st),
        Expr::Literal { value } => Ok(st),
        Expr::Unary { operator, right } => resolve_expr(*right, st),
        Expr::Variable { id, name } => resolve_variable(id, name, st),
    }
}

/// Result of resolving the expressions of `es` from the `i`-th on, in order.
pub open spec fn resolve_exprs(es: Vec<Expr>, i: nat, st: ResolverModel) -> Result<
    ResolverModel,
    ResolveError,
>
    decreases es, es.len() - i,
{
    if i < es.len() {
        match resolve_expr(es[i as int], st) {
            Ok(s1) => resolve_exprs(es, i + 1, s1),
            Err(err) => Err(err),
        }
    } else {
        Ok(st)
    }
}

/// The state after the parameters from the `i`-th on were declared ready in
/// the innermost scope.
pub open spec fn declare_params(params: Seq<Token>, i: nat, st: ResolverModel) -> ResolverModel
    decreases params.len() - i,
{
    if i < params.len() {
        declare_params(params, i + 1, st.declare(params[i as int].lexeme@, true))
    } else {
        st
    }
}

/// Result of resolving a function: its parameters and its body share one
/// new scope.
pub open spec fn resolve_function(decl: FunctionDecl, st: ResolverModel) -> Result<
    ResolverModel,
    ResolveError,
>
    decreases decl, 0nat,
{
    match resolve_stmts(decl.body, 0, declare_params(decl.params@, 0, st.begin_scope())) {
        Ok(s1) => Ok(s1.end_scope()),
        Err(err) => Err(err),
    }
}

/// Result of resolving the methods from the `i`-th on, in order.
pub open spec fn resolve_methods(methods: Vec<Rc<FunctionDecl>>, i: nat, st: ResolverModel) -> Result<
    ResolverModel,
    ResolveError,
>
    decreases methods, methods.len() - i,
{
    if i < methods.len() {
        match resolve_function(*methods[i as int], st) {
            Ok(s1) => resolve_methods(methods, i + 1, s1),
            Err(err) => Err(err),
        }
    } else {
        Ok(st)
    }
}

/// Result of resolving the statements from the `i`-th on, in order.
pub open spec fn resolve_stmts(ss: Vec<Stmt>, i: nat, st: ResolverModel) -> Result<
    ResolverModel,
    ResolveError,
>
    decreases ss, ss.len() - i,
{
    if i < ss.len() {
        match resolve_stmt(ss[i as int], st) {
            Ok(s1) => resolve_stmts(ss, i + 1, s1),
            Err(err) => Err(err),
        }
    } else {
        Ok(st)
    }
}

/// Result of resolving a statement from state `st`: the state after it, or
/// the first error.
pub open spec fn resolve_stmt(s: Stmt, st: ResolverModel) -> Result<ResolverModel, ResolveError>
    decreases s, 0nat,
{
    match s {
        Stmt::Expression { expression } => resolve_expr(expression, st),
        Stmt::Print { expression } => resolve_expr(expression, st),
        Stmt::Var { name, initializer } => match resolve_expr(
            initializer,
            st.declare(name.lexeme@, false),
        ) {
            Ok(s1) => Ok(s1.declare(name.lexeme@, true)),
            Err(err) => Err(err),
        },
        Stmt::Block { statements } => match resolve_stmts(statements, 0, st.begin_scope()) {
            Ok(s1) => Ok(s1.end_scope()),
            Err(err) => Err(err),
        },
        Stmt::IfStmt { predicate, then, els } => match resolve_expr(predicate, st) {
            Ok(s1) => match resolve_stmt(*then, s1) {
                Ok(s2) => match els {
                    Some(other) => resolve_stmt(*other, s2),
                    None => Ok(s2),
                },
                Err(err) => Err(err),
            },
            Err(err) => Err(err),
        },
        Stmt::WhileStmt { condition, body } => match resolve_expr(condition, st) {
            Ok(s1) => resolve_stmt(*body, s1),
            Err(err) => Err(err),
        },
        Stmt::Function { declaration } => resolve_function(
            *declaration,
            st.declare(declaration.name.lexeme@, true),
        ),
        Stmt::ReturnStmt { keyword, value } => match value {
            Some(e) => resolve_expr(e, st),
            None => Ok(st),
        },
        Stmt::Class { name, methods } => resolve_methods(
            methods,
            0,
            st.declare(name.lexeme@, true),
        ),
    }
}

/// A state leads to itself, and to whatever a later state leads to.
pub proof fn lemma_leads_to_chain(a: ResolverModel, b: ResolverModel, c: ResolverModel)
    requires
        a.leads_to(b),
        b.leads_to(c),
    ensures
        a.leads_to(c),
        a.leads_to(a),
{
}

/// What holds of an expression in one state of the pass holds in every later
/// state.
pub proof fn lemma_expr_settled(e: Expr, a: ResolverModel, b: ResolverModel, depth: nat)
    requires
        e.settled(a.locals, a.seen, depth),
        a.leads_to(b),
    ensures
        e.settled(b.locals, b.seen, depth),
    decreases e,
{
    match e {
        Expr::Assign { id, name, value } => {
            lemma_expr_settled(*value, a, b, depth);
        },
        Expr::Binary { left, operator, right } => {
            lemma_expr_settled(*left, a, b, depth);
            lemma_expr_settled(*right, a, b, depth);
        },
        Expr::Call { callee, arguments } => {
            lemma_expr_settled(*callee, a, b, depth);
            assert forall|i: int| 0 <= i < arguments.len() implies (#[trigger] arguments[i]).settled(
                b.locals,
                b.seen,
                depth,
            ) by {
                lemma_expr_settled(arguments[i], a, b, depth);
            }
        },
        Expr::Grouping { expression } => {
            lemma_expr_settled(*expression, a, b, depth);
        },
        Expr::Literal { value } => {},
        Expr::Unary { operator, right } => {
            lemma_expr_settled(*right, a, b, depth);
        },
        Expr::Variable { id, name } => {},
    }
}

/// What holds of a function in one state of the pass holds in every later
/// state.
pub proof fn lemma_function_settled(
    decl: FunctionDecl,
    a: ResolverModel,
    b: ResolverModel,
    depth: nat,
)
    requires
        decl.settled(a.locals, a.seen, depth),
        a.leads_to(b),
    ensures
        decl.settled(b.locals, b.seen, depth),
    decreases decl,
{
    assert forall|i: int| 0 <= i < decl.body.len() implies (#[trigger] decl.body[i]).settled(
        b.locals,
        b.seen,
        depth + 1,
    ) by {
        lemma_stmt_settled(decl.body[i], a, b, depth + 1);
    }
}

/// What holds of a statement in one state of the pass holds in every later
/// state.
pub proof fn lemma_stmt_settled(s: Stmt, a: ResolverModel, b: ResolverModel, depth: nat)
    requires
        s.settled(a.locals, a.seen, depth),
        a.leads_to(b),
    ensures
        s.settled(b.locals, b.seen, depth),
    decreases s,
{
    match s {
        Stmt::Expression { expression } => {
            lemma_expr_settled(expression, a, b, depth);
        },
        Stmt::Print { expression } => {
            lemma_expr_settled(expression, a, b, depth);
        },
        Stmt::Var { name, initializer } => {
            lemma_expr_settled(initializer, a, b, depth);
        },
        Stmt::Block { statements } => {
            assert forall|i: int| 0 <= i < statements.len() implies (
            #[trigger] statements[i]).settled(b.locals, b.seen, depth + 1) by {
                lemma_stmt_settled(statements[i], a, b, depth + 1);
            }
        },
        Stmt::IfStmt { predicate, then, els } => {
            lemma_expr_settled(predicate, a, b, depth);
            lemma_stmt_settled(*then, a, b, depth);
            match els {
                Some(other) => {
                    lemma_stmt_settled(*other, a, b, depth);
                },
                None => {},
            }
        },
        Stmt::WhileStmt { condition, body } => {
            lemma_expr_settled(condition, a, b, depth);
            lemma_stmt_settled(*body, a, b, depth);
        },
        Stmt::Function { declaration } => {
            lemma_function_settled(declared(declaration), a, b, depth);
        },
        Stmt::ReturnStmt { keyword, value } => {
            match value {
                Some(e) => {
                    lemma_expr_settled(e, a, b, depth);
                },
                None => {},
            }
        },
        Stmt::Class { name, methods } => {
            assert forall|i: int| 0 <= i < methods.len() implies (#[trigger] methods[i]).settled(
                b.locals,
                b.seen,
                depth,
            ) by {
                lemma_function_settled(declared(methods[i]), a, b, depth);
            }
        },
    }
}

/// The innermost scope that holds a name is one of the scopes searched.
pub proof fn lemma_innermost(scopes: Seq<Map<Seq<char>, bool>>, name: Seq<char>, n: nat)
    ensures
        match innermost(scopes, name, n) {
            Some(k) => k < n && k < scopes.len(),
            None => true,
        },
    decreases n,
{
    if n > 0 {
        lemma_innermost(scopes, name, (n - 1) as nat);
    }
}

/// Summary of one successful step of the pass from `st` to `s1`: recorded
/// distances still belong to visited nodes, `s1` is a later state, and the
/// scope stack is as deep as before.
pub open spec fn step_ok(st: ResolverModel, s1: ResolverModel) -> bool {
    &&& s1.wf()
    &&& st.leads_to(s1)
    &&& s1.scopes.len() == st.scopes.len()
}

/// A visit records a distance that stays below the depth of the scope stack.
pub proof fn lemma_visit_sound(st: ResolverModel, id: usize, name: Seq<char>)
    requires
        st.wf(),
    ensures
        match st.visit(id, name) {
            Ok(s1) => step_ok(st, s1) && entry_within(s1.locals, s1.seen, id, st.scopes.len()),
            Err(_) => true,
        },
{
    lemma_innermost(st.scopes, name, st.scopes.len());
}

/// Declaring parameters changes neither the depth of the scope stack nor
/// anything recorded.
pub proof fn lemma_declare_params(params: Seq<Token>, i: nat, st: ResolverModel)
    ensures
        declare_params(params, i, st).scopes.len() == st.scopes.len(),
        declare_params(params, i, st).locals == st.locals,
        declare_params(params, i, st).seen == st.seen,
    decreases params.len() - i,
{
    if i < params.len() {
        lemma_declare_params(params, i + 1, st.declare(params[i as int].lexeme@, true));
    }
}

/// Soundness of the pass on an expression: where it succeeds, every distance
/// it recorded for a node of the expression stays below the number of scopes
/// that enclose the expression.
pub proof fn lemma_resolve_expr_sound(e: Expr, st: ResolverModel)
    requires
        st.wf(),
    ensures
        match resolve_expr(e, st) {
            Ok(s1) => step_ok(st, s1) && e.settled(s1.locals, s1.seen, st.scopes.len()),
            Err(_) => true,
        },
    decreases e, 0nat,
{
    let depth = st.scopes.len();
    match e {
        Expr::Assign { id, name, value } => {
            lemma_resolve_expr_sound(*value, st);
            match resolve_expr(*value, st) {
                Ok(s1) => {
                    lemma_visit_sound(s1, id, name.lexeme@);
                    match s1.visit(id, name.lexeme@) {
                        Ok(s2) => {
                            lemma_expr_settled(*value, s1, s2, depth);
                        },
                        Err(_) => {},
                    }
                },
                Err(_) => {},
            }
        },
        Expr::Binary { left, operator, right } => {
            lemma_resolve_expr_sound(*left, st);
            match resolve_expr(*left, st) {
                Ok(s1) => {
                    lemma_resolve_expr_sound(*right, s1);
                    match resolve_expr(*right, s1) {
                        Ok(s2) => {
                            lemma_expr_settled(*left, s1, s2, depth);
                        },
                        Err(_) => {},
                    }
                },
                Err(_) => {},
            }
        },
        Expr::Call { callee, arguments } => {
            lemma_resolve_expr_sound(*callee, st);
            match resolve_expr(*callee, st) {
                Ok(s1) => {
                    lemma_resolve_exprs_sound(arguments, 0, s1);
                    match resolve_exprs(arguments, 0, s1) {
                        Ok(s2) => {
                            lemma_expr_settled(*callee, s1, s2, depth);
                        },
                        Err(_) => {},
                    }
                },
                Err(_) => {},
            }
        },
        Expr::Grouping { expression } => {
            lemma_resolve_expr_sound(*expression, st);
        },
        Expr::Literal { value } => {},
        Expr::Unary { operator, right } => {
            lemma_resolve_expr_sound(*right, st);
        },
        Expr::Variable { id, name } => {
            lemma_visit_sound(st, id, name.lexeme@);
        },
    }
}

/// Soundness of the pass on a list of expressions.
pub proof fn lemma_resolve_exprs_sound(es: Vec<Expr>, i: nat, st: ResolverModel)
    requires
        st.wf(),
    ensures
        match resolve_exprs(es, i, st) {
            Ok(s1) => step_ok(st, s1) && forall|j: int|
                i <= j < es.len() ==> (#[trigger] es[j]).settled(
                    s1.locals,
                    s1.seen,
                    st.scopes.len(),
                ),
            Err(_) => true,
        },
    decreases es, es.len() - i,
{
    if i < es.len() {
        lemma_resolve_expr_sound(es[i as int], st);
        match resolve_expr(es[i as int], st) {
            Ok(s1) => {
                lemma_resolve_exprs_sound(es, i + 1, s1);
                match resolve_exprs(es, i + 1, s1) {
                    Ok(s2) => {
                        lemma_expr_settled(es[i as int], s1, s2, st.scopes.len());
                    },
                    Err(_) => {},
                }
            },
            Err(_) => {},
        }
    }
}

/// Soundness of the pass on a function.
pub proof fn lemma_resolve_function_sound(decl: FunctionDecl, st: ResolverModel)
    requires
        st.wf(),
    ensures
        match resolve_function(decl, st) {
            Ok(s1) => step_ok(st, s1) && decl.settled(s1.locals, s1.seen, st.scopes.len()),
            Err(_) => true,
        },
    decreases decl, 0nat,
{
    let inner = declare_params(decl.params@, 0, st.begin_scope());
    lemma_declare_params(decl.params@, 0, st.begin_scope());
    lemma_resolve_stmts_sound(decl.body, 0, inner);
}

/// Soundness of the pass on a list of methods.
pub proof fn lemma_resolve_methods_sound(methods: Vec<Rc<FunctionDecl>>, i: nat, st: ResolverModel)
    requires
        st.wf(),
    ensures
        match resolve_methods(methods, i, st) {
            Ok(s1) => step_ok(st, s1) && forall|j: int|
                i <= j < methods.len() ==> (#[trigger] methods[j]).settled(
                    s1.locals,
                    s1.seen,
                    st.scopes.len(),
                ),
            Err(_) => true,
        },
    decreases methods, methods.len() - i,
{
    if i < methods.len() {
        lemma_resolve_function_sound(declared(methods[i as int]), st);
        match resolve_function(declared(methods[i as int]), st) {
            Ok(s1) => {
                lemma_resolve_methods_sound(methods, i + 1, s1);
                match resolve_methods(methods, i + 1, s1) {
                    Ok(s2) => {
                        lemma_function_settled(declared(methods[i as int]), s1, s2, st.scopes.len());
                    },
                    Err(_) => {},
                }
            },
            Err(_) => {},
        }
    }
}

/// Soundness of the pass on a list of statements.
pub proof fn lemma_resolve_stmts_sound(ss: Vec<Stmt>, i: nat, st: ResolverModel)
    requires
        st.wf(),
    ensures
        match resolve_stmts(ss, i, st) {
            Ok(s1) => step_ok(st, s1) && forall|j: int|
                i <= j < ss.len() ==> (#[trigger] ss[j]).settled(
                    s1.locals,
                    s1.seen,
                    st.scopes.len(),
                ),
            Err(_) => true,
        },
    decreases ss, ss.len() - i,
{
    if i < ss.len() {
        lemma_resolve_stmt_sound(ss[i as int], st);
        match resolve_stmt(ss[i as int], st) {
            Ok(s1) => {
                lemma_resolve_stmts_sound(ss, i + 1, s1);
                match resolve_stmts(ss, i + 1, s1) {
                    Ok(s2) => {
                        lemma_stmt_settled(ss[i as int], s1, s2, st.scopes.len());
                    },
                    Err(_) => {},
                }
            },
            Err(_) => {},
        }
    }
}

/// What soundness of the pass says of one statement.
pub open spec fn stmt_sound(s: Stmt, st: ResolverModel) -> bool {
    match resolve_stmt(s, st) {
        Ok(s1) => step_ok(st, s1) && s.settled(s1.locals, s1.seen, st.scopes.len()),
        Err(_) => true,
    }
}

/// Soundness of the pass on a statement: where it succeeds, every distance
/// it recorded for a node of the statement stays below the number of scopes
/// that enclose the node.
pub proof fn lemma_resolve_stmt_sound(s: Stmt, st: ResolverModel)
    requires
        st.wf(),
    ensures
        stmt_sound(s, st),
    decreases s, 0nat,
{
    let depth = st.scopes.len();
    match s {
        Stmt::Expression { expression } => {
            lemma_resolve_expr_sound(expression, st);
        },
        Stmt::Print { expression } => {
            lemma_resolve_expr_sound(expression, st);
        },
        Stmt::Var { name, initializer } => {
            lemma_resolve_expr_sound(initializer, st.declare(name.lexeme@, false));
        },
        Stmt::Block { statements } => {
            lemma_resolve_stmts_sound(statements, 0, st.begin_scope());
        },
        Stmt::IfStmt { predicate, then, els } => {
            lemma_resolve_expr_sound(predicate, st);
            match resolve_expr(predicate, st) {
                Ok(s1) => {
                    lemma_resolve_stmt_sound(*then, s1);
                    match resolve_stmt(*then, s1) {
                        Ok(s2) => {
                            lemma_expr_settled(predicate, s1, s2, depth);
                            lemma_leads_to_chain(st, s1, s2);
                            match els {
                                Some(other) => {
                                    lemma_resolve_stmt_sound(*other, s2);
                                    match resolve_stmt(*other, s2) {
                                        Ok(s3) => {
                                            lemma_leads_to_chain(st, s2, s3);
                                            lemma_expr_settled(predicate, s2, s3, depth);
                                            lemma_stmt_settled(*then, s2, s3, depth);
                                        },
                                        Err(_) => {},
                                    }
                                },
                                None => {},
                            }
                        },
                        Err(_) => {},
                    }
                },
                Err(_) => {},
            }
        },
        Stmt::WhileStmt { condition, body } => {
            lemma_resolve_expr_sound(condition, st);
            match resolve_expr(condition, st) {
                Ok(s1) => {
                    lemma_resolve_stmt_sound(*body, s1);
                    match resolve_stmt(*body, s1) {
                        Ok(s2) => {
                            lemma_leads_to_chain(st, s1, s2);
                            lemma_expr_settled(condition, s1, s2, depth);
                        },
                        Err(_) => {},
                    }
                },
                Err(_) => {},
            }
        },
        Stmt::Function { declaration } => {
            lemma_resolve_function_sound(
                declared(declaration),
                st.declare(declaration.name.lexeme@, true),
            );
        },
        Stmt::ReturnStmt { keyword, value } => {
            match value {
                Some(e) => {
                    lemma_resolve_expr_sound(e, st);
                },
                None => {},
            }
        },
        Stmt::Class { name, methods } => {
            lemma_resolve_methods_sound(methods, 0, st.declare(name.lexeme@, true));
        },
    }
}

/// Whether the outcome `r` with the state `after` is what the pass yields
/// for `expected`: the same error, or success in the same state.
pub open spec fn outcome_is(
    r: Result<(), ResolveError>,
    after: ResolverModel,
    expected: Result<ResolverModel, ResolveError>,
) -> bool {
    match r {
        Ok(_) => expected == Ok::<ResolverModel, ResolveError>(after),
        Err(err) => expected == Err::<ResolverModel, ResolveError>(err),
    }
}

/// The binding-resolution pass over a program.
pub struct Resolver {
    scopes: Vec<StringHashMap<bool>>,
    locals: HashMap<usize, usize>,
    seen: HashSet<usize>,
}

impl View for Resolver {
    type V = ResolverModel;

    closed spec fn view(&self) -> ResolverModel {
        ResolverModel {
            scopes: Seq::new(self.scopes.len() as nat, |i: int| self.scopes[i]@),
            locals: self.locals@,
            seen: self.seen@,
        }
    }
}

impl ResolveError {
    /// The message for the user.
    pub open spec fn text(self) -> Seq<char> {
        match self {
            ResolveError::OwnInitializer { name } => "Can't read local variable in its own initializer"@,
            ResolveError::DuplicateNode { id } => "Two expressions share one identity"@,
        }
    }

    /// The message for the user.
    pub fn message(&self) -> (r: String)
        ensures
            r@ == self.text(),
    {
        match self {
            ResolveError::OwnInitializer { .. } => String::from_str(
                "Can't read local variable in its own initializer",
            ),
            ResolveError::DuplicateNode { .. } => String::from_str(
                "Two expressions share one identity",
            ),
        }
    }
}

impl Resolver {
    /// A pass that has seen nothing and stands outside every scope.
    pub fn new() -> (r: Resolver)
        ensures
            r@.scopes == Seq::<Map<Seq<char>, bool>>::empty(),
            r@.locals == Map::<usize, usize>::empty(),
            r@.seen == Set::<usize>::empty(),
            r@.wf(),
    {
        let r = Resolver { scopes: Vec::new(), locals: HashMap::new(), seen: HashSet::new() };
        assert(r@.scopes =~= Seq::<Map<Seq<char>, bool>>::empty());
        r
    }

    /// The distances recorded so far, keyed by node identity.
    pub fn locals(&self) -> (r: &HashMap<usize, usize>)
        ensures
            r@ == self@.locals,
    {
        &self.locals
    }

    /// Ends the pass and hands over the distances it recorded.
    pub fn into_locals(self) -> (r: HashMap<usize, usize>)
        ensures
            r@ == self@.locals,
    {
        self.locals
    }

    /// Number of scopes on the stack.
    pub fn depth(&self) -> (r: usize)
        ensures
            r == self@.scopes.len(),
    {
        self.scopes.len()
    }

    /// Pushes a scope.
    fn begin_scope(&mut self)
        ensures
            final(self)@ == old(self)@.begin_scope(),
    {
        self.scopes.push(StringHashMap::new());
        assert(self@.scopes =~= old(self)@.begin_scope().scopes);
    }

    /// Pops the innermost scope.
    fn end_scope(&mut self)
        requires
            old(self)@.scopes.len() > 0,
        ensures
            final(self)@ == old(self)@.end_scope(),
    {
        let _ = self.scopes.pop();
        assert(self@.scopes =~= old(self)@.end_scope().scopes);
    }

    /// Enters `name` in the innermost scope as ready or not ready.
    fn declare(&mut self, name: &Token, ready: bool)
        ensures
            final(self)@ == old(self)@.declare(name.lexeme@, ready),
    {
        let size = self.scopes.len();
        if size == 0 {
            return ;
        }
        self.scopes[size - 1].insert(name.lexeme.clone(), ready);
        assert(self@.scopes =~= old(self)@.declare(name.lexeme@, ready).scopes);
    }

    /// Index of the innermost scope that holds `name`.
    fn find_scope(&self, name: &Token) -> (r: Option<usize>)
        ensures
            match r {
                Some(k) => innermost(self@.scopes, name.lexeme@, self@.scopes.len()) == Some(
                    k as nat,
                ),
                None => innermost(self@.scopes, name.lexeme@, self@.scopes.len()) is None,
            },
    {
        let mut n = self.scopes.len();
        while n > 0
            invariant
                n <= self.scopes.len(),
                innermost(self@.scopes, name.lexeme@, n as nat) == innermost(
                    self@.scopes,
                    name.lexeme@,
                    self@.scopes.len(),
                ),
            decreases n,
        {
            if self.scopes[n - 1].contains_key(name.lexeme.as_str()) {
                return Some(n - 1);
            }
            n = n - 1;
        }
        None
    }

    /// Visits the node `id`, which refers to `name`.
    fn resolve_local(&mut self, id: usize, name: &Token) -> (r: Result<(), ResolveError>)
        ensures
            outcome_is(r, final(self)@, old(self)@.visit(id, name.lexeme@)),
            r is Ok ==> final(self)@.scopes.len() == old(self)@.scopes.len(),
    {
        if self.seen.contains(&id) {
            return Err(ResolveError::DuplicateNode { id });
        }
        let size = self.scopes.len();
        match self.find_scope(name) {
            Some(k) => {
                proof {
                    lemma_innermost(self@.scopes, name.lexeme@, self@.scopes.len());
                }
                self.locals.insert(id, size - 1 - k);
            },
            None => {},
        }
        self.seen.insert(id);
        Ok(())
    }

    /// Resolves a read of the variable `name` at the node `id`.
    fn resolve_expr_var(&mut self, id: usize, name: &Token) -> (r: Result<(), ResolveError>)
        ensures
            outcome_is(r, final(self)@, resolve_variable(id, *name, old(self)@)),
            r is Ok ==> final(self)@.scopes.len() == old(self)@.scopes.len(),
    {
        let size = self.scopes.len();
        if size > 0 {
            match self.scopes[size - 1].get(name.lexeme.as_str()) {
                Some(ready) => {
                    if !*ready {
                        return Err(ResolveError::OwnInitializer { name: name.lexeme.clone() });
                    }
                },
                None => {},
            }
        }
        self.resolve_local(id, name)
    }

    /// Resolves an expression.
    fn resolve_expr(&mut self, expr: &Expr) -> (r: Result<(), ResolveError>)
        ensures
            outcome_is(r, final(self)@, resolve_expr(*expr, old(self)@)),
            r is Ok ==> final(self)@.scopes.len() == old(self)@.scopes.len(),
        decreases expr, 0nat,
    {
        match expr {
            Expr::Assign { id, name, value } => {
                match self.resolve_expr(value) {
                    Ok(_) => self.resolve_local(*id, name),
                    Err(err) => Err(err),
                }
            },
            Expr::Binary { left, operator, right } => {
                match self.resolve_expr(left) {
                    Ok(_) => self.resolve_expr(right),
                    Err(err) => Err(err),
                }
            },
            Expr::Call { callee, arguments } => {
                match self.resolve_expr(callee) {
                    Ok(_) => self.resolve_exprs(arguments),
                    Err(err) => Err(err),
                }
            },
            Expr::Grouping { expression } => self.resolve_expr(expression),
            Expr::Literal { .. } => Ok(()),
            Expr::Unary { operator, right } => self.resolve_expr(right),
            Expr::Variable { id, name } => self.resolve_expr_var(*id, name),
        }
    }

    /// Resolves expressions in order.
    fn resolve_exprs(&mut self, exprs: &Vec<Expr>) -> (r: Result<(), ResolveError>)
        ensures
            outcome_is(r, final(self)@, resolve_exprs(*exprs, 0, old(self)@)),
            r is Ok ==> final(self)@.scopes.len() == old(self)@.scopes.len(),
        decreases exprs, exprs.len(),
    {
        let mut i: usize = 0;
        while i < exprs.len()
            invariant
                i <= exprs.len(),
                resolve_exprs(*exprs, i as nat, self@) == resolve_exprs(*exprs, 0, old(self)@),
                self@.scopes.len() == old(self)@.scopes.len(),
            decreases exprs.len() - i,
        {
            match self.resolve_expr(&exprs[i]) {
                Ok(_) => {},
                Err(err) => {
                    return Err(err);
                },
            }
            i = i + 1;
        }
        Ok(())
    }

    /// Resolves a function: its parameters and its body share one new scope.
    fn resolve_function(&mut self, declaration: &FunctionDecl) -> (r: Result<(), ResolveError>)
        ensures
            outcome_is(r, final(self)@, resolve_function(*declaration, old(self)@)),
            r is Ok ==> final(self)@.scopes.len() == old(self)@.scopes.len(),
        decreases declaration, 0nat,
    {
        self.begin_scope();
        let mut i: usize = 0;
        while i < declaration.params.len()
            invariant
                i <= declaration.params.len(),
                declare_params(declaration.params@, i as nat, self@) == declare_params(
                    declaration.params@,
                    0,
                    old(self)@.begin_scope(),
                ),
                self@.scopes.len() == old(self)@.scopes.len() + 1,
            decreases declaration.params.len() - i,
        {
            self.declare(&declaration.params[i], true);
            i = i + 1;
        }
        proof {
            lemma_declare_params(declaration.params@, 0, old(self)@.begin_scope());
        }
        match self.resolve_many(&declaration.body) {
            Ok(_) => {
                self.end_scope();
                Ok(())
            },
            Err(err) => Err(err),
        }
    }

    /// Resolves the methods of a class in order.
    fn resolve_methods(&mut self, methods: &Vec<Rc<FunctionDecl>>) -> (r: Result<(), ResolveError>)
        ensures
            outcome_is(r, final(self)@, resolve_methods(*methods, 0, old(self)@)),
            r is Ok ==> final(self)@.scopes.len() == old(self)@.scopes.len(),
        decreases methods, methods.len(),
    {
        let mut i: usize = 0;
        while i < methods.len()
            invariant
                i <= methods.len(),
                resolve_methods(*methods, i as nat, self@) == resolve_methods(
                    *methods,
                    0,
                    old(self)@,
                ),
                self@.scopes.len() == old(self)@.scopes.len(),
            decreases methods.len() - i,
        {
            match self.resolve_function(&methods[i]) {
                Ok(_) => {},
                Err(err) => {
                    return Err(err);
                },
            }
            i = i + 1;
        }
        Ok(())
    }

    /// Resolves the statements in order and stops at the first error. On
    /// success every distance recorded for a node of the statements stays
    /// below the number of scopes that enclose the node.
    pub fn resolve_many(&mut self, stmts: &Vec<Stmt>) -> (r: Result<(), ResolveError>)
        ensures
            outcome_is(r, final(self)@, resolve_stmts(*stmts, 0, old(self)@)),
            r is Ok && old(self)@.wf() ==> final(self)@.wf() && all_resolved_within(
                stmts@,
                final(self)@.locals,
                old(self)@.scopes.len(),
            ),
            r is Ok ==> final(self)@.scopes.len() == old(self)@.scopes.len(),
        decreases stmts, stmts.len(),
    {
        let mut i: usize = 0;
        while i < stmts.len()
            invariant
                i <= stmts.len(),
                resolve_stmts(*stmts, i as nat, self@) == resolve_stmts(*stmts, 0, old(self)@),
                self@.scopes.len() == old(self)@.scopes.len(),
            decreases stmts.len() - i,
        {
            match self.resolve(&stmts[i]) {
                Ok(_) => {},
                Err(err) => {
                    return Err(err);
                },
            }
            i = i + 1;
        }
        proof {
            if old(self)@.wf() {
                lemma_resolve_stmts_sound(*stmts, 0, old(self)@);
                let full = ResolverModel { seen: Set::full(), ..self@ };
                assert forall|j: int| 0 <= j < stmts.len() implies (#[trigger] stmts@[j]).resolved_within(
                    self@.locals,
                    old(self)@.scopes.len(),
                ) by {
                    lemma_stmt_settled(stmts[j], self@, full, old(self)@.scopes.len());
                }
            }
        }
        Ok(())
    }

    /// Resolves one statement and stops at the first error: a local variable
    /// read in its own initializer, or a node identity met twice. On success
    /// every distance recorded for a node of the statement stays below the
    /// number of scopes that enclose the node.
    pub fn resolve(&mut self, stmt: &Stmt) -> (r: Result<(), ResolveError>)
        ensures
            outcome_is(r, final(self)@, resolve_stmt(*stmt, old(self)@)),
            r is Ok && old(self)@.wf() ==> final(self)@.wf() && stmt.resolved_within(
                final(self)@.locals,
                old(self)@.scopes.len(),
            ),
            r is Ok ==> final(self)@.scopes.len() == old(self)@.scopes.len(),
        decreases stmt, 0nat,
    {
        let r = match stmt {
            Stmt::Expression { expression } => self.resolve_expr(expression),
            Stmt::Print { expression } => self.resolve_expr(expression),
            Stmt::Var { name, initializer } => self.resolve_var(name, initializer),
            Stmt::Block { statements } => self.resolve_block(statements),
            Stmt::IfStmt { predicate, then, els } => {
                match self.resolve_expr(predicate) {
                    Ok(_) => match self.resolve(then) {
                        Ok(_) => match els {
                            Some(other) => self.resolve(other),
                            None => Ok(()),
                        },
                        Err(err) => Err(err),
                    },
                    Err(err) => Err(err),
                }
            },
            Stmt::WhileStmt { condition, body } => {
                match self.resolve_expr(condition) {
                    Ok(_) => self.resolve(body),
                    Err(err) => Err(err),
                }
            },
            Stmt::Function { declaration } => {
                self.declare(&declaration.name, true);
                self.resolve_function(declaration)
            },
            Stmt::ReturnStmt { keyword, value } => {
                match value {
                    Some(e) => self.resolve_expr(e),
                    None => Ok(()),
                }
            },
            Stmt::Class { name, methods } => {
                self.declare(name, true);
                self.resolve_methods(methods)
            },
        };
        proof {
            if r is Ok && old(self)@.wf() {
                lemma_resolve_stmt_sound(*stmt, old(self)@);
                let full = ResolverModel { seen: Set::full(), ..self@ };
                lemma_stmt_settled(*stmt, self@, full, old(self)@.scopes.len());
            }
        }
        r
    }

    /// Resolves a block in a new scope.
    fn resolve_block(&mut self, statements: &Vec<Stmt>) -> (r: Result<(), ResolveError>)
        ensures
            outcome_is(
                r,
                final(self)@,
                match resolve_stmts(*statements, 0, old(self)@.begin_scope()) {
                    Ok(s1) => Ok(s1.end_scope()),
                    Err(err) => Err(err),
                },
            ),
            r is Ok ==> final(self)@.scopes.len() == old(self)@.scopes.len(),
        decreases statements, statements.len() + 1,
    {
        self.begin_scope();
        match self.resolve_many(statements) {
            Ok(_) => {
                self.end_scope();
                Ok(())
            },
            Err(err) => Err(err),
        }
    }

    /// Resolves the declaration of a variable: the name is not ready while
    /// its initializer is resolved.
    fn resolve_var(&mut self, name: &Token, initializer: &Expr) -> (r: Result<(), ResolveError>)
        ensures
            outcome_is(
                r,
                final(self)@,
                match resolve_expr(*initializer, old(self)@.declare(name.lexeme@, false)) {
                    Ok(s1) => Ok(s1.declare(name.lexeme@, true)),
                    Err(err) => Err(err),
                },
            ),
            r is Ok ==> final(self)@.scopes.len() == old(self)@.scopes.len(),
        decreases initializer, 1nat,
    {
        self.declare(name, false);
        match self.resolve_expr(initializer) {
            Ok(_) => {
                self.declare(name, true);
                Ok(())
            },
            Err(err) => Err(err),
        }
    }
}

} // verus!
