//! Laws that relate the parts of the library to each other.

use vstd::prelude::*;
use crate::environment::{ancestor, holder, hops, lemma_holder, lemma_target, EnvModel};
use crate::error::RuntimeError;
use crate::number::Number;
use crate::expr::{entry_within, Expr, FunctionModel, ValueModel};
use crate::resolver::{
    lemma_resolve_stmt_sound, lemma_stmt_settled, resolve_stmt, ResolveError, ResolverModel,
};
use crate::semantics::{
    declaration_of, eval, exec, invoke, iterate, method_values, returned, run, Machine,
};
use crate::stmt::{declared, FunctionDecl, Stmt};
use crate::token::Token;

verus! {

/// What is resolved within some number of scopes is resolved within every
/// greater number: expressions.
pub proof fn lemma_expr_resolved_deeper(
    e: Expr,
    locals: Map<usize, usize>,
    seen: Set<usize>,
    depth: nat,
    deeper: nat,
)
    requires
        e.settled(locals, seen, depth),
        depth <= deeper,
    ensures
        e.settled(locals, seen, deeper),
    decreases e,
{
    match e {
        Expr::Assign { id, name, value } => {
            lemma_expr_resolved_deeper(*value, locals, seen, depth, deeper);
        },
        Expr::Binary { left, operator, right } => {
            lemma_expr_resolved_deeper(*left, locals, seen, depth, deeper);
            lemma_expr_resolved_deeper(*right, locals, seen, depth, deeper);
        },
        Expr::Call { callee, arguments } => {
            lemma_expr_resolved_deeper(*callee, locals, seen, depth, deeper);
            assert forall|i: int| 0 <= i < arguments.len() implies (#[trigger] arguments[i]).settled(
                locals,
                seen,
                deeper,
            ) by {
                lemma_expr_resolved_deeper(arguments[i], locals, seen, depth, deeper);
            }
        },
        Expr::Grouping { expression } => {
            lemma_expr_resolved_deeper(*expression, locals, seen, depth, deeper);
        },
        Expr::Literal { value } => {},
        Expr::Unary { operator, right } => {
            lemma_expr_resolved_deeper(*right, locals, seen, depth, deeper);
        },
        Expr::Variable { id, name } => {},
    }
}

/// What is resolved within some number of scopes is resolved within every
/// greater number: functions.
pub proof fn lemma_function_resolved_deeper(
    decl: FunctionDecl,
    locals: Map<usize, usize>,
    seen: Set<usize>,
    depth: nat,
    deeper: nat,
)
    requires
        decl.settled(locals, seen, depth),
        depth <= deeper,
    ensures
        decl.settled(locals, seen, deeper),
    decreases decl,
{
    assert forall|i: int| 0 <= i < decl.body.len() implies (#[trigger] decl.body[i]).settled(
        locals,
        seen,
        deeper + 1,
    ) by {
        lemma_stmt_resolved_deeper(decl.body[i], locals, seen, depth + 1, deeper + 1);
    }
}

/// What is resolved within some number of scopes is resolved within every
/// greater number: statements.
pub proof fn lemma_stmt_resolved_deeper(
    s: Stmt,
    locals: Map<usize, usize>,
    seen: Set<usize>,
    depth: nat,
    deeper: nat,
)
    requires
        s.settled(locals, seen, depth),
        depth <= deeper,
    ensures
        s.settled(locals, seen, deeper),
    decreases s,
{
    match s {
        Stmt::Expression { expression } => {
            lemma_expr_resolved_deeper(expression, locals, seen, depth, deeper);
        },
        Stmt::Print { expression } => {
            lemma_expr_resolved_deeper(expression, locals, seen, depth, deeper);
        },
        Stmt::Var { name, initializer } => {
            lemma_expr_resolved_deeper(initializer, locals, seen, depth, deeper);
        },
        Stmt::Block { statements } => {
            assert forall|i: int| 0 <= i < statements.len() implies (
            #[trigger] statements[i]).settled(locals, seen, deeper + 1) by {
                lemma_stmt_resolved_deeper(statements[i], locals, seen, depth + 1, deeper + 1);
            }
        },
        Stmt::IfStmt { predicate, then, els } => {
            lemma_expr_resolved_deeper(predicate, locals, seen, depth, deeper);
            lemma_stmt_resolved_deeper(*then, locals, seen, depth, deeper);
            match els {
                Some(other) => {
                    lemma_stmt_resolved_deeper(*other, locals, seen, depth, deeper);
                },
                None => {},
            }
        },
        Stmt::WhileStmt { condition, body } => {
            lemma_expr_resolved_deeper(condition, locals, seen, depth, deeper);
            lemma_stmt_resolved_deeper(*body, locals, seen, depth, deeper);
        },
        Stmt::Function { declaration } => {
            lemma_function_resolved_deeper(declared(declaration), locals, seen, depth, deeper);
        },
        Stmt::ReturnStmt { keyword, value } => {
            match value {
                Some(e) => {
                    lemma_expr_resolved_deeper(e, locals, seen, depth, deeper);
                },
                None => {},
            }
        },
        Stmt::Class { name, methods } => {
            assert forall|i: int| 0 <= i < methods.len() implies (#[trigger] methods[i]).settled(
                locals,
                seen,
                deeper,
            ) by {
                lemma_function_resolved_deeper(declared(methods[i]), locals, seen, depth, deeper);
            }
        },
    }
}

/// The frame that binds a name is the same in two arenas that agree, on the
/// frames up to `i`, on the links and on which frames bind the name.
pub proof fn lemma_holder_agree(
    scopes: Seq<Map<Seq<char>, ValueModel>>,
    links: Seq<Option<nat>>,
    other_scopes: Seq<Map<Seq<char>, ValueModel>>,
    other_links: Seq<Option<nat>>,
    i: nat,
    name: Seq<char>,
)
    requires
        i < scopes.len() <= other_scopes.len(),
        i < links.len() <= other_links.len(),
        forall|j: int| 0 <= j <= i ==> #[trigger] other_links[j] == links[j],
        forall|j: int|
            0 <= j <= i ==> (#[trigger] other_scopes[j].contains_key(name)) == scopes[j].contains_key(
                name,
            ),
    ensures
        holder(other_scopes, other_links, i, name) == holder(scopes, links, i, name),
    decreases i,
{
    assert(links[i as int] == other_links[i as int]);
    if !scopes[i as int].contains_key(name) {
        match links[i as int] {
            Some(p) => {
                if p < i {
                    lemma_holder_agree(scopes, links, other_scopes, other_links, p, name);
                }
            },
            None => {},
        }
    }
}

/// The frame reached by following links is the same in two arenas that
/// agree on the links of the frames up to `i`.
pub proof fn lemma_ancestor_agree(
    links: Seq<Option<nat>>,
    other_links: Seq<Option<nat>>,
    i: nat,
    d: nat,
)
    requires
        i < links.len() <= other_links.len(),
        forall|j: int| 0 <= j <= i ==> #[trigger] other_links[j] == links[j],
        forall|j: int|
            0 <= j <= i ==> match #[trigger] links[j] {
                Some(p) => p < j,
                None => true,
            },
    ensures
        ancestor(other_links, i, d) == ancestor(links, i, d),
    decreases d,
{
    assert(links[i as int] == other_links[i as int]);
    if d > 0 {
        match links[i as int] {
            Some(p) => {
                lemma_ancestor_agree(links, other_links, p, (d - 1) as nat);
            },
            None => {},
        }
    }
}

/// Shadowing. After a frame was made inside the current one and `name` was
/// declared in it, a read of `name` in the new frame gives the inner value,
/// with or without a distance. Once the outer frame is current again, every
/// read gives what it gave before the inner frame was made: the declaration
/// changed no binding of an outer frame. When the inner frame is given up,
/// the arena is what it was before the frame was made.
pub proof fn law_shadowing(env: EnvModel, name: Seq<char>, inner: ValueModel)
    requires
        env.chained(),
    ensures
        env.enclose().define(name, inner).get(name, None) == Some(inner),
        env.enclose().define(name, inner).get(name, Some(0usize)) == Some(inner),
        forall|other: Seq<char>, distance: Option<usize>|
            env.reaches(distance) ==> #[trigger] env.enclose().define(name, inner).enter(
                env.current,
            ).get(other, distance) == env.get(other, distance),
        env.enclose().define(name, inner).enter(env.current).release(env.links.len()) == env,
{
    assert(env.enclose().define(name, inner).enter(env.current).release(env.links.len()).scopes
        =~= env.scopes);
    assert(env.enclose().define(name, inner).enter(env.current).release(env.links.len()).links
        =~= env.links);
    let nested = env.enclose().define(name, inner);
    let back = nested.enter(env.current);
    assert forall|other: Seq<char>, distance: Option<usize>| env.reaches(distance) implies (
    #[trigger] back.get(other, distance)) == env.get(other, distance) by {
        lemma_target(env, other, distance);
        match distance {
            Some(d) => {
                lemma_ancestor_agree(env.links, back.links, env.current, d as nat);
            },
            None => {
                lemma_holder_agree(
                    env.scopes,
                    env.links,
                    back.scopes,
                    back.links,
                    env.current,
                    other,
                );
            },
        }
    }
}

/// A declaration in a block is local to the block: a block that declares a
/// variable and does nothing else leaves the state as it was, whatever the
/// outer frames bind under that name.
pub proof fn law_block_declaration_is_local(s: Stmt, m: Machine, depth: nat, tape: Seq<Number>)
    requires
        m.env.chained(),
        s is Block,
        s->statements.len() == 1,
        s->statements[0] is Var,
        s->statements[0]->initializer is Literal,
        s->statements[0]->initializer->Literal_value@.is_plain(),
    ensures
        exec(s, m, depth, tape) == (Ok::<Option<ValueModel>, RuntimeError>(None), m),
{
    let statements = s->statements;
    let name = statements[0]->Var_name.lexeme@;
    let value = statements[0]->initializer->Literal_value@;
    let inner = m.with_env(m.env.enclose());
    law_shadowing(m.env, name, value);
    reveal_with_fuel(run, 3);
    reveal_with_fuel(exec, 2);
    reveal_with_fuel(eval, 2);
    let declared = inner.with_env(inner.env.define(name, value));
    assert(exec(statements[0], inner, depth, tape) == (
        Ok::<Option<ValueModel>, RuntimeError>(None),
        declared,
    ));
    assert(run(statements, 1, declared, depth, tape) == (
        Ok::<Option<ValueModel>, RuntimeError>(None),
        declared,
    ));
    assert(run(statements, 0, inner, depth, tape) == (
        Ok::<Option<ValueModel>, RuntimeError>(None),
        declared,
    ));
    assert(declared.leave_block(m).env == m.env);
    assert(declared.leave_block(m) == m);
}

/// A frame outlives the block that made it when a function was declared in
/// it: after a block that declares a function and does nothing else, the
/// frame of the block is still there and lasts, it binds the function, and
/// the function names it.
pub proof fn law_function_keeps_its_frame(s: Stmt, m: Machine, depth: nat, tape: Seq<Number>)
    requires
        m.env.chained(),
        s is Block,
        s->statements.len() == 1,
        s->statements[0] is Function,
    ensures
        exec(s, m, depth, tape).0 == Ok::<Option<ValueModel>, RuntimeError>(None),
        ({
            let after = exec(s, m, depth, tape).1.env;
            let frame = m.env.links.len();
            let declaration = declared(s->statements[0]->declaration);
            &&& after.links == m.env.links.push(Some(m.env.current))
            &&& after.current == m.env.current
            &&& after.captured == frame + 1
            &&& after.scopes[frame as int].contains_key(declaration.name.lexeme@)
            &&& after.scopes[frame as int][declaration.name.lexeme@] matches ValueModel::Callable {
                fun: FunctionModel::Closure { frame: named, .. },
                ..
            } && named == frame
        }),
{
    let statements = s->statements;
    let inner = m.with_env(m.env.enclose());
    reveal_with_fuel(run, 3);
    reveal_with_fuel(exec, 2);
    let declaration = declared(statements[0]->declaration);
    let made = inner.with_env(
        inner.env.capture().define(declaration.name.lexeme@, inner.closure(declaration)),
    );
    assert(exec(statements[0], inner, depth, tape) == (
        Ok::<Option<ValueModel>, RuntimeError>(None),
        made,
    ));
    assert(run(statements, 1, made, depth, tape) == (
        Ok::<Option<ValueModel>, RuntimeError>(None),
        made,
    ));
    assert(run(statements, 0, inner, depth, tape) == (
        Ok::<Option<ValueModel>, RuntimeError>(None),
        made,
    ));
}

/// Capture by reference. When a lookup of `name` from frame `a` and a lookup
/// of `name` from frame `b` read the same frame, a value assigned from `a`
/// is what a read from `b` gives afterwards. A frame in which a function
/// was declared is never removed, so this holds however long ago the frame
/// was made.
pub proof fn law_capture_by_reference(
    env: EnvModel,
    a: nat,
    b: nat,
    from_a: Option<usize>,
    from_b: Option<usize>,
    name: Seq<char>,
    v: ValueModel,
)
    requires
        env.chained(),
        a < env.links.len(),
        b < env.links.len(),
        env.enter(a).reaches(from_a),
        env.enter(b).reaches(from_b),
        env.enter(a).target(name, from_a) is Some,
        env.enter(a).target(name, from_a) == env.enter(b).target(name, from_b),
    ensures
        env.enter(a).assign(name, v, from_a).enter(b).get(name, from_b) == Some(v),
        env.enter(a).assign(name, v, from_a).links == env.links,
        env.enter(a).assign(name, v, from_a).scopes.len() == env.scopes.len(),
{
    let f = env.enter(a).target(name, from_a)->0;
    lemma_target(env.enter(a), name, from_a);
    let after = env.enter(a).assign(name, v, from_a).enter(b);
    match from_b {
        Some(d) => {},
        None => {
            lemma_holder(env.enter(b), b, name);
            lemma_holder_agree(env.scopes, env.links, after.scopes, after.links, b, name);
        },
    }
}

/// A frame in which a function was declared stays. Declaring a function
/// makes the current frame and every older frame last, and giving up a frame
/// that lasts changes nothing: the frame that a function value names is
/// there as long as the arena is, also after the block or the call that made
/// the frame has ended.
pub proof fn law_captured_frame_stays(env: EnvModel, frame: nat)
    requires
        env.chained(),
    ensures
        env.capture().captured > env.current,
        env.capture().captured >= env.captured,
        frame < env.captured ==> env.release(frame) == env,
        frame <= env.current ==> env.capture().release(frame) == env.capture(),
{
}

/// A program that the pass accepts is resolved within every number of scopes
/// that is at least the depth the pass started at: whatever frame the
/// program then runs in, no recorded distance leads out of the chain.
pub proof fn law_accepted_is_resolved(s: Stmt, st: ResolverModel, depth: nat)
    requires
        st.wf(),
        st.scopes.len() <= depth,
    ensures
        match resolve_stmt(s, st) {
            Ok(s1) => s.resolved_within(s1.locals, depth),
            Err(_) => true,
        },
{
    lemma_resolve_stmt_sound(s, st);
    match resolve_stmt(s, st) {
        Ok(s1) => {
            let full = ResolverModel { seen: Set::full(), ..s1 };
            lemma_stmt_settled(s, s1, full, st.scopes.len());
            lemma_stmt_resolved_deeper(s, s1.locals, Set::full(), st.scopes.len(), depth);
        },
        Err(_) => {},
    }
}

/// A reference that is resolved within the depth of the current chain is
/// looked up inside the chain: the lookup by its distance is one that the
/// frames allow.
pub proof fn law_resolved_lookup_reaches(m: Machine, id: usize)
    requires
        entry_within(m.locals, Set::full(), id, m.env.depth()),
    ensures
        m.env.reaches(m.distance(id)),
{
}

/// The root of the current chain.
pub open spec fn root(env: EnvModel) -> nat {
    ancestor(env.links, env.current, env.depth())
}

/// The first frame from `i` toward the root that binds a name exists when
/// the frame `d` links up binds it.
proof fn lemma_holder_finds(env: EnvModel, i: nat, d: nat, name: Seq<char>)
    requires
        env.chained(),
        i < env.links.len(),
        d <= hops(env.links, i),
        env.scopes[ancestor(env.links, i, d) as int].contains_key(name),
    ensures
        holder(env.scopes, env.links, i, name) is Some,
    decreases d,
{
    if d > 0 && !env.scopes[i as int].contains_key(name) {
        match env.links[i as int] {
            Some(p) => {
                lemma_holder_finds(env, p, (d - 1) as nat, name);
            },
            None => {},
        }
    }
}

/// A reference without a distance finds every name that the root frame of
/// the current chain binds: a read of it succeeds.
pub proof fn law_global_found_dynamically(m: Machine, id: usize, name: Token)
    requires
        m.env.chained(),
        !m.locals.contains_key(id),
        m.env.scopes[root(m.env) as int].contains_key(name.lexeme@),
    ensures
        m.env.get(name.lexeme@, None) is Some,
        m.read(id, name).0 is Ok,
{
    lemma_holder_finds(m.env, m.env.current, m.env.depth(), name.lexeme@);
    lemma_holder(m.env, m.env.current, name.lexeme@);
}

/// A `return` ends the statements it stands among: when a statement of a
/// sequence ends with the return of a value, the sequence ends there with
/// that value and the statements behind it are not run.
pub proof fn law_return_skips_rest(ss: Vec<Stmt>, i: nat, m: Machine, depth: nat, tape: Seq<Number>)
    requires
        i < ss.len(),
        exec(ss[i as int], m, depth, tape).0 matches Ok(Some(_)),
    ensures
        run(ss, i, m, depth, tape) == exec(ss[i as int], m, depth, tape),
{
}

/// A `return` passes through a block: the block ends with the value that
/// its statements returned.
pub proof fn law_return_leaves_block(s: Stmt, m: Machine, depth: nat, tape: Seq<Number>)
    requires
        s is Block,
    ensures
        exec(s, m, depth, tape).0 == run(s->statements, 0, m.with_env(m.env.enclose()), depth, tape).0,
{
}

/// A `return` passes through a conditional: the conditional ends as the
/// branch that was taken ends.
pub proof fn law_return_leaves_if(s: Stmt, m: Machine, depth: nat, tape: Seq<Number>)
    requires
        s is IfStmt,
        eval(s->predicate, m, depth, tape).0 is Ok,
    ensures
        ({
            let (c, m1) = eval(s->predicate, m, depth, tape);
            if !c->Ok_0.falsy() {
                exec(s, m, depth, tape) == exec(*s->then, m1, depth, tape)
            } else {
                match s->els {
                    Some(other) => exec(s, m, depth, tape) == exec(*other, m1, depth, tape),
                    None => exec(s, m, depth, tape) == (Ok::<Option<ValueModel>, RuntimeError>(None), m1),
                }
            }
        }),
{
}

/// A `return` passes through a loop: when the body returns a value in some
/// iteration, the loop ends at once with that value.
pub proof fn law_return_leaves_loop(s: Stmt, m: Machine, depth: nat, left: nat, tape: Seq<Number>)
    requires
        s is WhileStmt,
        left > 0,
        eval(s->condition, m, depth, tape).0 matches Ok(v) && !v.falsy(),
        exec(*s->WhileStmt_body, eval(s->condition, m, depth, tape).1, depth, tape).0 matches Ok(
            Some(_),
        ),
    ensures
        iterate(s, m, depth, left, tape) == exec(
            *s->WhileStmt_body,
            eval(s->condition, m, depth, tape).1,
            depth,
            tape,
        ),
{
}

/// A `return` ends the call: when the body of a closure returns a value, the
/// call yields that value, and the caller's frame is current again.
pub proof fn law_return_ends_call(
    callee: ValueModel,
    args: Seq<ValueModel>,
    m: Machine,
    depth: nat,
    tape: Seq<Number>,
)
    requires
        callee matches ValueModel::Callable {
            arity,
            fun: FunctionModel::Closure { .. },
            ..
        } && arity == args.len(),
    ensures
        ({
            let declaration = declaration_of(callee);
            let frame = callee->fun->frame;
            let locals = callee->fun->locals;
            let (r, m1) = run(
                declaration.body,
                0,
                m.enter_call(frame, locals, declaration.params@, args),
                depth,
                tape,
            );
            &&& invoke(callee, args, m, depth, tape).0 == returned(r)
            &&& (r matches Ok(Some(v)) ==> invoke(callee, args, m, depth, tape).0 == Ok::<
                ValueModel,
                RuntimeError,
            >(v))
            &&& invoke(callee, args, m, depth, tape).1.env.current == m.env.current
        }),
{
}

/// The declaration of a class succeeds: the name it declares first is found
/// when the class is stored under it, and a read of the name in the same
/// frame then gives the class with its methods.
pub proof fn law_class_is_stored(s: Stmt, m: Machine, depth: nat, tape: Seq<Number>)
    requires
        s is Class,
        m.env.chained(),
    ensures
        exec(s, m, depth, tape).0 == Ok::<Option<ValueModel>, RuntimeError>(None),
        exec(s, m, depth, tape).1.env.get(s->Class_name.lexeme@, None) == Some(
            ValueModel::Class {
                name: s->Class_name.lexeme@,
                methods: method_values(
                    s->methods@,
                    s->methods@.len(),
                    m.with_env(m.env.define(s->Class_name.lexeme@, ValueModel::Nil).capture()),
                ),
            },
        ),
{
}

/// A local variable read in its own initializer is rejected: inside a scope,
/// the pass fails on `var name = name;`.
pub proof fn law_own_initializer_rejected(
    name: Token,
    id: usize,
    reference: Token,
    st: ResolverModel,
)
    requires
        st.scopes.len() > 0,
        reference.lexeme@ == name.lexeme@,
    ensures
        resolve_stmt(Stmt::Var { name, initializer: Expr::Variable { id, name: reference } }, st)
            == Err::<ResolverModel, ResolveError>(
            ResolveError::OwnInitializer { name: reference.lexeme },
        ),
{
}

} // verus!
