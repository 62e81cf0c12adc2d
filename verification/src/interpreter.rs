//! The interpreter: it executes statements and evaluates expressions against
//! the chain of scope frames, and is proved to compute what the semantics
//! say.

use vstd::prelude::*;
use vstd::string::*;
use std::collections::HashMap;
use std::rc::Rc;
use crate::environment::{
    extends, globals, hops, lemma_assign_wf, lemma_bind_wf, lemma_capture_wf, lemma_enclose_wf,
    lemma_get_admitted, lemma_hops_extends, lemma_plain_ok, lemma_release_wf,
    lemma_value_ok_extends, value_ok, Environment,
};
use crate::error::{Error, RuntimeError};
use crate::expr::{
    entry_within, install, install_method, lemma_class_view, lemma_position, share,
    values_view, Expr, Function, LiteralValue, ValueModel,
};
use crate::number::Number;
use crate::operators::{apply_binary, apply_unary, outcome_view};
use crate::semantics::{
    apply, bind_params, continues, declaration_of, eval, eval_args, exec, finished, invoke,
    iterate, method_values, run, Machine,
};
use crate::laws::lemma_stmt_resolved_deeper;
use crate::resolver::{resolve_stmts, Resolver, ResolverModel};
use crate::stmt::{all_resolved_within, declared, FunctionDecl, Stmt};
use crate::token::Token;

verus! {

broadcast use vstd::std_specs::hash::group_hash_axioms;

/// The most levels of nested calls that a new interpreter allows.
pub const DEFAULT_MAX_DEPTH: usize = 100;

/// The most iterations of one execution of a loop that a new interpreter
/// allows.
pub const DEFAULT_MAX_ITERATIONS: u64 = 0xffff_ffff_ffff_ffff;

/// How the execution of statements ended.
#[derive(Debug)]
pub enum Completion {
    /// Every statement ran.
    Normal,
    /// A `return` was reached; the rest was skipped.
    Return(LiteralValue),
}

impl View for Completion {
    type V = Option<ValueModel>;

    open spec fn view(&self) -> Option<ValueModel> {
        match *self {
            Completion::Normal => None,
            Completion::Return(v) => Some(v@),
        }
    }
}

/// The view of the outcome of an execution.
pub open spec fn completion_view(r: Result<Completion, RuntimeError>) -> Result<
    Option<ValueModel>,
    RuntimeError,
> {
    match r {
        Ok(c) => Ok(c@),
        Err(err) => Err(err),
    }
}

/// Whether every value of `values` can live in an arena whose lasting
/// frames are linked as `links` says.
pub open spec fn all_ok(values: Seq<ValueModel>, links: Seq<Option<nat>>) -> bool {
    forall|i: int| 0 <= i < values.len() ==> value_ok(#[trigger] values[i], links)
}

impl Machine {
    /// The frames are well formed.
    pub open spec fn wf(self) -> bool {
        self.env.wf()
    }

    /// Whether `later` is a well-formed state that execution can reach from
    /// this one at the same place of the program: the frames that were
    /// there are there as they were linked, the frames that lasted still
    /// last, the same frame is current, and the same distances are in force.
    pub open spec fn steady(self, later: Machine) -> bool {
        &&& later.wf()
        &&& extends(self.env.links, later.env.links)
        &&& extends(self.env.lasting(), later.env.lasting())
        &&& later.env.current == self.env.current
        &&& later.env.depth() == self.env.depth()
        &&& later.locals == self.locals
        &&& later.ticks >= self.ticks
        &&& later.fixed == self.fixed
        &&& later.limit == self.limit
        &&& later.iterations == self.iterations
    }
}

/// Adding a method that can live in an arena to methods that can gives
/// methods that can.
pub proof fn lemma_install_ok(methods: Seq<ValueModel>, method: ValueModel, links: Seq<Option<nat>>)
    requires
        all_ok(methods, links),
        value_ok(method, links),
    ensures
        all_ok(install(methods, method), links),
{
    lemma_position(methods, method.name(), 0);
}

/// States reached one after the other at one place of the program are
/// reached from the first.
pub proof fn lemma_steady_chain(a: Machine, b: Machine, c: Machine)
    requires
        a.steady(b),
        b.steady(c),
    ensures
        a.steady(c),
{
}

/// Readings that begin with readings that begin with others begin with
/// those.
pub proof fn lemma_continues_chain(a: Seq<Number>, b: Seq<Number>, c: Seq<Number>)
    requires
        continues(a, b),
        continues(b, c),
    ensures
        continues(a, c),
{
}

/// Whether the readings `later` begin with the readings `earlier`, so that
/// whatever begins with `later` begins with `earlier`.
pub open spec fn follows(earlier: Seq<Number>, later: Seq<Number>) -> bool {
    &&& continues(earlier, later)
    &&& forall|tape: Seq<Number>| #[trigger] continues(later, tape) ==> continues(earlier, tape)
}

/// Readings that begin with others follow them.
pub proof fn lemma_follows(earlier: Seq<Number>, later: Seq<Number>)
    requires
        continues(earlier, later),
    ensures
        follows(earlier, later),
{
    assert forall|tape: Seq<Number>| #[trigger] continues(later, tape) implies continues(
        earlier,
        tape,
    ) by {
        lemma_continues_chain(earlier, later, tape);
    }
}

/// Whether evaluating `e` in state `before` gives `r` and leads to state
/// `after`, whatever the system clock reads after the readings `read`.
pub open spec fn evaluates(
    e: Expr,
    before: Machine,
    depth: nat,
    r: Result<ValueModel, RuntimeError>,
    after: Machine,
    read: Seq<Number>,
) -> bool {
    forall|tape: Seq<Number>| #[trigger]
        continues(read, tape) ==> eval(e, before, depth, tape) == (r, after)
}

/// Whether calling `callee` with `args` in state `before` gives `r` and
/// leads to state `after`, whatever the system clock reads after the
/// readings `read`.
pub open spec fn invokes(
    callee: ValueModel,
    args: Seq<ValueModel>,
    before: Machine,
    depth: nat,
    r: Result<ValueModel, RuntimeError>,
    after: Machine,
    read: Seq<Number>,
) -> bool {
    forall|tape: Seq<Number>| #[trigger]
        continues(read, tape) ==> invoke(callee, args, before, depth, tape) == (r, after)
}

/// Whether executing `s` in state `before` ends as `r` says and leads to
/// state `after`, whatever the system clock reads after the readings `read`.
pub open spec fn executes(
    s: Stmt,
    before: Machine,
    depth: nat,
    r: Result<Option<ValueModel>, RuntimeError>,
    after: Machine,
    read: Seq<Number>,
) -> bool {
    forall|tape: Seq<Number>| #[trigger]
        continues(read, tape) ==> exec(s, before, depth, tape) == (r, after)
}

/// Whether executing the statements of `ss` in state `before` ends as `r`
/// says and leads to state `after`, whatever the system clock reads after
/// the readings `read`.
pub open spec fn runs(
    ss: Vec<Stmt>,
    before: Machine,
    depth: nat,
    r: Result<Option<ValueModel>, RuntimeError>,
    after: Machine,
    read: Seq<Number>,
) -> bool {
    forall|tape: Seq<Number>| #[trigger]
        continues(read, tape) ==> run(ss, 0, before, depth, tape) == (r, after)
}

/// The statement interpreter.
pub struct Interpreter {
    environment: Environment,
    locals: Rc<HashMap<usize, usize>>,
    output: Vec<String>,
    fixed_clock: Option<Number>,
    tape: Ghost<Seq<Number>>,
    max_depth: usize,
    max_iterations: u64,
}

impl View for Interpreter {
    type V = Machine;

    closed spec fn view(&self) -> Machine {
        Machine {
            env: self.environment@,
            locals: self.locals@,
            output: Seq::new(self.output.len() as nat, |i: int| self.output[i]@),
            ticks: self.tape@.len(),
            fixed: self.fixed_clock,
            limit: self.max_depth as nat,
            iterations: self.max_iterations as nat,
        }
    }
}

impl Interpreter {
    /// The readings of the system clock that the built-in clock has
    /// returned so far, oldest first.
    pub closed spec fn readings(&self) -> Seq<Number> {
        self.tape@
    }

    /// The state counts the readings that the built-in clock has returned.
    pub proof fn lemma_readings_counted(&self)
        ensures
            self@.ticks == self.readings().len(),
    {
    }

    /// An interpreter on a fresh root frame, with no binding distances and
    /// nothing printed.
    pub fn new() -> (r: Interpreter)
        ensures
            r@.wf(),
            r@.env.scopes == seq![globals()],
            r@.env.links == seq![None::<nat>],
            r@.env.current == 0,
            r@.locals == Map::<usize, usize>::empty(),
            r@.output == Seq::<Seq<char>>::empty(),
            r.readings() == Seq::<Number>::empty(),
            r@.ticks == 0,
            r@.fixed is None,
            r@.limit == DEFAULT_MAX_DEPTH,
            r@.iterations == DEFAULT_MAX_ITERATIONS,
    {
        let r = Interpreter {
            environment: Environment::new(),
            locals: Rc::new(HashMap::new()),
            output: Vec::new(),
            fixed_clock: None,
            tape: Ghost(Seq::empty()),
            max_depth: DEFAULT_MAX_DEPTH,
            max_iterations: DEFAULT_MAX_ITERATIONS,
        };
        assert(r@.output =~= Seq::<Seq<char>>::empty());
        r
    }

    /// An interpreter whose current frame is a new frame inside the current
    /// frame of `parent`.
    pub fn for_anon(parent: Environment) -> (r: Interpreter)
        requires
            parent@.wf(),
        ensures
            r@.wf(),
            r@.env == parent@.enclose(),
            r@.locals == Map::<usize, usize>::empty(),
            r@.output == Seq::<Seq<char>>::empty(),
            r.readings() == Seq::<Number>::empty(),
            r@.ticks == 0,
            r@.fixed is None,
            r@.limit == DEFAULT_MAX_DEPTH,
            r@.iterations == DEFAULT_MAX_ITERATIONS,
    {
        let mut environment = parent;
        environment.enclose();
        let r = Interpreter {
            environment,
            locals: Rc::new(HashMap::new()),
            output: Vec::new(),
            fixed_clock: None,
            tape: Ghost(Seq::empty()),
            max_depth: DEFAULT_MAX_DEPTH,
            max_iterations: DEFAULT_MAX_ITERATIONS,
        };
        assert(r@.output =~= Seq::<Seq<char>>::empty());
        r
    }

    /// Puts the binding distances `locals` in force for what is interpreted
    /// from now on. Functions declared earlier keep the distances that were
    /// in force when they were declared.
    pub fn resolve(&mut self, locals: HashMap<usize, usize>)
        ensures
            final(self)@ == (Machine { locals: locals@, ..old(self)@ }),
            final(self).readings() == old(self).readings(),
    {
        self.locals = Rc::new(locals);
    }

    /// Sets the most levels of nested calls allowed.
    pub fn set_max_depth(&mut self, max_depth: usize)
        ensures
            final(self)@ == (Machine { limit: max_depth as nat, ..old(self)@ }),
            final(self).readings() == old(self).readings(),
    {
        self.max_depth = max_depth;
    }

    /// Sets the most iterations allowed to one execution of a loop.
    pub fn set_max_iterations(&mut self, max_iterations: u64)
        ensures
            final(self)@ == (Machine { iterations: max_iterations as nat, ..old(self)@ }),
            final(self).readings() == old(self).readings(),
    {
        self.max_iterations = max_iterations;
    }

    /// Makes the built-in clock return `now` in place of the system clock's
    /// reading, or the system clock's reading again when `now` is `None`.
    pub fn set_clock(&mut self, now: Option<Number>)
        ensures
            final(self)@ == (Machine { fixed: now, ..old(self)@ }),
            final(self).readings() == old(self).readings(),
    {
        self.fixed_clock = now;
    }

    /// What the built-in clock returns: the fixed reading if there is one,
    /// else the reading of the system clock at this moment.
    fn read_clock(&mut self) -> (now: Number)
        requires
            old(self)@.wf(),
        ensures
            forall|tape: Seq<Number>| #[trigger]
                continues(final(self).readings(), tape) ==> old(self)@.read_clock(tape)
                    == (now, final(self)@),
            old(self)@.steady(final(self)@),
            follows(old(self).readings(), final(self).readings()),
    {
        proof {
            lemma_follows(self.readings(), self.readings());
        }
        match self.fixed_clock {
            Some(now) => now,
            None => {
                let now = Number::from_millis(epoch_millis());
                self.tape = Ghost(self.tape@.push(now));
                proof {
                    lemma_follows(old(self).readings(), self.readings());
                }
                now
            },
        }
    }

    /// The frames.
    pub fn environment(&self) -> (r: &Environment)
        ensures
            r@ == self@.env,
    {
        &self.environment
    }

    /// The lines printed so far, oldest first.
    pub fn output(&self) -> (r: &Vec<String>)
        ensures
            r.len() == self@.output.len(),
            forall|i: int| 0 <= i < r.len() ==> r[i]@ == self@.output[i],
    {
        &self.output
    }

    /// Hands over the lines printed so far, oldest first, and forgets them.
    pub fn take_output(&mut self) -> (r: Vec<String>)
        ensures
            final(self)@ == (Machine { output: Seq::empty(), ..old(self)@ }),
            final(self).readings() == old(self).readings(),
            r.len() == old(self)@.output.len(),
            forall|i: int| 0 <= i < r.len() ==> r[i]@ == old(self)@.output[i],
    {
        let mut lines: Vec<String> = Vec::new();
        std::mem::swap(&mut self.output, &mut lines);
        assert(self@.output =~= Seq::<Seq<char>>::empty());
        lines
    }

    /// The distance in force for the node `id`, if there is one.
    fn distance(&self, id: usize) -> (r: Option<usize>)
        ensures
            r == self@.distance(id),
    {
        match self.locals.get(&id) {
            Some(d) => Some(*d),
            None => None,
        }
    }

    /// Reads the variable `name` at the node `id`.
    fn read_variable(&self, id: usize, name: &Token) -> (r: Result<LiteralValue, RuntimeError>)
        requires
            self@.wf(),
            entry_within(self@.locals, Set::full(), id, self@.env.depth()),
        ensures
            (outcome_view(r), self@) == self@.read(id, *name),
            r matches Ok(v) ==> self@.env.admits(v@),
    {
        let distance = self.distance(id);
        proof {
            lemma_get_admitted(self@.env, name.lexeme@, distance);
        }
        match self.environment.get(name.lexeme.as_str(), distance) {
            Some(v) => Ok(v),
            None => {
                if distance.is_some() {
                    Err(RuntimeError::UndeclaredLocal { name: name.lexeme.clone() })
                } else {
                    Err(RuntimeError::UndeclaredVariable { name: name.lexeme.clone() })
                }
            },
        }
    }

    /// Assigns `value` to the variable `name` at the node `id`.
    fn write_variable(&mut self, id: usize, name: &Token, value: LiteralValue) -> (r: Result<
        LiteralValue,
        RuntimeError,
    >)
        requires
            old(self)@.wf(),
            entry_within(old(self)@.locals, Set::full(), id, old(self)@.env.depth()),
            old(self)@.env.admits(value@),
        ensures
            (outcome_view(r), final(self)@) == old(self)@.write(id, *name, value@),
            old(self)@.steady(final(self)@),
            final(self).readings() == old(self).readings(),
            r matches Ok(v) ==> final(self)@.env.admits(v@),
    {
        let distance = self.distance(id);
        proof {
            lemma_assign_wf(old(self)@.env, name.lexeme@, value@, distance);
        }
        if self.environment.assign(name.lexeme.as_str(), value.clone(), distance) {
            Ok(value)
        } else {
            Err(RuntimeError::UndeclaredVariable { name: name.lexeme.clone() })
        }
    }

    /// The most levels of nested calls allowed.
    pub fn max_depth(&self) -> (r: usize)
        ensures
            r == self@.limit,
    {
        self.max_depth
    }

    /// Runs a program: executes the statements in order until one fails or
    /// a `return` is reached. What was printed is added to the output lines.
    /// The outcome is the one that the semantics give for the readings that
    /// the system clock gave.
    pub fn interpret(&mut self, stmts: &Vec<Stmt>) -> (r: Result<(), RuntimeError>)
        requires
            old(self)@.wf(),
            all_resolved_within(stmts@, old(self)@.locals, old(self)@.env.depth()),
        ensures
            (r, final(self)@) == program(*stmts, old(self)@, final(self).readings()),
            old(self)@.steady(final(self)@),
            follows(old(self).readings(), final(self).readings()),
    {
        let depth = self.max_depth;
        let done = self.execute_block(stmts, depth);
        proof {
            assert(continues(self.readings(), self.readings()));
        }
        match done {
            Ok(_) => Ok(()),
            Err(err) => Err(err),
        }
    }

    /// Resolves a program and runs it. Nothing is asked of the program: the
    /// pass over it either rejects it or records distances with which it
    /// runs without ever leaving the chain of frames.
    pub fn run(&mut self, stmts: &Vec<Stmt>) -> (r: Result<(), Error>)
        requires
            old(self)@.wf(),
        ensures
            (r, final(self)@) == resolved_program(*stmts, old(self)@, final(self).readings()),
            final(self)@.wf(),
            final(self)@.env.current == old(self)@.env.current,
            follows(old(self).readings(), final(self).readings()),
    {
        let mut resolver = Resolver::new();
        assert(resolver@ == fresh_pass());
        match resolver.resolve_many(stmts) {
            Ok(_) => {
                let locals = resolver.into_locals();
                proof {
                    assert forall|i: int| 0 <= i < stmts.len() implies (#[trigger] stmts@[i]).resolved_within(
                        locals@,
                        self@.env.depth(),
                    ) by {
                        lemma_stmt_resolved_deeper(
                            stmts@[i],
                            locals@,
                            Set::full(),
                            0,
                            self@.env.depth(),
                        );
                    }
                }
                self.resolve(locals);
                match self.interpret(stmts) {
                    Ok(_) => Ok(()),
                    Err(err) => Err(Error::Runtime(err)),
                }
            },
            Err(err) => Err(Error::Resolve(err)),
        }
    }

    /// Executes one statement in the current frame and says how it ended.
    pub fn execute(&mut self, stmt: &Stmt) -> (r: Result<Completion, RuntimeError>)
        requires
            old(self)@.wf(),
            stmt.resolved_within(old(self)@.locals, old(self)@.env.depth()),
        ensures
            (completion_view(r), final(self)@) == exec(
                *stmt,
                old(self)@,
                old(self)@.limit,
                final(self).readings(),
            ),
            old(self)@.steady(final(self)@),
            follows(old(self).readings(), final(self).readings()),
            r matches Ok(Completion::Return(v)) ==> final(self)@.env.admits(v@),
    {
        let depth = self.max_depth;
        let r = self.execute_at(stmt, depth);
        proof {
            assert(continues(self.readings(), self.readings()));
        }
        r
    }

    /// Calls `callee` with `args`. The number of arguments is checked
    /// against the arity; a value that is not callable is an error.
    pub fn call(&mut self, callee: &LiteralValue, args: Vec<LiteralValue>) -> (r: Result<
        LiteralValue,
        RuntimeError,
    >)
        requires
            old(self)@.wf(),
            old(self)@.env.admits(callee@),
            all_ok(values_view(args@), old(self)@.env.lasting()),
        ensures
            (outcome_view(r), final(self)@) == invoke(
                callee@,
                values_view(args@),
                old(self)@,
                old(self)@.limit,
                final(self).readings(),
            ),
            old(self)@.steady(final(self)@),
            follows(old(self).readings(), final(self).readings()),
            r matches Ok(v) ==> final(self)@.env.admits(v@),
    {
        let depth = self.max_depth;
        let r = self.invoke(callee, args, depth);
        proof {
            assert(continues(self.readings(), self.readings()));
        }
        r
    }

    /// The function value that `declaration` stands for here: it closes over
    /// the current frame and the distances in force. The current frame lasts
    /// from now on, so that the value can be stored and called later.
    pub fn make_function(&mut self, declaration: &Rc<FunctionDecl>) -> (r: LiteralValue)
        requires
            old(self)@.wf(),
            declaration.resolved_within(old(self)@.locals, old(self)@.env.depth()),
        ensures
            r@ == old(self)@.closure(declared(*declaration)),
            final(self)@ == old(self)@.capture(),
            final(self)@.wf(),
            final(self)@.env.admits(r@),
            final(self).readings() == old(self).readings(),
    {
        proof {
            lemma_capture_wf(self@.env);
        }
        self.environment.capture();
        self.closure(declaration)
    }

    /// The function value that `declaration` stands for here.
    fn closure(&self, declaration: &Rc<FunctionDecl>) -> (r: LiteralValue)
        ensures
            r@ == self@.closure(declared(*declaration)),
    {
        LiteralValue::Callable {
            name: declaration.name.lexeme.clone(),
            arity: declaration.params.len(),
            fun: Function::Closure {
                declaration: share(declaration),
                frame: self.environment.current(),
                locals: share(&self.locals),
            },
        }
    }

    /// Evaluates an expression with `depth` more levels of calls allowed.
    pub fn evaluate_at(&mut self, expr: &Expr, depth: usize) -> (r: Result<
        LiteralValue,
        RuntimeError,
    >)
        requires
            old(self)@.wf(),
            expr.resolved_within(old(self)@.locals, old(self)@.env.depth()),
        ensures
            evaluates(
                *expr,
                old(self)@,
                depth as nat,
                outcome_view(r),
                final(self)@,
                final(self).readings(),
            ),
            follows(old(self).readings(), final(self).readings()),
            old(self)@.steady(final(self)@),
            r matches Ok(v) ==> final(self)@.env.admits(v@),
        decreases depth, expr, 1nat, 0nat,
    {
        match expr {
            Expr::Literal { value } => {
                if value.is_plain() {
                    proof {
                        lemma_plain_ok(value@, self@.env.lasting());
                    }
                    Ok(value.clone())
                } else {
                    Err(RuntimeError::ForeignLiteral)
                }
            },
            Expr::Grouping { expression } => self.evaluate_at(expression, depth),
            Expr::Variable { id, name } => self.read_variable(*id, name),
            Expr::Assign { id, name, value } => {
                let assigned = self.evaluate_at(value, depth);
                let ghost m1 = self@;
                match assigned {
                    Ok(v) => {
                        let r = self.write_variable(*id, name, v);
                        proof {
                            lemma_steady_chain(old(self)@, m1, self@);
                        }
                        r
                    },
                    Err(err) => Err(err),
                }
            },
            Expr::Unary { operator, right } => {
                match self.evaluate_at(right, depth) {
                    Ok(v) => {
                        apply_unary(operator.token_type, &v)
                    },
                    Err(err) => Err(err),
                }
            },
            Expr::Binary { .. } => self.evaluate_binary(expr, depth),
            Expr::Call { .. } => self.evaluate_call(expr, depth),
        }
    }

    /// Evaluates a binary expression: the left operand, then the right one,
    /// then the operator.
    fn evaluate_binary(&mut self, expr: &Expr, depth: usize) -> (r: Result<
        LiteralValue,
        RuntimeError,
    >)
        requires
            old(self)@.wf(),
            *expr is Binary,
            expr.resolved_within(old(self)@.locals, old(self)@.env.depth()),
        ensures
            evaluates(
                *expr,
                old(self)@,
                depth as nat,
                outcome_view(r),
                final(self)@,
                final(self).readings(),
            ),
            follows(old(self).readings(), final(self).readings()),
            old(self)@.steady(final(self)@),
            r matches Ok(v) ==> final(self)@.env.admits(v@),
        decreases depth, expr, 0nat, 0nat,
    {
        match expr {
            Expr::Binary { left, operator, right } => {
                let a = match self.evaluate_at(left, depth) {
                    Ok(a) => a,
                    Err(err) => {
                        return Err(err);
                    },
                };
                let ghost m1 = self@;
                let b = match self.evaluate_at(right, depth) {
                    Ok(b) => b,
                    Err(err) => {
                        proof {
                            lemma_steady_chain(old(self)@, m1, self@);
                        }
                        return Err(err);
                    },
                };
                let r = apply_binary(&a, operator.token_type, &b);
                proof {
                    lemma_steady_chain(old(self)@, m1, self@);
                }
                r
            },
            _ => unreached(),
        }
    }

    /// Evaluates a call: the callee, then the arguments in order, then the
    /// call itself, which uses up one level of nesting.
    fn evaluate_call(&mut self, expr: &Expr, depth: usize) -> (r: Result<LiteralValue, RuntimeError>)
        requires
            old(self)@.wf(),
            *expr is Call,
            expr.resolved_within(old(self)@.locals, old(self)@.env.depth()),
        ensures
            evaluates(
                *expr,
                old(self)@,
                depth as nat,
                outcome_view(r),
                final(self)@,
                final(self).readings(),
            ),
            follows(old(self).readings(), final(self).readings()),
            old(self)@.steady(final(self)@),
            r matches Ok(v) ==> final(self)@.env.admits(v@),
        decreases depth, expr, 0nat, 0nat,
    {
        match expr {
            Expr::Call { callee, arguments } => {
                let f = match self.evaluate_at(callee, depth) {
                    Ok(f) => f,
                    Err(err) => {
                        return Err(err);
                    },
                };
                let ghost m1 = self@;
                let args = match self.evaluate_args(arguments, depth) {
                    Ok(args) => args,
                    Err(err) => {
                        proof {
                            lemma_steady_chain(old(self)@, m1, self@);
                        }
                        return Err(err);
                    },
                };
                let ghost m2 = self@;
                proof {
                    lemma_steady_chain(old(self)@, m1, m2);
                    lemma_value_ok_extends(f@, m1.env.lasting(), m2.env.lasting());
                }
                if depth == 0 {
                    return Err(RuntimeError::CallDepthExceeded);
                }
                let r = self.invoke(&f, args, depth - 1);
                proof {
                    lemma_steady_chain(old(self)@, m2, self@);
                }
                r
            },
            _ => unreached(),
        }
    }

    /// Evaluates the arguments of a call in order.
    fn evaluate_args(&mut self, exprs: &Vec<Expr>, depth: usize) -> (r: Result<
        Vec<LiteralValue>,
        RuntimeError,
    >)
        requires
            old(self)@.wf(),
            forall|i: int|
                0 <= i < exprs.len() ==> (#[trigger] exprs[i]).resolved_within(
                    old(self)@.locals,
                    old(self)@.env.depth(),
                ),
        ensures
            forall|tape: Seq<Number>| #[trigger]
                continues(final(self).readings(), tape) ==> eval_args(
                    *exprs,
                    0,
                    Seq::empty(),
                    old(self)@,
                    depth as nat,
                    tape,
                ) == (arguments_view(r), final(self)@),
            follows(old(self).readings(), final(self).readings()),
            old(self)@.steady(final(self)@),
            r matches Ok(values) ==> all_ok(values_view(values@), final(self)@.env.lasting()),
        decreases depth, exprs, 0nat, 0nat,
    {
        let mut values: Vec<LiteralValue> = Vec::new();
        let mut i: usize = 0;
        assert(values_view(values@) =~= Seq::<ValueModel>::empty());
        while i < exprs.len()
            invariant
                i <= exprs.len(),
                old(self)@.steady(self@),
                all_ok(values_view(values@), self@.env.lasting()),
                forall|k: int|
                    0 <= k < exprs.len() ==> (#[trigger] exprs[k]).resolved_within(
                        old(self)@.locals,
                        old(self)@.env.depth(),
                    ),
                follows(old(self).readings(), self.readings()),
                forall|tape: Seq<Number>| #[trigger]
                    continues(self.readings(), tape) ==> eval_args(
                        *exprs,
                        0,
                        Seq::empty(),
                        old(self)@,
                        depth as nat,
                        tape,
                    ) == eval_args(
                        *exprs,
                        i as nat,
                        values_view(values@),
                        self@,
                        depth as nat,
                        tape,
                    ),
            decreases exprs.len() - i,
        {
            let ghost before = self@;
            let ghost done = values_view(values@);
            match self.evaluate_at(&exprs[i], depth) {
                Ok(v) => {
                    proof {
                        lemma_steady_chain(old(self)@, before, self@);
                        assert forall|k: int| 0 <= k < done.len() implies value_ok(
                            #[trigger] done[k],
                            self@.env.lasting(),
                        ) by {
                            lemma_value_ok_extends(
                                done[k],
                                before.env.lasting(),
                                self@.env.lasting(),
                            );
                        }
                    }
                    values.push(v);
                    proof {
                        assert(values_view(values@) =~= done.push(v@));
                    }
                },
                Err(err) => {
                    proof {
                        lemma_steady_chain(old(self)@, before, self@);
                    }
                    return Err(err);
                },
            }
            i = i + 1;
        }
        Ok(values)
    }

    /// Calls `callee` with `args`, with `depth` more levels of calls allowed
    /// inside it.
    pub fn invoke(&mut self, callee: &LiteralValue, args: Vec<LiteralValue>, depth: usize) -> (r:
        Result<LiteralValue, RuntimeError>)
        requires
            old(self)@.wf(),
            old(self)@.env.admits(callee@),
            all_ok(values_view(args@), old(self)@.env.lasting()),
        ensures
            invokes(
                callee@,
                values_view(args@),
                old(self)@,
                depth as nat,
                outcome_view(r),
                final(self)@,
                final(self).readings(),
            ),
            follows(old(self).readings(), final(self).readings()),
            old(self)@.steady(final(self)@),
            r matches Ok(v) ==> final(self)@.env.admits(v@),
        decreases depth, declaration_of(callee@), 2nat, 0nat,
    {
        match callee {
            LiteralValue::Callable { name, arity, fun } => {
                if args.len() != *arity {
                    return Err(
                        RuntimeError::ArityMismatch { expected: *arity, found: args.len() },
                    );
                }
                match fun {
                    Function::Clock => Ok(LiteralValue::Number(self.read_clock())),
                    Function::Closure { declaration, frame, locals } => self.call_closure(
                        declaration,
                        *frame,
                        locals,
                        args,
                        depth,
                    ),
                }
            },
            _ => Err(RuntimeError::NotCallable { kind: callee.kind() }),
        }
    }

    /// Runs the body of a closure in a new frame inside the closure's frame,
    /// with the parameters bound to the arguments.
    fn call_closure(
        &mut self,
        declaration: &Rc<FunctionDecl>,
        frame: usize,
        locals: &Rc<HashMap<usize, usize>>,
        args: Vec<LiteralValue>,
        depth: usize,
    ) -> (r: Result<LiteralValue, RuntimeError>)
        requires
            old(self)@.wf(),
            frame < old(self)@.env.captured,
            declaration.params.len() == args.len(),
            declaration.resolved_within(locals@, hops(old(self)@.env.lasting(), frame as nat)),
            all_ok(values_view(args@), old(self)@.env.lasting()),
        ensures
            forall|tape: Seq<Number>| #[trigger]
                continues(final(self).readings(), tape) ==> apply(
                    declared(*declaration),
                    frame as nat,
                    locals@,
                    values_view(args@),
                    old(self)@,
                    depth as nat,
                    tape,
                ) == (outcome_view(r), final(self)@),
            follows(old(self).readings(), final(self).readings()),
            old(self)@.steady(final(self)@),
            r matches Ok(v) ==> final(self)@.env.admits(v@),
        decreases depth, declared(*declaration), 1nat, 0nat,
    {
        let ghost before = old(self)@;
        let ghost given = values_view(args@);
        let saved_frame = self.environment.current();
        let saved_locals = share(&self.locals);
        let call_frame = self.environment.frame_count();
        self.environment.enter(frame);
        self.environment.enclose();
        let ghost start = self.environment@;
        proof {
            assert(start == before.env.enter(frame as nat).enclose());
            assert(extends(before.env.links, start.links));
            assert(extends(before.env.lasting(), before.env.links));
            lemma_enclose_wf(before.env.enter(frame as nat));
            lemma_hops_extends(before.env.links, start.links, frame as nat);
            lemma_hops_extends(before.env.lasting(), before.env.links, frame as nat);
        }
        let mut i: usize = 0;
        while i < declaration.params.len()
            invariant
                i <= declaration.params.len(),
                declaration.params.len() == args.len(),
                given == values_view(args@),
                self@ == before.with_env(self.environment@),
                self.readings() == old(self).readings(),
                self.environment@.wf(),
                self.environment@.links == start.links,
                self.environment@.current == start.current,
                self.environment@.captured == start.captured,
                all_ok(given, start.lasting()),
                bind_params(self.environment@, declaration.params@, given, i as nat) == bind_params(
                    start,
                    declaration.params@,
                    given,
                    0,
                ),
            decreases declaration.params.len() - i,
        {
            proof {
                lemma_bind_wf(
                    self.environment@,
                    self.environment@.current,
                    declaration.params[i as int].lexeme@,
                    given[i as int],
                );
            }
            self.environment.define(declaration.params[i].lexeme.clone(), args[i].clone());
            i = i + 1;
        }
        self.locals = share(locals);
        let ghost entered = self@;
        proof {
            assert(entered == before.enter_call(
                frame as nat,
                locals@,
                declaration.params@,
                given,
            ));
            assert(entered.env.depth() == hops(before.env.lasting(), frame as nat) + 1);
            assert forall|j: int| 0 <= j < declaration.body.len() implies (
            #[trigger] declaration.body@[j]).resolved_within(entered.locals, entered.env.depth()) by {
                assert(declaration.body[j].settled(
                    locals@,
                    Set::full(),
                    hops(before.env.lasting(), frame as nat) + 1,
                ));
            }
        }
        let done = self.execute_block(&declaration.body, depth);
        let ghost ended = self@;
        self.environment.enter(saved_frame);
        self.environment.release(call_frame);
        self.locals = saved_locals;
        proof {
            assert(self@ == ended.leave_call(before));
            lemma_release_wf(ended.env.enter(before.env.current), before.env.links.len());
            assert(extends(before.env.links, self@.env.links));
            lemma_hops_extends(before.env.links, self@.env.links, before.env.current);
        }
        match done {
            Ok(Completion::Return(v)) => Ok(v),
            Ok(Completion::Normal) => Ok(LiteralValue::Nil),
            Err(err) => Err(err),
        }
    }

    /// Executes the statements in order with `depth` more levels of calls
    /// allowed, and stops at the first error or `return`.
    pub fn execute_block(&mut self, stmts: &Vec<Stmt>, depth: usize) -> (r: Result<
        Completion,
        RuntimeError,
    >)
        requires
            old(self)@.wf(),
            all_resolved_within(stmts@, old(self)@.locals, old(self)@.env.depth()),
        ensures
            runs(
                *stmts,
                old(self)@,
                depth as nat,
                completion_view(r),
                final(self)@,
                final(self).readings(),
            ),
            follows(old(self).readings(), final(self).readings()),
            old(self)@.steady(final(self)@),
            r matches Ok(Completion::Return(v)) ==> final(self)@.env.admits(v@),
        decreases depth, stmts, 0nat, 0nat,
    {
        let mut i: usize = 0;
        while i < stmts.len()
            invariant
                i <= stmts.len(),
                old(self)@.steady(self@),
                all_resolved_within(stmts@, old(self)@.locals, old(self)@.env.depth()),
                follows(old(self).readings(), self.readings()),
                forall|tape: Seq<Number>| #[trigger]
                    continues(self.readings(), tape) ==> run(
                        *stmts,
                        0,
                        old(self)@,
                        depth as nat,
                        tape,
                    ) == run(*stmts, i as nat, self@, depth as nat, tape),
            decreases stmts.len() - i,
        {
            let ghost before = self@;
            assert(stmts@[i as int].resolved_within(before.locals, before.env.depth()));
            let r = self.execute_at(&stmts[i], depth);
            proof {
                lemma_steady_chain(old(self)@, before, self@);
            }
            match r {
                Ok(Completion::Normal) => {},
                Ok(Completion::Return(v)) => {
                    return Ok(Completion::Return(v));
                },
                Err(err) => {
                    return Err(err);
                },
            }
            i = i + 1;
        }
        Ok(Completion::Normal)
    }

    /// Executes a statement with `depth` more levels of calls allowed.
    pub fn execute_at(&mut self, stmt: &Stmt, depth: usize) -> (r: Result<Completion, RuntimeError>)
        requires
            old(self)@.wf(),
            stmt.resolved_within(old(self)@.locals, old(self)@.env.depth()),
        ensures
            executes(
                *stmt,
                old(self)@,
                depth as nat,
                completion_view(r),
                final(self)@,
                final(self).readings(),
            ),
            follows(old(self).readings(), final(self).readings()),
            old(self)@.steady(final(self)@),
            r matches Ok(Completion::Return(v)) ==> final(self)@.env.admits(v@),
        decreases depth, stmt, 1nat, 0nat,
    {
        match stmt {
            Stmt::Expression { expression } => {
                match self.evaluate_at(expression, depth) {
                    Ok(_) => Ok(Completion::Normal),
                    Err(err) => Err(err),
                }
            },
            Stmt::Print { expression } => {
                match self.evaluate_at(expression, depth) {
                    Ok(v) => {
                        self.emit(v.to_string());
                        Ok(Completion::Normal)
                    },
                    Err(err) => Err(err),
                }
            },
            Stmt::Var { name, initializer } => {
                match self.evaluate_at(initializer, depth) {
                    Ok(v) => {
                        proof {
                            lemma_bind_wf(self@.env, self@.env.current, name.lexeme@, v@);
                        }
                        self.environment.define(name.lexeme.clone(), v);
                        Ok(Completion::Normal)
                    },
                    Err(err) => Err(err),
                }
            },
            Stmt::Block { .. } => self.execute_nested(stmt, depth),
            Stmt::IfStmt { .. } => self.execute_if(stmt, depth),
            Stmt::WhileStmt { .. } => self.execute_while(stmt, depth),
            Stmt::Function { declaration } => {
                let callable = self.make_function(declaration);
                proof {
                    lemma_bind_wf(
                        self@.env,
                        self@.env.current,
                        declaration.name.lexeme@,
                        callable@,
                    );
                    lemma_hops_extends(old(self)@.env.links, self@.env.links, self@.env.current);
                }
                self.environment.define(declaration.name.lexeme.clone(), callable);
                Ok(Completion::Normal)
            },
            Stmt::ReturnStmt { keyword, value } => {
                match value {
                    Some(e) => match self.evaluate_at(e, depth) {
                        Ok(v) => Ok(Completion::Return(v)),
                        Err(err) => Err(err),
                    },
                    None => Ok(Completion::Return(LiteralValue::Nil)),
                }
            },
            Stmt::Class { .. } => self.execute_class(stmt),
        }
    }

    /// Adds a line to what was printed.
    fn emit(&mut self, line: String)
        ensures
            final(self)@ == (Machine { output: old(self)@.output.push(line@), ..old(self)@ }),
            final(self).readings() == old(self).readings(),
    {
        self.output.push(line);
        assert(self@.output =~= old(self)@.output.push(line@));
    }

    /// Executes a block in a new frame inside the current one.
    fn execute_nested(&mut self, stmt: &Stmt, depth: usize) -> (r: Result<Completion, RuntimeError>)
        requires
            old(self)@.wf(),
            *stmt is Block,
            stmt.resolved_within(old(self)@.locals, old(self)@.env.depth()),
        ensures
            executes(
                *stmt,
                old(self)@,
                depth as nat,
                completion_view(r),
                final(self)@,
                final(self).readings(),
            ),
            follows(old(self).readings(), final(self).readings()),
            old(self)@.steady(final(self)@),
            r matches Ok(Completion::Return(v)) ==> final(self)@.env.admits(v@),
        decreases depth, stmt, 0nat, 0nat,
    {
        match stmt {
            Stmt::Block { statements } => {
                let saved = self.environment.current();
                let block_frame = self.environment.frame_count();
                proof {
                    lemma_enclose_wf(self@.env);
                }
                self.environment.enclose();
                let ghost inner = self@;
                proof {
                    assert(inner == old(self)@.with_env(old(self)@.env.enclose()));
                    assert forall|j: int| 0 <= j < statements.len() implies (
                    #[trigger] statements@[j]).resolved_within(inner.locals, inner.env.depth()) by {
                        assert(statements[j].settled(
                            old(self)@.locals,
                            Set::full(),
                            old(self)@.env.depth() + 1,
                        ));
                    }
                }
                let r = self.execute_block(statements, depth);
                let ghost ended = self@;
                self.environment.enter(saved);
                self.environment.release(block_frame);
                proof {
                    assert(self@ == ended.leave_block(old(self)@));
                    lemma_release_wf(
                        ended.env.enter(old(self)@.env.current),
                        old(self)@.env.links.len(),
                    );
                    assert(extends(old(self)@.env.links, self@.env.links));
                    lemma_hops_extends(old(self)@.env.links, self@.env.links, old(self)@.env.current);
                }
                r
            },
            _ => unreached(),
        }
    }

    /// Executes a conditional: the condition, then exactly one branch.
    fn execute_if(&mut self, stmt: &Stmt, depth: usize) -> (r: Result<Completion, RuntimeError>)
        requires
            old(self)@.wf(),
            *stmt is IfStmt,
            stmt.resolved_within(old(self)@.locals, old(self)@.env.depth()),
        ensures
            executes(
                *stmt,
                old(self)@,
                depth as nat,
                completion_view(r),
                final(self)@,
                final(self).readings(),
            ),
            follows(old(self).readings(), final(self).readings()),
            old(self)@.steady(final(self)@),
            r matches Ok(Completion::Return(v)) ==> final(self)@.env.admits(v@),
        decreases depth, stmt, 0nat, 0nat,
    {
        match stmt {
            Stmt::IfStmt { predicate, then, els } => {
                let truth = match self.evaluate_at(predicate, depth) {
                    Ok(v) => v,
                    Err(err) => {
                        return Err(err);
                    },
                };
                let ghost m1 = self@;
                let r = if truth.truthy() {
                    self.execute_at(then, depth)
                } else {
                    match els {
                        Some(other) => self.execute_at(other, depth),
                        None => Ok(Completion::Normal),
                    }
                };
                proof {
                    lemma_steady_chain(old(self)@, m1, self@);
                }
                r
            },
            _ => unreached(),
        }
    }

    /// Executes a loop: the condition before each iteration, then the body.
    fn execute_while(&mut self, stmt: &Stmt, depth: usize) -> (r: Result<Completion, RuntimeError>)
        requires
            old(self)@.wf(),
            *stmt is WhileStmt,
            stmt.resolved_within(old(self)@.locals, old(self)@.env.depth()),
        ensures
            executes(
                *stmt,
                old(self)@,
                depth as nat,
                completion_view(r),
                final(self)@,
                final(self).readings(),
            ),
            follows(old(self).readings(), final(self).readings()),
            old(self)@.steady(final(self)@),
            r matches Ok(Completion::Return(v)) ==> final(self)@.env.admits(v@),
        decreases depth, stmt, 0nat, 0nat,
    {
        match stmt {
            Stmt::WhileStmt { condition, body } => {
                let mut left: u64 = self.max_iterations;
                loop
                    invariant
                        *stmt == (Stmt::WhileStmt { condition: *condition, body: *body }),
                        old(self)@.steady(self@),
                        stmt.resolved_within(old(self)@.locals, old(self)@.env.depth()),
                        follows(old(self).readings(), self.readings()),
                        forall|tape: Seq<Number>| #[trigger]
                            continues(self.readings(), tape) ==> exec(
                                *stmt,
                                old(self)@,
                                depth as nat,
                                tape,
                            ) == iterate(*stmt, self@, depth as nat, left as nat, tape),
                    decreases left,
                {
                    let ghost before = self@;
                    let truth = match self.evaluate_at(condition, depth) {
                        Ok(v) => v,
                        Err(err) => {
                            proof {
                                lemma_steady_chain(old(self)@, before, self@);
                            }
                            return Err(err);
                        },
                    };
                    let ghost m1 = self@;
                    proof {
                        lemma_steady_chain(old(self)@, before, m1);
                    }
                    if !truth.truthy() {
                        return Ok(Completion::Normal);
                    }
                    if left == 0 {
                        return Err(RuntimeError::LoopLimitExceeded);
                    }
                    let r = self.execute_at(body, depth);
                    proof {
                        lemma_steady_chain(old(self)@, m1, self@);
                    }
                    match r {
                        Ok(Completion::Normal) => {},
                        Ok(Completion::Return(v)) => {
                            return Ok(Completion::Return(v));
                        },
                        Err(err) => {
                            return Err(err);
                        },
                    }
                    left = left - 1;
                }
            },
            _ => unreached(),
        }
    }

    /// Executes the declaration of a class.
    fn execute_class(&mut self, stmt: &Stmt) -> (r: Result<Completion, RuntimeError>)
        requires
            old(self)@.wf(),
            *stmt is Class,
            stmt.resolved_within(old(self)@.locals, old(self)@.env.depth()),
        ensures
            forall|depth: nat, tape: Seq<Number>|
                (completion_view(r), final(self)@) == #[trigger] exec(*stmt, old(self)@, depth, tape),
            final(self).readings() == old(self).readings(),
            old(self)@.steady(final(self)@),
            r matches Ok(Completion::Return(v)) ==> final(self)@.env.admits(v@),
    {
        match stmt {
            Stmt::Class { name, methods } => {
                proof {
                    lemma_bind_wf(self@.env, self@.env.current, name.lexeme@, ValueModel::Nil);
                }
                self.environment.define(name.lexeme.clone(), LiteralValue::Nil);
                proof {
                    lemma_capture_wf(self@.env);
                }
                self.environment.capture();
                let ghost m1 = self@;
                let mut values: Vec<LiteralValue> = Vec::new();
                let mut i: usize = 0;
                proof {
                    assert(values_view(values@) =~= method_values(methods@, 0, m1));
                    assert(stmt.settled(old(self)@.locals, Set::full(), old(self)@.env.depth()));
                }
                while i < methods.len()
                    invariant
                        i <= methods.len(),
                        self@ == m1,
                        self.readings() == old(self).readings(),
                        m1.wf(),
                        m1.locals == old(self)@.locals,
                        m1.env.current < m1.env.captured,
                        hops(m1.env.lasting(), m1.env.current) == old(self)@.env.depth(),
                        forall|k: int|
                            0 <= k < methods.len() ==> (#[trigger] methods[k]).settled(
                                old(self)@.locals,
                                Set::full(),
                                old(self)@.env.depth(),
                            ),
                        values_view(values@) == method_values(methods@, i as nat, m1),
                        all_ok(values_view(values@), m1.env.lasting()),
                    decreases methods.len() - i,
                {
                    let method = self.closure(&methods[i]);
                    proof {
                        assert(methods[i as int].settled(
                            old(self)@.locals,
                            Set::full(),
                            old(self)@.env.depth(),
                        ));
                        lemma_install_ok(values_view(values@), method@, m1.env.lasting());
                    }
                    install_method(&mut values, method);
                    i = i + 1;
                }
                let class_name = name.lexeme.clone();
                proof {
                    lemma_class_view(class_name, values);
                }
                let class = LiteralValue::LoxClass { name: class_name, methods: values };
                proof {
                    lemma_assign_wf(m1.env, name.lexeme@, class@, None);
                }
                if self.environment.assign(name.lexeme.as_str(), class, None) {
                    Ok(Completion::Normal)
                } else {
                    Err(RuntimeError::ClassDefinition { name: name.lexeme.clone() })
                }
            },
            _ => unreached(),
        }
    }
}

impl Expr {
    /// Evaluates the expression in the interpreter's current frame.
    pub fn evaluate(&self, interpreter: &mut Interpreter) -> (r: Result<
        LiteralValue,
        RuntimeError,
    >)
        requires
            old(interpreter)@.wf(),
            self.resolved_within(old(interpreter)@.locals, old(interpreter)@.env.depth()),
        ensures
            (outcome_view(r), final(interpreter)@) == eval(
                *self,
                old(interpreter)@,
                old(interpreter)@.limit,
                final(interpreter).readings(),
            ),
            old(interpreter)@.steady(final(interpreter)@),
            follows(old(interpreter).readings(), final(interpreter).readings()),
            r matches Ok(v) ==> final(interpreter)@.env.admits(v@),
    {
        let depth = interpreter.max_depth();
        let r = interpreter.evaluate_at(self, depth);
        proof {
            assert(continues(interpreter.readings(), interpreter.readings()));
        }
        r
    }
}

/// Outcome of running a program in state `m`, and the state after it: the
/// statements run in order until one fails or a `return` is reached.
pub open spec fn program(stmts: Vec<Stmt>, m: Machine, tape: Seq<Number>) -> (
    Result<(), RuntimeError>,
    Machine,
) {
    let (r, m1) = run(stmts, 0, m, m.limit, tape);
    (finished(r), m1)
}

/// The state in which the pass over a new program starts: outside every
/// scope, with nothing recorded.
pub open spec fn fresh_pass() -> ResolverModel {
    ResolverModel { scopes: Seq::empty(), locals: Map::empty(), seen: Set::empty() }
}

/// Outcome of resolving a program and then running it in state `m`, and the
/// state after it. A program that the pass rejects is not run and leaves the
/// state as it was. A program that the pass accepts runs with the distances
/// that the pass recorded, which stay in force afterwards.
pub open spec fn resolved_program(stmts: Vec<Stmt>, m: Machine, tape: Seq<Number>) -> (
    Result<(), Error>,
    Machine,
) {
    match resolve_stmts(stmts, 0, fresh_pass()) {
        Ok(st) => {
            let (r, m1) = program(stmts, Machine { locals: st.locals, ..m }, tape);
            (
                match r {
                    Ok(_) => Ok(()),
                    Err(err) => Err(Error::Runtime(err)),
                },
                m1,
            )
        },
        Err(err) => (Err(Error::Resolve(err)), m),
    }
}

/// Milliseconds since the start of 1970 on the system clock, or zero when
/// the clock stands before that. Wraps `SystemTime::elapsed`, taken of the
/// Unix epoch; nothing is claimed of the reading.
#[verifier::external_body]
fn epoch_millis() -> u64 {
    match std::time::UNIX_EPOCH.elapsed() {
        Ok(elapsed) => elapsed.as_millis() as u64,
        Err(_) => 0,
    }
}

/// The view of the outcome of evaluating arguments.
pub open spec fn arguments_view(r: Result<Vec<LiteralValue>, RuntimeError>) -> Result<
    Seq<ValueModel>,
    RuntimeError,
> {
    match r {
        Ok(values) => Ok(values_view(values@)),
        Err(err) => Err(err),
    }
}

} // verus!
