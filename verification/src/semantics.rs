//! What running a program means, as functions from a program and a machine
//! state to an outcome and the state after it. The executable interpreter is
//! proved to compute exactly these functions.

use vstd::prelude::*;
use std::rc::Rc;
use crate::environment::EnvModel;
use crate::error::RuntimeError;
use crate::expr::{install, Expr, FunctionModel, ValueModel};
use crate::number::Number;
use crate::operators::{binary, unary};
use crate::stmt::{declared, FunctionDecl, Stmt};
use crate::token::Token;

verus! {

/// Mathematical counterpart of the interpreter's state: the frames, the
/// binding distances in force, the lines printed so far, the number of
/// readings of the system clock that the built-in clock has returned, a
/// reading that the built-in clock returns in place of the system clock's
/// if there is one, the limit on the nesting of calls, and the limit on the
/// iterations of one execution of a loop.
pub struct Machine {
    pub env: EnvModel,
    pub locals: Map<usize, usize>,
    pub output: Seq<Seq<char>>,
    pub ticks: nat,
    pub fixed: Option<Number>,
    pub limit: nat,
    pub iterations: nat,
}

/// Whether the readings `later` begin with the readings `earlier`.
pub open spec fn continues(earlier: Seq<Number>, later: Seq<Number>) -> bool {
    &&& earlier.len() <= later.len()
    &&& forall|i: int| 0 <= i < earlier.len() ==> #[trigger] later[i] == earlier[i]
}

/// Outcome of evaluating an expression, and the state after it.
pub type Evaluated = (Result<ValueModel, RuntimeError>, Machine);

/// Outcome of executing statements, and the state after it. `Some` holds the
/// value of a `return` that ended the execution early.
pub type Executed = (Result<Option<ValueModel>, RuntimeError>, Machine);

impl Machine {
    /// The state with other frames.
    pub open spec fn with_env(self, env: EnvModel) -> Machine {
        Machine { env, ..self }
    }

    /// What the built-in clock returns, and the state after it, when `tape`
    /// holds the readings of the system clock in the order in which they are
    /// taken: the fixed reading if there is one, else the next reading.
    pub open spec fn read_clock(self, tape: Seq<Number>) -> (Number, Machine) {
        match self.fixed {
            Some(now) => (now, self),
            None => (
                if self.ticks < tape.len() {
                    tape[self.ticks as int]
                } else {
                    Number { micros: 0 }
                },
                Machine { ticks: self.ticks + 1, ..self },
            ),
        }
    }

    /// The distance recorded for the node `id`, if there is one.
    pub open spec fn distance(self, id: usize) -> Option<usize> {
        if self.locals.contains_key(id) {
            Some(self.locals[id])
        } else {
            None
        }
    }

    /// Reading the variable `name` at the node `id`: by the recorded
    /// distance when there is one, else by searching the chain.
    pub open spec fn read(self, id: usize, name: Token) -> Evaluated {
        match self.env.get(name.lexeme@, self.distance(id)) {
            Some(v) => (Ok(v), self),
            None => if self.distance(id) is Some {
                (Err(RuntimeError::UndeclaredLocal { name: name.lexeme }), self)
            } else {
                (Err(RuntimeError::UndeclaredVariable { name: name.lexeme }), self)
            },
        }
    }

    /// Assigning `v` to the variable `name` at the node `id`: by the recorded
    /// distance when there is one, else to the first frame of the chain that
    /// binds the name; it is an error when no frame does.
    pub open spec fn write(self, id: usize, name: Token, v: ValueModel) -> Evaluated {
        if self.env.assigns(name.lexeme@, self.distance(id)) {
            (Ok(v), self.with_env(self.env.assign(name.lexeme@, v, self.distance(id))))
        } else {
            (Err(RuntimeError::UndeclaredVariable { name: name.lexeme }), self)
        }
    }

    /// The function value that a declaration met in this state stands for:
    /// it closes over the current frame and the distances in force.
    pub open spec fn closure(self, declaration: FunctionDecl) -> ValueModel {
        ValueModel::Callable {
            name: declaration.name.lexeme@,
            arity: declaration.params.len() as nat,
            fun: FunctionModel::Closure {
                declaration,
                frame: self.env.current,
                locals: self.locals,
            },
        }
    }

    /// The state in which the body of a closure starts to run: a new frame
    /// inside the closure's frame binds the parameters to the arguments, and
    /// the closure's distances are in force.
    pub open spec fn enter_call(
        self,
        frame: nat,
        locals: Map<usize, usize>,
        params: Seq<Token>,
        args: Seq<ValueModel>,
    ) -> Machine {
        Machine { env: bind_params(self.env.enter(frame).enclose(), params, args, 0), locals, ..self }
    }

    /// The state after a call that ended in state `self` and was made in
    /// state `caller`: the caller's frame is current again, the caller's
    /// distances are in force, and the frame of the call is given up.
    pub open spec fn leave_call(self, caller: Machine) -> Machine {
        Machine {
            env: self.env.enter(caller.env.current).release(caller.env.links.len()),
            locals: caller.locals,
            ..self
        }
    }

    /// The state after the block that was entered in state `outer` ended in
    /// state `self`: the outer frame is current again and the frame of the
    /// block is given up.
    pub open spec fn leave_block(self, outer: Machine) -> Machine {
        self.with_env(self.env.enter(outer.env.current).release(outer.env.links.len()))
    }

    /// The state after a function was declared in the current frame.
    pub open spec fn capture(self) -> Machine {
        self.with_env(self.env.capture())
    }
}

/// The frames after the parameters from the `i`-th on were bound, each to
/// the argument at its position.
pub open spec fn bind_params(env: EnvModel, params: Seq<Token>, args: Seq<ValueModel>, i: nat) -> EnvModel
    decreases params.len() - i,
{
    if i < params.len() && i < args.len() {
        bind_params(env.define(params[i as int].lexeme@, args[i as int]), params, args, i + 1)
    } else {
        env
    }
}

/// The value of a call whose body ended with `r`: the returned value, or
/// `nil` when the body ran to its end.
pub open spec fn returned(r: Result<Option<ValueModel>, RuntimeError>) -> Result<
    ValueModel,
    RuntimeError,
> {
    match r {
        Ok(Some(v)) => Ok(v),
        Ok(None) => Ok(ValueModel::Nil),
        Err(err) => Err(err),
    }
}

/// The methods of a class declared in state `m`, after the first `n`
/// declarations were taken in: one function value for each name, that of the
/// last declaration of the name.
pub open spec fn method_values(methods: Seq<Rc<FunctionDecl>>, n: nat, m: Machine) -> Seq<ValueModel>
    decreases n,
{
    if n == 0 || n > methods.len() {
        Seq::empty()
    } else {
        install(
            method_values(methods, (n - 1) as nat, m),
            m.closure(declared(methods[n - 1])),
        )
    }
}

/// The declaration that a closure runs.
pub open spec fn declaration_of(callee: ValueModel) -> FunctionDecl {
    match callee {
        ValueModel::Callable { fun: FunctionModel::Closure { declaration, .. }, .. } => declaration,
        _ => arbitrary(),
    }
}

/// Evaluates an expression with `depth` more levels of calls allowed.
pub open spec fn eval(e: Expr, m: Machine, depth: nat, tape: Seq<Number>) -> Evaluated
    decreases depth, e, 0nat, 0nat,
{
    match e {
        Expr::Literal { value } => if value@.is_plain() {
            (Ok(value@), m)
        } else {
            (Err(RuntimeError::ForeignLiteral), m)
        },
        Expr::Grouping { expression } => eval(*expression, m, depth, tape),
        Expr::Variable { id, name } => m.read(id, name),
        Expr::Assign { id, name, value } => {
            let (r, m1) = eval(*value, m, depth, tape);
            match r {
                Ok(v) => m1.write(id, name, v),
                Err(err) => (Err(err), m1),
            }
        },
        Expr::Unary { operator, right } => {
            let (r, m1) = eval(*right, m, depth, tape);
            match r {
                Ok(v) => (unary(operator.token_type, v), m1),
                Err(err) => (Err(err), m1),
            }
        },
        Expr::Binary { left, operator, right } => {
            let (a, m1) = eval(*left, m, depth, tape);
            match a {
                Ok(x) => {
                    let (b, m2) = eval(*right, m1, depth, tape);
                    match b {
                        Ok(y) => (binary(x, operator.token_type, y), m2),
                        Err(err) => (Err(err), m2),
                    }
                },
                Err(err) => (Err(err), m1),
            }
        },
        Expr::Call { callee, arguments } => {
            let (f, m1) = eval(*callee, m, depth, tape);
            match f {
                Ok(callee_value) => {
                    let (args, m2) = eval_args(arguments, 0, Seq::empty(), m1, depth, tape);
                    match args {
                        Ok(values) => if depth == 0 {
                            (Err(RuntimeError::CallDepthExceeded), m2)
                        } else {
                            invoke(callee_value, values, m2, (depth - 1) as nat, tape)
                        },
                        Err(err) => (Err(err), m2),
                    }
                },
                Err(err) => (Err(err), m1),
            }
        },
    }
}

/// Evaluates the arguments from the `i`-th on, in order, behind the values
/// of the earlier ones.
pub open spec fn eval_args(
    es: Vec<Expr>,
    i: nat,
    done: Seq<ValueModel>,
    m: Machine,
    depth: nat,
    tape: Seq<Number>,
) -> (Result<Seq<ValueModel>, RuntimeError>, Machine)
    decreases depth, es, 0nat, es.len() - i,
{
    if i < es.len() {
        let (r, m1) = eval(es[i as int], m, depth, tape);
        match r {
            Ok(v) => eval_args(es, i + 1, done.push(v), m1, depth, tape),
            Err(err) => (Err(err), m1),
        }
    } else {
        (Ok(done), m)
    }
}

/// Calls `callee` with `args`, with `depth` more levels of calls allowed
/// inside it. A closure runs its body in a new frame inside its defining
/// frame; the call yields the value of the first `return` that is reached,
/// or `nil`. Afterwards the caller's frame is current again, whatever the
/// body did.
pub open spec fn invoke(
    callee: ValueModel,
    args: Seq<ValueModel>,
    m: Machine,
    depth: nat,
    tape: Seq<Number>,
) -> Evaluated
    decreases depth, declaration_of(callee), 1nat, 0nat,
{
    match callee {
        ValueModel::Callable { name, arity, fun } => if args.len() != arity {
            (
                Err(
                    RuntimeError::ArityMismatch {
                        expected: #[verifier::truncate] (arity as usize),
                        found: #[verifier::truncate] (args.len() as usize),
                    },
                ),
                m,
            )
        } else {
            match fun {
                FunctionModel::Clock => (
                    Ok(ValueModel::Number(m.read_clock(tape).0)),
                    m.read_clock(tape).1,
                ),
                FunctionModel::Closure { declaration, frame, locals } => apply(
                    declaration,
                    frame,
                    locals,
                    args,
                    m,
                    depth,
                    tape,
                ),
            }
        },
        _ => (Err(RuntimeError::NotCallable { kind: callee.kind() }), m),
    }
}

/// Runs the body of a closure: a new frame inside the closure's frame binds
/// the parameters to the arguments, and the statements of the body run in it
/// with the closure's distances in force. The call yields the value of the
/// first `return` that is reached, or `nil`.
pub open spec fn apply(
    declaration: FunctionDecl,
    frame: nat,
    locals: Map<usize, usize>,
    args: Seq<ValueModel>,
    m: Machine,
    depth: nat,
    tape: Seq<Number>,
) -> Evaluated
    decreases depth, declaration, 0nat, 0nat,
{
    let (r, m1) = run(
        declaration.body,
        0,
        m.enter_call(frame, locals, declaration.params@, args),
        depth,
        tape,
    );
    (returned(r), m1.leave_call(m))
}

/// Executes the statements from the `i`-th on, in order, and stops at the
/// first error or `return`.
pub open spec fn run(ss: Vec<Stmt>, i: nat, m: Machine, depth: nat, tape: Seq<Number>) -> Executed
    decreases depth, ss, 0nat, ss.len() - i,
{
    if i < ss.len() {
        let (r, m1) = exec(ss[i as int], m, depth, tape);
        match r {
            Ok(None) => run(ss, i + 1, m1, depth, tape),
            _ => (r, m1),
        }
    } else {
        (Ok(None), m)
    }
}

/// Executes the loop statement `w` with `left` more iterations allowed.
pub open spec fn iterate(w: Stmt, m: Machine, depth: nat, left: nat, tape: Seq<Number>) -> Executed
    decreases depth, w, 0nat, left,
{
    match w {
        Stmt::WhileStmt { condition, body } => {
            let (c, m1) = eval(condition, m, depth, tape);
            match c {
                Ok(v) => if v.falsy() {
                    (Ok(None), m1)
                } else if left == 0 {
                    (Err(RuntimeError::LoopLimitExceeded), m1)
                } else {
                    let (r, m2) = exec(*body, m1, depth, tape);
                    match r {
                        Ok(None) => iterate(w, m2, depth, (left - 1) as nat, tape),
                        _ => (r, m2),
                    }
                },
                Err(err) => (Err(err), m1),
            }
        },
        _ => (Ok(None), m),
    }
}

/// Executes a statement with `depth` more levels of calls allowed.
pub open spec fn exec(s: Stmt, m: Machine, depth: nat, tape: Seq<Number>) -> Executed
    decreases depth, s, 1nat, 0nat,
{
    match s {
        Stmt::Expression { expression } => {
            let (r, m1) = eval(expression, m, depth, tape);
            match r {
                Ok(_) => (Ok(None), m1),
                Err(err) => (Err(err), m1),
            }
        },
        Stmt::Print { expression } => {
            let (r, m1) = eval(expression, m, depth, tape);
            match r {
                Ok(v) => (Ok(None), Machine { output: m1.output.push(v.text()), ..m1 }),
                Err(err) => (Err(err), m1),
            }
        },
        Stmt::Var { name, initializer } => {
            let (r, m1) = eval(initializer, m, depth, tape);
            match r {
                Ok(v) => (Ok(None), m1.with_env(m1.env.define(name.lexeme@, v))),
                Err(err) => (Err(err), m1),
            }
        },
        Stmt::Block { statements } => {
            let (r, m1) = run(statements, 0, m.with_env(m.env.enclose()), depth, tape);
            (r, m1.leave_block(m))
        },
        Stmt::IfStmt { predicate, then, els } => {
            let (c, m1) = eval(predicate, m, depth, tape);
            match c {
                Ok(v) => if !v.falsy() {
                    exec(*then, m1, depth, tape)
                } else {
                    match els {
                        Some(other) => exec(*other, m1, depth, tape),
                        None => (Ok(None), m1),
                    }
                },
                Err(err) => (Err(err), m1),
            }
        },
        Stmt::WhileStmt { condition, body } => iterate(s, m, depth, m.iterations, tape),
        Stmt::Function { declaration } => (
            Ok(None),
            m.with_env(
                m.env.capture().define(declaration.name.lexeme@, m.closure(declared(declaration))),
            ),
        ),
        Stmt::ReturnStmt { keyword, value } => match value {
            Some(e) => {
                let (r, m1) = eval(e, m, depth, tape);
                match r {
                    Ok(v) => (Ok(Some(v)), m1),
                    Err(err) => (Err(err), m1),
                }
            },
            None => (Ok(Some(ValueModel::Nil)), m),
        },
        Stmt::Class { name, methods } => {
            let m1 = m.with_env(m.env.define(name.lexeme@, ValueModel::Nil).capture());
            let class = ValueModel::Class {
                name: name.lexeme@,
                methods: method_values(methods@, methods@.len(), m1),
            };
            if m1.env.assigns(name.lexeme@, None) {
                (Ok(None), m1.with_env(m1.env.assign(name.lexeme@, class, None)))
            } else {
                (Err(RuntimeError::ClassDefinition { name: name.lexeme }), m1)
            }
        },
    }
}

/// Outcome of a program: success when every statement ran or a `return` was
/// reached, else the first error.
pub open spec fn finished(r: Result<Option<ValueModel>, RuntimeError>) -> Result<(), RuntimeError> {
    match r {
        Ok(_) => Ok(()),
        Err(err) => Err(err),
    }
}

} // verus!
