//! Evaluation core of a tree-walking interpreter for a small dynamically
//! typed scripting language: values, a chain of scope frames, a static
//! binding-resolution pass and a statement and expression evaluator.
//!
//! A tokenizer and a parser are expected to hand over [`stmt::Stmt`] trees.
//! [`resolver::Resolver`] records, for each variable reference, how many
//! scopes lie between the use and the declaration.
//! [`interpreter::Interpreter`] runs the statements against an
//! [`environment::Environment`], by those distances where there are any and
//! by searching the chain of frames where there are none.
//! [`interpreter::Interpreter::run`] does both in one call.
//!
//! What running a program means is written down in [`semantics`] as
//! mathematical functions, and the interpreter is proved to compute them.
//! [`laws`] holds what follows for scoping, closures and `return`.
//!
//! Three things differ from what one may expect of such a language:
//!
//! - Numbers are decimal fixed-point values with six fractional digits
//!   ([`number::Number`]). Arithmetic that leaves their range, and division
//!   by zero, are errors of the running program.
//! - `print` adds a line to the interpreter's output, which the host takes
//!   and shows; the library itself writes nowhere.
//! - Calls are nested at most as deep as a limit allows, and one execution
//!   of a loop runs at most as many iterations as a second limit allows;
//!   beyond the limits the program fails.
//!
//! The built-in `clock` reads the system clock. Nothing is known of what it
//! reads, so the interpreter is proved to compute what the semantics give
//! for the readings that the clock gave, whatever they were.
//!
//! Frames live in an arena. The frame of a block or of a call is removed
//! when the block or the call ends, unless a function was declared while
//! the frame existed: a function value can always reach the frame it was
//! declared in.
//!
//! Evaluation recurses on the host's stack along the nesting of the program
//! and of its calls. The limit on the nesting of calls bounds the second;
//! nothing bounds the first.

pub mod environment;
pub mod error;
pub mod expr;
pub mod interpreter;
pub mod laws;
pub mod number;
pub mod operators;
pub mod resolver;
pub mod semantics;
pub mod stmt;
pub mod token;
