//! Statements of the language, as a parser hands them over.

use vstd::prelude::*;
use vstd::string::*;
use std::rc::Rc;
use crate::expr::Expr;
use crate::token::Token;

verus! {

/// Declaration of a function or of a method: its name, its parameters in
/// order, and the statements of its body.
#[derive(Debug)]
pub struct FunctionDecl {
    pub name: Token,
    pub params: Vec<Token>,
    pub body: Vec<Stmt>,
}

/// A statement.
#[derive(Debug)]
pub enum Stmt {
    Expression { expression: Expr },
    Print { expression: Expr },
    Var { name: Token, initializer: Expr },
    Block { statements: Vec<Stmt> },
    IfStmt { predicate: Expr, then: Box<Stmt>, els: Option<Box<Stmt>> },
    WhileStmt { condition: Expr, body: Box<Stmt> },
    Function { declaration: Rc<FunctionDecl> },
    ReturnStmt { keyword: Token, value: Option<Expr> },
    Class { name: Token, methods: Vec<Rc<FunctionDecl>> },
}

/// The declaration behind a shared handle.
#[verifier::inline]
pub open spec fn declared(rc: Rc<FunctionDecl>) -> FunctionDecl {
    *rc
}

impl FunctionDecl {
    /// Whether every node of the body that can carry a distance has its
    /// identity in `seen`, and every distance that `locals` records for such
    /// a node stays below the number of lexical scopes that enclose the
    /// node, when `depth` scopes enclose the declaration.
    pub open spec fn settled(self, locals: Map<usize, usize>, seen: Set<usize>, depth: nat) -> bool
        decreases self,
    {
        forall|i: int|
            0 <= i < self.body.len() ==> (#[trigger] self.body[i]).settled(
                locals,
                seen,
                depth + 1,
            )
    }

    /// Whether every distance that `locals` records for a node of the body
    /// stays below the number of lexical scopes that enclose the node, when
    /// `depth` scopes enclose the declaration.
    pub open spec fn resolved_within(self, locals: Map<usize, usize>, depth: nat) -> bool {
        self.settled(locals, Set::full(), depth)
    }
}

impl Stmt {
    /// Whether every node of the statement that can carry a distance has its
    /// identity in `seen`, and every distance that `locals` records for such
    /// a node stays below the number of lexical scopes that enclose the
    /// node, when `depth` scopes enclose the statement. A block and a
    /// function body each add one scope.
    pub open spec fn settled(self, locals: Map<usize, usize>, seen: Set<usize>, depth: nat) -> bool
        decreases self,
    {
        match self {
            Stmt::Expression { expression } => expression.settled(locals, seen, depth),
            Stmt::Print { expression } => expression.settled(locals, seen, depth),
            Stmt::Var { name, initializer } => initializer.settled(locals, seen, depth),
            Stmt::Block { statements } => forall|i: int|
                0 <= i < statements.len() ==> (#[trigger] statements[i]).settled(
                    locals,
                    seen,
                    depth + 1,
                ),
            Stmt::IfStmt { predicate, then, els } => predicate.settled(locals, seen, depth)
                && then.settled(locals, seen, depth) && match els {
                Some(other) => other.settled(locals, seen, depth),
                None => true,
            },
            Stmt::WhileStmt { condition, body } => condition.settled(locals, seen, depth)
                && body.settled(locals, seen, depth),
            Stmt::Function { declaration } => declaration.settled(locals, seen, depth),
            Stmt::ReturnStmt { keyword, value } => match value {
                Some(e) => e.settled(locals, seen, depth),
                None => true,
            },
            Stmt::Class { name, methods } => forall|i: int|
                0 <= i < methods.len() ==> (#[trigger] methods[i]).settled(locals, seen, depth),
        }
    }

    /// Whether every distance that `locals` records for a node of the
    /// statement stays below the number of lexical scopes that enclose the
    /// node, when `depth` scopes enclose the statement.
    pub open spec fn resolved_within(self, locals: Map<usize, usize>, depth: nat) -> bool {
        self.settled(locals, Set::full(), depth)
    }
}

/// Whether each statement of `statements` is resolved within `depth` scopes.
pub open spec fn all_resolved_within(
    statements: Seq<Stmt>,
    locals: Map<usize, usize>,
    depth: nat,
) -> bool {
    forall|i: int|
        0 <= i < statements.len() ==> (#[trigger] statements[i]).resolved_within(locals, depth)
}

/// The statements of `ss` from the `i`-th on as text, each behind a space.
pub open spec fn rendered_statements(ss: Vec<Stmt>, i: nat) -> Seq<char>
    decreases ss, ss.len() - i,
{
    if i < ss.len() {
        " "@ + ss[i as int].rendered() + rendered_statements(ss, i + 1)
    } else {
        Seq::empty()
    }
}

impl Stmt {
    /// The statement as text, in prefix form with parentheses. Of a function
    /// or a class only the name is shown.
    pub open spec fn rendered(self) -> Seq<char>
        decreases self, 0nat,
    {
        match self {
            Stmt::Expression { expression } => expression.rendered(),
            Stmt::Print { expression } => "(print "@ + expression.rendered() + ")"@,
            Stmt::Var { name, initializer } => "(var "@ + name.lexeme@ + ")"@,
            Stmt::Block { statements } => "(block"@ + rendered_statements(statements, 0) + ")"@,
            Stmt::IfStmt { predicate, then, els } => "(if "@ + predicate.rendered() + " "@
                + then.rendered() + match els {
                Some(other) => " "@ + other.rendered(),
                None => Seq::empty(),
            } + ")"@,
            Stmt::WhileStmt { condition, body } => "(while "@ + condition.rendered() + " "@
                + body.rendered() + ")"@,
            Stmt::Function { declaration } => "(fun "@ + declaration.name.lexeme@ + ")"@,
            Stmt::ReturnStmt { keyword, value } => match value {
                Some(e) => "(return "@ + e.rendered() + ")"@,
                None => "(return)"@,
            },
            Stmt::Class { name, methods } => "(class "@ + name.lexeme@ + ")"@,
        }
    }

    /// The statement as text, in prefix form with parentheses.
    pub fn tostring(&self) -> (r: String)
        ensures
            r@ == self.rendered(),
        decreases self, 0nat,
    {
        match self {
            Stmt::Expression { expression } => expression.to_string(),
            Stmt::Print { expression } => {
                let mut out = String::from_str("(print ");
                out.append(expression.to_string().as_str());
                out.append(")");
                out
            },
            Stmt::Var { name, initializer } => {
                let mut out = String::from_str("(var ");
                out.append(name.lexeme.as_str());
                out.append(")");
                out
            },
            Stmt::Block { statements } => {
                let mut out = String::from_str("(block");
                out.append(render_statements(statements).as_str());
                out.append(")");
                out
            },
            Stmt::IfStmt { predicate, then, els } => {
                let mut out = String::from_str("(if ");
                out.append(predicate.to_string().as_str());
                out.append(" ");
                out.append(then.tostring().as_str());
                match els {
                    Some(other) => {
                        out.append(" ");
                        out.append(other.tostring().as_str());
                    },
                    None => {
                        assert(out@ + Seq::<char>::empty() =~= out@);
                    },
                }
                out.append(")");
                assert(out@ =~= self.rendered());
                out
            },
            Stmt::WhileStmt { condition, body } => {
                let mut out = String::from_str("(while ");
                out.append(condition.to_string().as_str());
                out.append(" ");
                out.append(body.tostring().as_str());
                out.append(")");
                out
            },
            Stmt::Function { declaration } => {
                let mut out = String::from_str("(fun ");
                out.append(declaration.name.lexeme.as_str());
                out.append(")");
                out
            },
            Stmt::ReturnStmt { keyword, value } => {
                match value {
                    Some(e) => {
                        let mut out = String::from_str("(return ");
                        out.append(e.to_string().as_str());
                        out.append(")");
                        out
                    },
                    None => String::from_str("(return)"),
                }
            },
            Stmt::Class { name, methods } => {
                let mut out = String::from_str("(class ");
                out.append(name.lexeme.as_str());
                out.append(")");
                out
            },
        }
    }
}

/// The statements of `ss` as text, each behind a space.
pub fn render_statements(ss: &Vec<Stmt>) -> (r: String)
    ensures
        r@ == rendered_statements(*ss, 0),
    decreases ss, ss.len(),
{
    let mut out = String::new();
    let mut i: usize = 0;
    while i < ss.len()
        invariant
            i <= ss.len(),
            out@ + rendered_statements(*ss, i as nat) == rendered_statements(*ss, 0),
        decreases ss.len() - i,
    {
        let ghost before = out@;
        out.append(" ");
        out.append(ss[i].tostring().as_str());
        proof {
            assert(out@ + rendered_statements(*ss, (i + 1) as nat) =~= before
                + rendered_statements(*ss, i as nat));
        }
        i = i + 1;
    }
    assert(out@ + Seq::<char>::empty() =~= out@);
    out
}

} // verus!
