use jlox::error::Error;
use jlox::expr::{Expr, LiteralValue};
use jlox::interpreter::Interpreter;
use jlox::number::Number;
use jlox::resolver::{ResolveError, Resolver};
use jlox::stmt::{FunctionDecl, Stmt};
use jlox::token::{Token, TokenType};
use std::rc::Rc;

fn name(lexeme: &str) -> Token {
    Token { token_type: TokenType::Identifier, lexeme: lexeme.to_string(), literal: None, line_number: 1 }
}

fn num(n: i64) -> Expr {
    Expr::Literal { value: LiteralValue::Number(Number::from_integer(n).unwrap()) }
}

fn var(id: usize, lexeme: &str) -> Expr {
    Expr::Variable { id, name: name(lexeme) }
}

fn assign(id: usize, lexeme: &str, value: Expr) -> Expr {
    Expr::Assign { id, name: name(lexeme), value: Box::new(value) }
}

fn declare(lexeme: &str, initializer: Expr) -> Stmt {
    Stmt::Var { name: name(lexeme), initializer }
}

fn block(statements: Vec<Stmt>) -> Stmt {
    Stmt::Block { statements }
}

fn print(expression: Expr) -> Stmt {
    Stmt::Print { expression }
}

fn function(lexeme: &str, params: Vec<&str>, body: Vec<Stmt>) -> Stmt {
    Stmt::Function {
        declaration: Rc::new(FunctionDecl {
            name: name(lexeme),
            params: params.into_iter().map(name).collect(),
            body,
        }),
    }
}

#[test]
fn own_initializer_is_rejected() {
    let mut resolver = Resolver::new();
    let r = resolver.resolve(&block(vec![declare("a", var(1, "a"))]));
    match r {
        Err(ResolveError::OwnInitializer { name }) => assert_eq!(name, "a"),
        other => panic!("not rejected: {:?}", other),
    }
}

#[test]
fn own_initializer_is_rejected_anywhere_in_the_initializer() {
    let mut resolver = Resolver::new();
    let initializer = Expr::Binary {
        left: Box::new(num(1)),
        operator: Token::new(TokenType::Plus, "+".to_string(), 1),
        right: Box::new(Expr::Grouping { expression: Box::new(var(1, "a")) }),
    };
    let r = resolver.resolve(&block(vec![declare("a", num(0)), declare("a", initializer)]));
    assert!(matches!(r, Err(ResolveError::OwnInitializer { .. })));
}

#[test]
fn rejected_program_is_not_run() {
    let stmts = vec![print(num(1)), block(vec![declare("a", var(1, "a"))])];
    let mut interpreter = Interpreter::new();
    let r = interpreter.run(&stmts);
    assert!(matches!(r, Err(Error::Resolve(ResolveError::OwnInitializer { .. }))));
    assert!(interpreter.take_output().is_empty());
}

#[test]
fn accepted_program_runs() {
    let stmts = vec![
        declare("a", num(1)),
        block(vec![declare("b", num(2)), block(vec![print(var(1, "a")), print(var(2, "b"))])]),
    ];
    let mut interpreter = Interpreter::new();
    interpreter.run(&stmts).unwrap();
    assert_eq!(interpreter.take_output(), vec!["1", "2"]);
    let r = interpreter.run(&vec![print(var(1, "missing"))]);
    assert!(matches!(r, Err(Error::Runtime(_))));
}

#[test]
fn global_initializer_may_name_itself() {
    let mut resolver = Resolver::new();
    resolver.resolve(&declare("a", var(1, "a"))).unwrap();
    assert!(resolver.locals().is_empty());
}

#[test]
fn distance_counts_scopes_between_use_and_declaration() {
    let stmts = vec![block(vec![
        declare("a", num(1)),
        print(var(1, "a")),
        block(vec![
            print(var(2, "a")),
            declare("a", num(2)),
            print(var(3, "a")),
            block(vec![Stmt::Expression { expression: assign(4, "a", var(5, "global")) }]),
        ]),
    ])];
    let mut resolver = Resolver::new();
    resolver.resolve_many(&stmts).unwrap();
    assert_eq!(resolver.depth(), 0);
    let locals = resolver.into_locals();
    assert_eq!(locals.get(&1), Some(&0));
    assert_eq!(locals.get(&2), Some(&1));
    assert_eq!(locals.get(&3), Some(&0));
    assert_eq!(locals.get(&4), Some(&1));
    assert_eq!(locals.get(&5), None);
    assert_eq!(locals.len(), 4);
}

#[test]
fn function_scope_holds_parameters_and_name_is_visible_in_body() {
    let stmts = vec![block(vec![function(
        "f",
        vec!["x"],
        vec![print(var(1, "x")), print(var(2, "f")), block(vec![print(var(3, "x"))])],
    )])];
    let mut resolver = Resolver::new();
    resolver.resolve_many(&stmts).unwrap();
    let locals = resolver.into_locals();
    assert_eq!(locals.get(&1), Some(&0));
    assert_eq!(locals.get(&2), Some(&1));
    assert_eq!(locals.get(&3), Some(&1));
}

#[test]
fn every_statement_and_expression_form_is_visited() {
    let method = Rc::new(FunctionDecl {
        name: name("m"),
        params: vec![name("p")],
        body: vec![print(var(1, "p")), print(var(2, "C"))],
    });
    let stmts = vec![block(vec![
        declare("a", num(1)),
        Stmt::Class { name: name("C"), methods: vec![method] },
        Stmt::IfStmt {
            predicate: var(3, "a"),
            then: Box::new(print(var(4, "a"))),
            els: Some(Box::new(print(var(5, "a")))),
        },
        Stmt::WhileStmt { condition: var(6, "a"), body: Box::new(block(vec![print(var(7, "a"))])) },
        Stmt::ReturnStmt {
            keyword: Token::new(TokenType::Return, "return".to_string(), 1),
            value: Some(Expr::Call {
                callee: Box::new(var(8, "a")),
                arguments: vec![
                    Expr::Unary {
                        operator: Token::new(TokenType::Minus, "-".to_string(), 1),
                        right: Box::new(var(9, "a")),
                    },
                    var(10, "a"),
                ],
            }),
        },
        Stmt::ReturnStmt { keyword: Token::new(TokenType::Return, "return".to_string(), 1), value: None },
    ])];
    let mut resolver = Resolver::new();
    resolver.resolve_many(&stmts).unwrap();
    let locals = resolver.into_locals();
    assert_eq!(locals.get(&1), Some(&0));
    assert_eq!(locals.get(&2), Some(&1));
    for id in [3, 4, 5, 6, 8, 9, 10] {
        assert_eq!(locals.get(&id), Some(&0), "node {}", id);
    }
    assert_eq!(locals.get(&7), Some(&1));
}

#[test]
fn shared_identity_is_rejected() {
    let mut resolver = Resolver::new();
    let r = resolver.resolve_many(&vec![
        print(var(1, "a")),
        block(vec![declare("a", num(1)), print(var(1, "a"))]),
    ]);
    assert!(matches!(r, Err(ResolveError::DuplicateNode { id: 1 })));
    let mut resolver = Resolver::new();
    let r = resolver.resolve(&Stmt::Expression { expression: assign(2, "a", var(2, "b")) });
    assert!(matches!(r, Err(ResolveError::DuplicateNode { id: 2 })));
}

#[test]
fn pass_stops_at_the_first_error() {
    let mut resolver = Resolver::new();
    let r = resolver.resolve_many(&vec![
        block(vec![declare("a", num(1)), print(var(1, "a"))]),
        block(vec![declare("b", var(2, "b"))]),
        block(vec![declare("c", num(1)), print(var(3, "c"))]),
    ]);
    assert!(matches!(r, Err(ResolveError::OwnInitializer { .. })));
    assert_eq!(resolver.locals().get(&1), Some(&0));
    assert_eq!(resolver.locals().get(&3), None);
}
