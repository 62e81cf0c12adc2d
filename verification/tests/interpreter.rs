use jlox::error::RuntimeError;
use jlox::expr::{Expr, Kind, LiteralValue};
use jlox::interpreter::{Completion, Interpreter};
use jlox::number::Number;
use jlox::resolver::Resolver;
use jlox::stmt::{FunctionDecl, Stmt};
use jlox::token::{Token, TokenType};
use std::collections::HashMap;
use std::rc::Rc;

fn tok(token_type: TokenType, lexeme: &str) -> Token {
    Token { token_type, lexeme: lexeme.to_string(), literal: None, line_number: 1 }
}

fn name(lexeme: &str) -> Token {
    tok(TokenType::Identifier, lexeme)
}

fn num(x: f64) -> Expr {
    Expr::Literal { value: LiteralValue::Number(Number::from_micros((x * 1_000_000.0).round() as i64)) }
}

fn text(s: &str) -> Expr {
    Expr::Literal { value: LiteralValue::StringValue(s.to_string()) }
}

fn var(id: usize, lexeme: &str) -> Expr {
    Expr::Variable { id, name: name(lexeme) }
}

fn assign(id: usize, lexeme: &str, value: Expr) -> Expr {
    Expr::Assign { id, name: name(lexeme), value: Box::new(value) }
}

fn binary(left: Expr, token_type: TokenType, lexeme: &str, right: Expr) -> Expr {
    Expr::Binary { left: Box::new(left), operator: tok(token_type, lexeme), right: Box::new(right) }
}

fn unary(token_type: TokenType, lexeme: &str, right: Expr) -> Expr {
    Expr::Unary { operator: tok(token_type, lexeme), right: Box::new(right) }
}

fn call(callee: Expr, arguments: Vec<Expr>) -> Expr {
    Expr::Call { callee: Box::new(callee), arguments }
}

fn print(expression: Expr) -> Stmt {
    Stmt::Print { expression }
}

fn expression(expression: Expr) -> Stmt {
    Stmt::Expression { expression }
}

fn declare(lexeme: &str, initializer: Expr) -> Stmt {
    Stmt::Var { name: name(lexeme), initializer }
}

fn block(statements: Vec<Stmt>) -> Stmt {
    Stmt::Block { statements }
}

fn if_then(predicate: Expr, then: Stmt) -> Stmt {
    Stmt::IfStmt { predicate, then: Box::new(then), els: None }
}

fn if_else(predicate: Expr, then: Stmt, els: Stmt) -> Stmt {
    Stmt::IfStmt { predicate, then: Box::new(then), els: Some(Box::new(els)) }
}

fn while_do(condition: Expr, body: Stmt) -> Stmt {
    Stmt::WhileStmt { condition, body: Box::new(body) }
}

fn ret(value: Expr) -> Stmt {
    Stmt::ReturnStmt { keyword: tok(TokenType::Return, "return"), value: Some(value) }
}

fn function(lexeme: &str, params: Vec<&str>, body: Vec<Stmt>) -> Stmt {
    Stmt::Function {
        declaration: Rc::new(FunctionDecl {
            name: name(lexeme),
            params: params.into_iter().map(name).collect(),
            body,
        }),
    }
}

fn nil() -> Expr {
    Expr::Literal { value: LiteralValue::Nil }
}

fn truth(b: bool) -> Expr {
    Expr::Literal { value: LiteralValue::from_bool(b) }
}

fn resolved(stmts: &Vec<Stmt>) -> Interpreter {
    let mut resolver = Resolver::new();
    resolver.resolve_many(stmts).expect("the program resolves");
    let mut interpreter = Interpreter::new();
    interpreter.resolve(resolver.into_locals());
    interpreter
}

fn run(stmts: Vec<Stmt>) -> (Result<(), RuntimeError>, Vec<String>) {
    let mut interpreter = resolved(&stmts);
    let r = interpreter.interpret(&stmts);
    (r, interpreter.take_output())
}

fn printed(stmts: Vec<Stmt>) -> Vec<String> {
    let (r, lines) = run(stmts);
    assert!(r.is_ok(), "{:?}", r);
    lines
}

fn failure(stmts: Vec<Stmt>) -> RuntimeError {
    let (r, _) = run(stmts);
    r.expect_err("the program fails")
}

#[test]
fn inner_declaration_shadows_and_leaves_outer_binding() {
    let lines = printed(vec![
        declare("a", text("outer")),
        block(vec![declare("a", text("inner")), print(var(1, "a"))]),
        print(var(2, "a")),
    ]);
    assert_eq!(lines, vec!["inner", "outer"]);
}

#[test]
fn shadowing_in_nested_blocks_restores_each_level() {
    let lines = printed(vec![block(vec![
        declare("a", num(1.0)),
        block(vec![
            declare("a", num(2.0)),
            block(vec![declare("a", num(3.0)), print(var(1, "a"))]),
            print(var(2, "a")),
        ]),
        print(var(3, "a")),
    ])]);
    assert_eq!(lines, vec!["3", "2", "1"]);
}

#[test]
fn closure_sees_later_mutation_of_captured_variable() {
    let lines = printed(vec![
        declare("get", nil()),
        declare("set", nil()),
        function(
            "make",
            vec![],
            vec![
                declare("x", num(1.0)),
                function("g", vec![], vec![ret(var(1, "x"))]),
                function(
                    "s",
                    vec![],
                    vec![expression(assign(
                        2,
                        "x",
                        binary(var(3, "x"), TokenType::Plus, "+", num(1.0)),
                    ))],
                ),
                expression(assign(4, "get", var(5, "g"))),
                expression(assign(6, "set", var(7, "s"))),
            ],
        ),
        expression(call(var(8, "make"), vec![])),
        print(call(var(9, "get"), vec![])),
        expression(call(var(10, "set"), vec![])),
        print(call(var(11, "get"), vec![])),
        expression(call(var(12, "set"), vec![])),
        print(call(var(13, "get"), vec![])),
    ]);
    assert_eq!(lines, vec!["1", "2", "3"]);
}

#[test]
fn each_call_gets_its_own_frame() {
    let lines = printed(vec![
        function(
            "counter",
            vec!["start"],
            vec![
                function(
                    "next",
                    vec![],
                    vec![
                        expression(assign(
                            1,
                            "start",
                            binary(var(2, "start"), TokenType::Plus, "+", num(1.0)),
                        )),
                        ret(var(3, "start")),
                    ],
                ),
                ret(var(4, "next")),
            ],
        ),
        declare("a", call(var(5, "counter"), vec![num(10.0)])),
        declare("b", call(var(6, "counter"), vec![num(100.0)])),
        print(call(var(7, "a"), vec![])),
        print(call(var(8, "a"), vec![])),
        print(call(var(9, "b"), vec![])),
    ]);
    assert_eq!(lines, vec!["11", "12", "101"]);
}

#[test]
fn resolved_references_never_leave_the_chain() {
    let stmts = vec![block(vec![
        declare("a", num(1.0)),
        block(vec![
            declare("b", num(2.0)),
            function(
                "f",
                vec!["c"],
                vec![block(vec![print(binary(
                    binary(var(1, "a"), TokenType::Plus, "+", var(2, "b")),
                    TokenType::Plus,
                    "+",
                    var(3, "c"),
                ))])],
            ),
            expression(call(var(4, "f"), vec![num(3.0)])),
        ]),
    ])];
    let mut resolver = Resolver::new();
    resolver.resolve_many(&stmts).unwrap();
    let locals = resolver.into_locals();
    assert_eq!(locals.get(&1), Some(&3));
    assert_eq!(locals.get(&2), Some(&2));
    assert_eq!(locals.get(&3), Some(&1));
    assert_eq!(locals.get(&4), Some(&0));
    let mut interpreter = Interpreter::new();
    interpreter.resolve(locals);
    interpreter.interpret(&stmts).unwrap();
    assert_eq!(interpreter.take_output(), vec!["6"]);
}

#[test]
fn unresolved_reference_finds_global_dynamically() {
    let stmts = vec![
        declare("g", text("global")),
        function("f", vec![], vec![block(vec![print(var(1, "g"))])]),
        expression(call(var(2, "f"), vec![])),
    ];
    let mut resolver = Resolver::new();
    resolver.resolve_many(&stmts).unwrap();
    let locals = resolver.into_locals();
    assert_eq!(locals.get(&1), None);
    assert_eq!(locals.get(&2), None);
    let mut interpreter = Interpreter::new();
    interpreter.resolve(locals);
    interpreter.interpret(&stmts).unwrap();
    assert_eq!(interpreter.take_output(), vec!["global"]);
}

#[test]
fn program_runs_without_resolution() {
    let stmts = vec![
        declare("a", num(1.0)),
        block(vec![declare("b", num(2.0)), print(binary(var(1, "a"), TokenType::Plus, "+", var(2, "b")))]),
    ];
    let mut interpreter = Interpreter::new();
    interpreter.interpret(&stmts).unwrap();
    assert_eq!(interpreter.take_output(), vec!["3"]);
}

#[test]
fn recursive_factorial_of_five() {
    let lines = printed(vec![
        function(
            "fact",
            vec!["n"],
            vec![
                if_then(
                    binary(var(1, "n"), TokenType::LessEqual, "<=", num(1.0)),
                    ret(num(1.0)),
                ),
                ret(binary(
                    var(2, "n"),
                    TokenType::Star,
                    "*",
                    call(var(3, "fact"), vec![binary(var(4, "n"), TokenType::Minus, "-", num(1.0))]),
                )),
            ],
        ),
        print(call(var(5, "fact"), vec![num(5.0)])),
    ]);
    assert_eq!(lines, vec!["120"]);
}

#[test]
fn recursive_function_in_a_block() {
    let lines = printed(vec![block(vec![
        function(
            "fib",
            vec!["n"],
            vec![
                if_then(binary(var(1, "n"), TokenType::Less, "<", num(2.0)), ret(var(2, "n"))),
                ret(binary(
                    call(var(3, "fib"), vec![binary(var(4, "n"), TokenType::Minus, "-", num(1.0))]),
                    TokenType::Plus,
                    "+",
                    call(var(5, "fib"), vec![binary(var(6, "n"), TokenType::Minus, "-", num(2.0))]),
                )),
            ],
        ),
        print(call(var(7, "fib"), vec![num(10.0)])),
    ])]);
    assert_eq!(lines, vec!["55"]);
}

#[test]
fn text_concatenation() {
    let lines = printed(vec![print(binary(text("foo"), TokenType::Plus, "+", text("bar")))]);
    assert_eq!(lines, vec!["foobar"]);
}

#[test]
fn number_plus_text_is_a_type_error() {
    let err = failure(vec![print(binary(num(1.0), TokenType::Plus, "+", text("x")))]);
    assert!(matches!(err, RuntimeError::StringAndNumber { operator: TokenType::Plus }));
    assert_eq!(err.message(), "Plus is not defined for string and number");
    let err = failure(vec![print(binary(text("x"), TokenType::EqualEqual, "==", num(1.0)))]);
    assert!(matches!(err, RuntimeError::StringAndNumber { operator: TokenType::EqualEqual }));
}

#[test]
fn return_inside_if_inside_while_ends_the_call() {
    let lines = printed(vec![
        function(
            "find",
            vec!["limit"],
            vec![
                declare("i", num(0.0)),
                while_do(
                    truth(true),
                    block(vec![
                        if_then(
                            binary(var(1, "i"), TokenType::GreaterEqual, ">=", var(2, "limit")),
                            block(vec![ret(var(3, "i"))]),
                        ),
                        expression(assign(
                            4,
                            "i",
                            binary(var(5, "i"), TokenType::Plus, "+", num(1.0)),
                        )),
                    ]),
                ),
                print(text("never")),
                ret(num(-1.0)),
            ],
        ),
        print(call(var(6, "find"), vec![num(3.0)])),
        print(text("after")),
    ]);
    assert_eq!(lines, vec!["3", "after"]);
}

#[test]
fn function_without_return_yields_nil() {
    let lines = printed(vec![
        function("f", vec![], vec![declare("x", num(1.0))]),
        print(call(var(1, "f"), vec![])),
    ]);
    assert_eq!(lines, vec!["nil"]);
}

#[test]
fn return_without_value_yields_nil() {
    let lines = printed(vec![
        function(
            "f",
            vec![],
            vec![
                Stmt::ReturnStmt { keyword: tok(TokenType::Return, "return"), value: None },
                print(text("skipped")),
            ],
        ),
        print(call(var(1, "f"), vec![])),
    ]);
    assert_eq!(lines, vec!["nil"]);
}

#[test]
fn top_level_return_stops_the_program() {
    let lines = printed(vec![print(num(1.0)), ret(num(2.0)), print(num(3.0))]);
    assert_eq!(lines, vec!["1"]);
}

#[test]
fn execute_reports_how_a_statement_ended() {
    let mut interpreter = Interpreter::new();
    let done = interpreter.execute(&print(num(1.0))).unwrap();
    assert!(matches!(done, Completion::Normal));
    let done = interpreter.execute(&block(vec![ret(num(2.0)), print(num(3.0))])).unwrap();
    match done {
        Completion::Return(v) => assert_eq!(v, LiteralValue::Number(Number::from_micros(2_000_000))),
        Completion::Normal => panic!("the block returns"),
    }
    assert_eq!(interpreter.take_output(), vec!["1"]);
}

#[test]
fn while_loop_counts() {
    let lines = printed(vec![
        declare("i", num(0.0)),
        while_do(
            binary(var(1, "i"), TokenType::Less, "<", num(3.0)),
            block(vec![
                print(var(2, "i")),
                expression(assign(3, "i", binary(var(4, "i"), TokenType::Plus, "+", num(1.0)))),
            ]),
        ),
    ]);
    assert_eq!(lines, vec!["0", "1", "2"]);
}

#[test]
fn if_takes_exactly_one_branch() {
    let lines = printed(vec![
        if_else(truth(true), print(text("then")), print(text("else"))),
        if_else(nil(), print(text("then")), print(text("else"))),
        if_then(truth(false), print(text("never"))),
        if_then(num(0.0), print(text("zero is true"))),
        if_then(text(""), print(text("empty text is true"))),
    ]);
    assert_eq!(lines, vec!["then", "else", "zero is true", "empty text is true"]);
}

#[test]
fn error_inside_block_restores_frame_and_keeps_effects() {
    let stmts = vec![
        declare("a", num(1.0)),
        block(vec![
            declare("a", num(2.0)),
            print(var(1, "a")),
            print(var(2, "missing")),
            print(text("skipped")),
        ]),
    ];
    let mut interpreter = Interpreter::new();
    let err = interpreter.interpret(&stmts).unwrap_err();
    assert!(matches!(&err, RuntimeError::UndeclaredVariable { name } if name == "missing"));
    assert_eq!(err.message(), "Variable 'missing' has not been declared");
    assert_eq!(interpreter.take_output(), vec!["2"]);
    assert_eq!(interpreter.environment().current(), 0);
    interpreter.interpret(&vec![print(var(3, "a"))]).unwrap();
    assert_eq!(interpreter.take_output(), vec!["1"]);
}

#[test]
fn assignment_to_undeclared_name_is_an_error() {
    let err = failure(vec![expression(assign(1, "ghost", num(1.0)))]);
    assert!(matches!(&err, RuntimeError::UndeclaredVariable { name } if name == "ghost"));
}

#[test]
fn assignment_yields_the_assigned_value() {
    let lines = printed(vec![
        declare("a", num(1.0)),
        print(assign(1, "a", num(5.0))),
        print(var(2, "a")),
    ]);
    assert_eq!(lines, vec!["5", "5"]);
}

#[test]
fn unary_operators() {
    let lines = printed(vec![
        print(unary(TokenType::Minus, "-", num(2.5))),
        print(unary(TokenType::Bang, "!", nil())),
        print(unary(TokenType::Bang, "!", num(0.0))),
        print(unary(TokenType::Bang, "!", truth(false))),
    ]);
    assert_eq!(lines, vec!["-2.5", "true", "false", "true"]);
    let err = failure(vec![print(unary(TokenType::Minus, "-", text("a")))]);
    assert!(matches!(
        err,
        RuntimeError::InvalidUnaryOperand { operator: TokenType::Minus, operand: Kind::String }
    ));
    assert_eq!(err.message(), "Minus not implemented for String");
    let err = failure(vec![print(unary(TokenType::Plus, "+", num(1.0)))]);
    assert!(matches!(err, RuntimeError::InvalidUnaryOperator { operator: TokenType::Plus }));
    assert_eq!(err.message(), "Plus is not a valid unary operator");
}

#[test]
fn arithmetic_and_comparison() {
    let lines = printed(vec![
        print(binary(num(7.0), TokenType::Minus, "-", num(2.5))),
        print(binary(num(1.5), TokenType::Star, "*", num(-3.0))),
        print(binary(num(1.0), TokenType::Slash, "/", num(3.0))),
        print(binary(num(-1.0), TokenType::Slash, "/", num(3.0))),
        print(binary(num(1.0), TokenType::Less, "<", num(2.0))),
        print(binary(num(2.0), TokenType::LessEqual, "<=", num(2.0))),
        print(binary(num(1.0), TokenType::Greater, ">", num(2.0))),
        print(binary(num(2.0), TokenType::GreaterEqual, ">=", num(3.0))),
        print(binary(num(2.0), TokenType::EqualEqual, "==", num(2.0))),
        print(binary(num(2.0), TokenType::BangEqual, "!=", num(2.0))),
    ]);
    assert_eq!(
        lines,
        vec!["4.5", "-4.5", "0.333333", "-0.333333", "true", "true", "false", "false", "true", "false"]
    );
}

#[test]
fn arithmetic_failures() {
    let err = failure(vec![print(binary(num(1.0), TokenType::Slash, "/", num(0.0)))]);
    assert!(matches!(err, RuntimeError::DivisionByZero));
    assert_eq!(err.message(), "Division by zero");
    let big = Expr::Literal { value: LiteralValue::Number(Number::from_micros(i64::MAX)) };
    let err = failure(vec![print(binary(big, TokenType::Plus, "+", num(1.0)))]);
    assert!(matches!(err, RuntimeError::NumberOutOfRange { operator: TokenType::Plus }));
    assert_eq!(err.message(), "Plus gives a number out of range");
    let least = Expr::Literal { value: LiteralValue::Number(Number::from_micros(i64::MIN)) };
    let err = failure(vec![print(unary(TokenType::Minus, "-", least))]);
    assert!(matches!(err, RuntimeError::NumberOutOfRange { operator: TokenType::Minus }));
}

#[test]
fn text_comparison_is_lexicographic() {
    let lines = printed(vec![
        print(binary(text("abc"), TokenType::Less, "<", text("abd"))),
        print(binary(text("ab"), TokenType::Less, "<", text("abc"))),
        print(binary(text("b"), TokenType::Greater, ">", text("abc"))),
        print(binary(text("abc"), TokenType::LessEqual, "<=", text("abc"))),
        print(binary(text("abc"), TokenType::GreaterEqual, ">=", text("abd"))),
        print(binary(text("abc"), TokenType::EqualEqual, "==", text("abc"))),
        print(binary(text("abc"), TokenType::BangEqual, "!=", text("abc"))),
    ]);
    assert_eq!(lines, vec!["true", "true", "true", "true", "false", "true", "false"]);
}

#[test]
fn equality_of_any_pair_and_invalid_operands() {
    let lines = printed(vec![
        print(binary(nil(), TokenType::EqualEqual, "==", nil())),
        print(binary(nil(), TokenType::EqualEqual, "==", truth(false))),
        print(binary(truth(true), TokenType::BangEqual, "!=", num(1.0))),
    ]);
    assert_eq!(lines, vec!["true", "false", "true"]);
    let err = failure(vec![print(binary(truth(true), TokenType::Plus, "+", nil()))]);
    assert!(matches!(
        err,
        RuntimeError::InvalidOperands {
            operator: TokenType::Plus,
            left: Kind::Boolean,
            right: Kind::Nil
        }
    ));
    assert_eq!(err.message(), "Plus is not implemented for operands Boolean and nil");
    let err = failure(vec![print(binary(text("a"), TokenType::Minus, "-", text("b")))]);
    assert!(matches!(
        err,
        RuntimeError::InvalidOperands {
            operator: TokenType::Minus,
            left: Kind::String,
            right: Kind::String
        }
    ));
}

#[test]
fn calls_check_callee_and_arity() {
    let err = failure(vec![expression(call(num(1.0), vec![]))]);
    assert!(matches!(err, RuntimeError::NotCallable { kind: Kind::Number }));
    assert_eq!(err.message(), "Can only call functions, not Number");
    let err = failure(vec![
        function("f", vec!["a", "b"], vec![]),
        expression(call(var(1, "f"), vec![num(1.0)])),
    ]);
    assert!(matches!(err, RuntimeError::ArityMismatch { expected: 2, found: 1 }));
    assert_eq!(err.message(), "Expected 2 arguments but got 1");
}

#[test]
fn parameters_bind_by_position() {
    let lines = printed(vec![
        function(
            "sub",
            vec!["a", "b"],
            vec![ret(binary(var(1, "a"), TokenType::Minus, "-", var(2, "b")))],
        ),
        print(call(var(3, "sub"), vec![num(10.0), num(4.0)])),
    ]);
    assert_eq!(lines, vec!["6"]);
}

#[test]
fn unbounded_recursion_hits_the_depth_limit() {
    let stmts = vec![
        function("loop", vec![], vec![ret(call(var(1, "loop"), vec![]))]),
        expression(call(var(2, "loop"), vec![])),
    ];
    let mut interpreter = resolved(&stmts);
    interpreter.set_max_depth(10);
    let err = interpreter.interpret(&stmts).unwrap_err();
    assert!(matches!(err, RuntimeError::CallDepthExceeded));
    assert_eq!(err.message(), "Call depth limit exceeded");
    assert_eq!(interpreter.environment().current(), 0);
}

#[test]
fn depth_limit_counts_nested_calls_only() {
    let stmts = vec![
        function("id", vec!["x"], vec![ret(var(1, "x"))]),
        print(call(var(2, "id"), vec![num(1.0)])),
        print(call(var(3, "id"), vec![num(2.0)])),
        print(call(var(4, "id"), vec![num(3.0)])),
    ];
    let mut interpreter = resolved(&stmts);
    interpreter.set_max_depth(1);
    interpreter.interpret(&stmts).unwrap();
    assert_eq!(interpreter.take_output(), vec!["1", "2", "3"]);
    interpreter.set_max_depth(0);
    let err = interpreter.interpret(&vec![print(call(var(5, "id"), vec![num(1.0)]))]).unwrap_err();
    assert!(matches!(err, RuntimeError::CallDepthExceeded));
}

#[test]
fn clock_returns_the_fixed_reading() {
    let stmts = vec![print(call(var(1, "clock"), vec![])), print(call(var(2, "clock"), vec![]))];
    let mut interpreter = Interpreter::new();
    interpreter.set_clock(Some(Number::from_millis(1_500)));
    interpreter.interpret(&stmts).unwrap();
    assert_eq!(interpreter.take_output(), vec!["1.5", "1.5"]);
    let err = interpreter.interpret(&vec![print(call(var(3, "clock"), vec![num(1.0)]))]).unwrap_err();
    assert!(matches!(err, RuntimeError::ArityMismatch { expected: 0, found: 1 }));
    interpreter.set_clock(None);
    interpreter
        .interpret(&vec![print(binary(
            call(var(4, "clock"), vec![]),
            TokenType::Greater,
            ">",
            num(1_000_000_000.0),
        ))])
        .unwrap();
    assert_eq!(interpreter.take_output(), vec!["true"]);
}

#[test]
fn clock_reads_the_system_time() {
    let stmts = vec![print(binary(
        call(var(1, "clock"), vec![]),
        TokenType::Greater,
        ">",
        num(1_000_000_000.0),
    ))];
    let mut interpreter = Interpreter::new();
    interpreter.interpret(&stmts).unwrap();
    assert_eq!(interpreter.take_output(), vec!["true"]);
}

#[test]
fn class_declaration_binds_a_class_value() {
    let method = Rc::new(FunctionDecl { name: name("hello"), params: vec![], body: vec![] });
    let stmts = vec![
        Stmt::Class { name: name("Greeter"), methods: vec![method] },
        print(var(1, "Greeter")),
        block(vec![
            Stmt::Class { name: name("Inner"), methods: vec![] },
            print(var(2, "Inner")),
        ]),
    ];
    let mut interpreter = resolved(&stmts);
    interpreter.interpret(&stmts).unwrap();
    assert_eq!(interpreter.take_output(), vec!["<class Greeter>", "<class Inner>"]);
    match interpreter.environment().get("Greeter", None) {
        Some(LiteralValue::LoxClass { name, methods }) => {
            assert_eq!(name, "Greeter");
            assert_eq!(methods.len(), 1);
            assert!(matches!(&methods[0], LiteralValue::Callable { name, arity: 0, .. } if name == "hello"));
        }
        other => panic!("not a class: {:?}", other),
    }
}

#[test]
fn function_values_print_their_name() {
    let lines = printed(vec![
        function("f", vec![], vec![]),
        print(var(1, "f")),
        print(var(2, "clock")),
    ]);
    assert_eq!(lines, vec!["<fn f>", "<fn clock>"]);
}

#[test]
fn literal_holding_a_function_is_rejected() {
    let mut interpreter = Interpreter::new();
    let clock = interpreter.environment().get("clock", None).unwrap();
    let err = interpreter.interpret(&vec![print(Expr::Literal { value: clock })]).unwrap_err();
    assert!(matches!(err, RuntimeError::ForeignLiteral));
    assert_eq!(err.message(), "Literal is not a plain value");
}

#[test]
fn host_calls_a_function_value() {
    let stmts = vec![function(
        "twice",
        vec!["x"],
        vec![ret(binary(var(1, "x"), TokenType::Star, "*", num(2.0)))],
    )];
    let mut interpreter = resolved(&stmts);
    interpreter.interpret(&stmts).unwrap();
    let twice = interpreter.environment().get("twice", None).unwrap();
    let r = interpreter.call(&twice, vec![LiteralValue::Number(Number::from_micros(21_000_000))]);
    assert_eq!(r.unwrap(), LiteralValue::Number(Number::from_micros(42_000_000)));
    let r = interpreter.call(&twice, vec![]);
    assert!(matches!(r, Err(RuntimeError::ArityMismatch { expected: 1, found: 0 })));
    let r = interpreter.call(&LiteralValue::Nil, vec![]);
    assert!(matches!(r, Err(RuntimeError::NotCallable { kind: Kind::Nil })));
}

#[test]
fn functions_keep_the_distances_they_were_declared_with() {
    let first = vec![block(vec![
        declare("x", text("captured")),
        function("show", vec![], vec![print(var(1, "x"))]),
        expression(assign(2, "keep", var(3, "show"))),
    ])];
    let mut interpreter = Interpreter::new();
    interpreter.interpret(&vec![declare("keep", nil())]).unwrap();
    let mut resolver = Resolver::new();
    resolver.resolve_many(&first).unwrap();
    interpreter.resolve(resolver.into_locals());
    interpreter.interpret(&first).unwrap();
    let mut other = HashMap::new();
    other.insert(9, 0);
    interpreter.resolve(other);
    interpreter.interpret(&vec![expression(call(var(4, "keep"), vec![]))]).unwrap();
    assert_eq!(interpreter.take_output(), vec!["captured"]);
}

#[test]
fn evaluate_expression_directly() {
    let mut interpreter = Interpreter::new();
    let e = binary(num(1.0), TokenType::Plus, "+", num(2.0));
    assert_eq!(e.evaluate(&mut interpreter).unwrap(), LiteralValue::Number(Number::from_micros(3_000_000)));
    let grouped = Expr::Grouping { expression: Box::new(text("x")) };
    assert_eq!(grouped.evaluate(&mut interpreter).unwrap(), LiteralValue::StringValue("x".to_string()));
}

#[test]
fn anonymous_interpreter_runs_in_a_child_frame() {
    let mut parent = jlox::environment::Environment::new();
    parent.define("a".to_string(), LiteralValue::StringValue("outer".to_string()));
    let mut interpreter = Interpreter::for_anon(parent);
    assert_eq!(interpreter.environment().current(), 1);
    interpreter
        .interpret(&vec![print(var(1, "a")), declare("a", text("inner")), print(var(2, "a"))])
        .unwrap();
    assert_eq!(interpreter.take_output(), vec!["outer", "inner"]);
    assert_eq!(
        interpreter.environment().get("a", Some(1)),
        Some(LiteralValue::StringValue("outer".to_string()))
    );
}

#[test]
fn local_read_before_its_frame_binds_it() {
    let stmts = vec![block(vec![if_then(truth(false), declare("x", num(1.0))), print(var(1, "x"))])];
    let mut interpreter = resolved(&stmts);
    let err = interpreter.interpret(&stmts).unwrap_err();
    assert!(matches!(&err, RuntimeError::UndeclaredLocal { name } if name == "x"));
    assert_eq!(err.message(), "Local variable 'x' has not been declared");
}

#[test]
fn loop_stops_at_the_iteration_limit() {
    let stmts = vec![
        declare("i", num(0.0)),
        while_do(
            truth(true),
            expression(assign(1, "i", binary(var(2, "i"), TokenType::Plus, "+", num(1.0)))),
        ),
    ];
    let mut interpreter = resolved(&stmts);
    interpreter.set_max_iterations(5);
    let err = interpreter.interpret(&stmts).unwrap_err();
    assert!(matches!(err, RuntimeError::LoopLimitExceeded));
    assert_eq!(
        interpreter.environment().get("i", None),
        Some(LiteralValue::Number(Number::from_micros(5_000_000)))
    );
    interpreter.set_max_iterations(0);
    interpreter.interpret(&vec![while_do(truth(false), print(text("never")))]).unwrap();
    let err = interpreter.interpret(&vec![while_do(truth(true), print(text("never")))]).unwrap_err();
    assert!(matches!(err, RuntimeError::LoopLimitExceeded));
    assert!(interpreter.take_output().is_empty());
}

#[test]
fn recursion_up_to_the_default_depth() {
    let count = |from: f64| {
        vec![
            function(
                "down",
                vec!["n"],
                vec![
                    if_then(
                        binary(var(1, "n"), TokenType::LessEqual, "<=", num(0.0)),
                        ret(num(0.0)),
                    ),
                    ret(binary(
                        num(1.0),
                        TokenType::Plus,
                        "+",
                        call(var(2, "down"), vec![binary(var(3, "n"), TokenType::Minus, "-", num(1.0))]),
                    )),
                ],
            ),
            print(call(var(4, "down"), vec![num(from)])),
        ]
    };
    assert_eq!(printed(count(99.0)), vec!["99"]);
    let err = failure(count(100.0));
    assert!(matches!(err, RuntimeError::CallDepthExceeded));
}

#[test]
fn frames_of_blocks_and_calls_are_removed_again() {
    let stmts = vec![
        block(vec![print(num(1.0)), block(vec![print(num(2.0))])]),
        function("f", vec!["x"], vec![block(vec![ret(var(1, "x"))])]),
        print(call(var(2, "f"), vec![num(3.0)])),
        declare("i", num(0.0)),
        while_do(
            binary(var(3, "i"), TokenType::Less, "<", num(1000.0)),
            block(vec![expression(assign(4, "i", call(var(5, "f"), vec![binary(
                var(6, "i"),
                TokenType::Plus,
                "+",
                num(1.0),
            )])))]),
        ),
        print(var(7, "i")),
    ];
    let mut interpreter = resolved(&stmts);
    interpreter.interpret(&stmts).unwrap();
    assert_eq!(interpreter.take_output(), vec!["1", "2", "3", "1000"]);
    assert_eq!(interpreter.environment().frame_count(), 1);
    assert_eq!(interpreter.environment().current(), 0);
    assert_eq!(interpreter.environment().depth(), 0);
}

#[test]
fn frame_lasts_when_a_function_was_declared_in_it() {
    let stmts = vec![
        declare("keep", nil()),
        block(vec![
            declare("x", text("kept")),
            function("show", vec![], vec![ret(var(1, "x"))]),
            expression(assign(2, "keep", var(3, "show"))),
        ]),
        block(vec![declare("y", num(1.0))]),
        print(call(var(4, "keep"), vec![])),
    ];
    let mut interpreter = resolved(&stmts);
    interpreter.interpret(&stmts).unwrap();
    assert_eq!(interpreter.take_output(), vec!["kept"]);
    assert_eq!(interpreter.environment().frame_count(), 2);
    assert_eq!(interpreter.environment().captured(), 2);
    assert_eq!(interpreter.environment().current(), 0);
}

#[test]
fn failed_call_gives_its_frames_up() {
    let stmts = vec![
        function("f", vec![], vec![block(vec![print(var(1, "missing"))])]),
        expression(call(var(2, "f"), vec![])),
    ];
    let mut interpreter = resolved(&stmts);
    assert!(interpreter.interpret(&stmts).is_err());
    assert_eq!(interpreter.environment().frame_count(), 1);
    assert_eq!(interpreter.environment().current(), 0);
}

#[test]
fn class_keeps_one_method_for_each_name() {
    let method = |lexeme: &str, params: Vec<&str>| {
        Rc::new(FunctionDecl {
            name: name(lexeme),
            params: params.into_iter().map(name).collect(),
            body: vec![],
        })
    };
    let stmts = vec![Stmt::Class {
        name: name("C"),
        methods: vec![
            method("a", vec![]),
            method("b", vec!["x"]),
            method("a", vec!["x", "y"]),
            method("c", vec![]),
        ],
    }];
    let mut interpreter = resolved(&stmts);
    interpreter.interpret(&stmts).unwrap();
    let class = interpreter.environment().get("C", None).unwrap();
    assert_eq!(class.name(), "C");
    match &class {
        LiteralValue::LoxClass { methods, .. } => {
            let names: Vec<String> = methods.iter().map(|m| m.name()).collect();
            assert_eq!(names, vec!["a", "b", "c"]);
        }
        other => panic!("not a class: {:?}", other),
    }
    assert!(matches!(class.method("a"), Some(LiteralValue::Callable { arity: 2, .. })));
    assert!(matches!(class.method("b"), Some(LiteralValue::Callable { arity: 1, .. })));
    assert!(matches!(class.method("c"), Some(LiteralValue::Callable { arity: 0, .. })));
    assert!(class.method("d").is_none());
    assert!(LiteralValue::Nil.method("a").is_none());
    assert_eq!(LiteralValue::Nil.name(), "");
}

#[test]
fn host_makes_a_function_value() {
    let mut interpreter = Interpreter::new();
    let declaration =
        Rc::new(FunctionDecl { name: name("one"), params: vec![], body: vec![ret(num(1.0))] });
    let one = interpreter.make_function(&declaration);
    assert_eq!(one.to_type(), "Callable");
    assert_eq!(one.to_string(), "<fn one>");
    assert_eq!(interpreter.environment().captured(), 1);
    let r = interpreter.call(&one, vec![]).unwrap();
    assert_eq!(r, LiteralValue::Number(Number::from_micros(1_000_000)));
    assert_eq!(interpreter.environment().frame_count(), 1);
}
