use jlox::error::{Error, RuntimeError};
use jlox::expr::{Expr, Function, Kind, LiteralValue};
use jlox::number::Number;
use jlox::operators::{apply_binary, apply_unary};
use jlox::resolver::ResolveError;
use jlox::stmt::{FunctionDecl, Stmt};
use jlox::token::{unwrap_as_number, unwrap_as_string, Token, TokenLiteral, TokenType};
use std::rc::Rc;

fn number(x: f64) -> LiteralValue {
    LiteralValue::Number(Number::from_micros((x * 1_000_000.0).round() as i64))
}

fn text(s: &str) -> LiteralValue {
    LiteralValue::StringValue(s.to_string())
}

fn token(token_type: TokenType, lexeme: &str) -> Token {
    Token { token_type, lexeme: lexeme.to_string(), literal: None, line_number: 0 }
}

#[test]
fn pretty_print_ast() {
    let minus_token =
        Token { token_type: TokenType::Minus, lexeme: "-".to_string(), literal: None, line_number: 0 };
    let onetwothree = Expr::Literal { value: number(123.0) };
    let group = Expr::Grouping { expression: Box::from(Expr::Literal { value: number(45.67) }) };
    let multi =
        Token { token_type: TokenType::Star, lexeme: "*".to_string(), literal: None, line_number: 0 };
    let ast = Expr::Binary {
        left: Box::from(Expr::Unary { operator: minus_token, right: Box::from(onetwothree) }),
        operator: multi,
        right: Box::from(group),
    };

    let result = ast.to_string();
    assert_eq!(result, "(* (- 123) (group 45.67))");
}

#[test]
fn pretty_print_other_expressions() {
    let assign = Expr::Assign {
        id: 1,
        name: token(TokenType::Identifier, "a"),
        value: Box::new(Expr::Variable { id: 2, name: token(TokenType::Identifier, "b") }),
    };
    assert_eq!(assign.to_string(), "(= a (var b))");
    let call = Expr::Call {
        callee: Box::new(Expr::Variable { id: 3, name: token(TokenType::Identifier, "f") }),
        arguments: vec![Expr::Literal { value: number(1.0) }, Expr::Literal { value: text("x") }],
    };
    assert_eq!(call.to_string(), "(call (var f) 1 x)");
    let bare = Expr::Call {
        callee: Box::new(Expr::Variable { id: 4, name: token(TokenType::Identifier, "g") }),
        arguments: vec![],
    };
    assert_eq!(bare.to_string(), "(call (var g))");
}

#[test]
fn pretty_print_statements() {
    let one = || Expr::Literal { value: number(1.0) };
    assert_eq!(Stmt::Expression { expression: one() }.tostring(), "1");
    assert_eq!(Stmt::Print { expression: one() }.tostring(), "(print 1)");
    let var = Stmt::Var { name: token(TokenType::Identifier, "a"), initializer: one() };
    assert_eq!(var.tostring(), "(var a)");
    let block = Stmt::Block {
        statements: vec![Stmt::Print { expression: one() }, Stmt::Expression { expression: one() }],
    };
    assert_eq!(block.tostring(), "(block (print 1) 1)");
    assert_eq!(Stmt::Block { statements: vec![] }.tostring(), "(block)");
    let cond = Stmt::IfStmt {
        predicate: one(),
        then: Box::new(Stmt::Print { expression: one() }),
        els: Some(Box::new(Stmt::Expression { expression: one() })),
    };
    assert_eq!(cond.tostring(), "(if 1 (print 1) 1)");
    let short = Stmt::IfStmt {
        predicate: one(),
        then: Box::new(Stmt::Print { expression: one() }),
        els: None,
    };
    assert_eq!(short.tostring(), "(if 1 (print 1))");
    let looping =
        Stmt::WhileStmt { condition: one(), body: Box::new(Stmt::Print { expression: one() }) };
    assert_eq!(looping.tostring(), "(while 1 (print 1))");
    let declaration = Rc::new(FunctionDecl {
        name: token(TokenType::Identifier, "f"),
        params: vec![],
        body: vec![],
    });
    assert_eq!(Stmt::Function { declaration: declaration.clone() }.tostring(), "(fun f)");
    let ret = Stmt::ReturnStmt { keyword: token(TokenType::Return, "return"), value: Some(one()) };
    assert_eq!(ret.tostring(), "(return 1)");
    let bare = Stmt::ReturnStmt { keyword: token(TokenType::Return, "return"), value: None };
    assert_eq!(bare.tostring(), "(return)");
    let class = Stmt::Class { name: token(TokenType::Identifier, "C"), methods: vec![declaration] };
    assert_eq!(class.tostring(), "(class C)");
}

#[test]
fn number_text() {
    assert_eq!(Number::from_micros(0).to_string(), "0");
    assert_eq!(Number::from_micros(123_000_000).to_string(), "123");
    assert_eq!(Number::from_micros(45_670_000).to_string(), "45.67");
    assert_eq!(Number::from_micros(-500_000).to_string(), "-0.5");
    assert_eq!(Number::from_micros(1).to_string(), "0.000001");
    assert_eq!(Number::from_micros(1_000_010).to_string(), "1.00001");
    assert_eq!(Number::from_micros(-1_200_000).to_string(), "-1.2");
    assert_eq!(Number::from_micros(i64::MAX).to_string(), "9223372036854.775807");
    assert_eq!(Number::from_micros(i64::MIN).to_string(), "-9223372036854.775808");
}

#[test]
fn number_arithmetic() {
    let n = Number::from_micros;
    assert_eq!(n(1_500_000).plus(n(2_250_000)), Some(n(3_750_000)));
    assert_eq!(n(i64::MAX).plus(n(1)), None);
    assert_eq!(n(1_500_000).minus(n(2_250_000)), Some(n(-750_000)));
    assert_eq!(n(i64::MIN).minus(n(1)), None);
    assert_eq!(n(1_500_000).times(n(-2_000_000)), Some(n(-3_000_000)));
    assert_eq!(n(1).times(n(1)), Some(n(0)));
    assert_eq!(n(-1).times(n(999_999)), Some(n(0)));
    assert_eq!(n(3_000_000_000_000_000).times(n(3_000_000_000_000_000)), None);
    assert_eq!(n(i64::MIN).times(n(1_000_000)), Some(n(i64::MIN)));
    assert_eq!(n(i64::MIN).times(n(-1_000_000)), None);
    assert_eq!(n(1_000_000).over(n(3_000_000)), Some(n(333_333)));
    assert_eq!(n(-1_000_000).over(n(3_000_000)), Some(n(-333_333)));
    assert_eq!(n(7_000_000).over(n(-2_000_000)), Some(n(-3_500_000)));
    assert_eq!(n(1_000_000).over(n(0)), None);
    assert_eq!(n(i64::MAX).over(n(1)), None);
    assert_eq!(n(i64::MIN).over(n(-1_000_000)), None);
    assert_eq!(n(i64::MIN).over(n(1_000_000)), Some(n(i64::MIN)));
    assert_eq!(n(5).negated(), Some(n(-5)));
    assert_eq!(n(i64::MIN).negated(), None);
    assert!(n(1).less_than(n(2)));
    assert!(!n(2).less_than(n(2)));
    assert_eq!(Number::from_integer(120), Some(n(120_000_000)));
    assert_eq!(Number::from_integer(-3), Some(n(-3_000_000)));
    assert_eq!(Number::from_integer(i64::MAX), None);
    assert_eq!(Number::zero().micros(), 0);
    assert_eq!(Number::from_millis(1_500), n(1_500_000));
    assert_eq!(Number::from_millis(u64::MAX), n(i64::MAX));
    assert_eq!(Number::from_millis(9_223_372_036_854_775), n(9_223_372_036_854_775_000));
    assert_eq!(Number::from_millis(9_223_372_036_854_776), n(i64::MAX));
}

#[test]
fn value_text_and_type() {
    assert_eq!(number(1.5).to_string(), "1.5");
    assert_eq!(text("hi").to_string(), "hi");
    assert_eq!(LiteralValue::True.to_string(), "true");
    assert_eq!(LiteralValue::False.to_string(), "false");
    assert_eq!(LiteralValue::Nil.to_string(), "nil");
    let clock = LiteralValue::Callable { name: "clock".to_string(), arity: 0, fun: Function::Clock };
    assert_eq!(clock.to_string(), "<fn clock>");
    let class = LiteralValue::LoxClass { name: "C".to_string(), methods: vec![] };
    assert_eq!(class.to_string(), "<class C>");
    assert_eq!(number(1.5).to_type(), "Number");
    assert_eq!(text("hi").to_type(), "String");
    assert_eq!(LiteralValue::True.to_type(), "Boolean");
    assert_eq!(LiteralValue::False.to_type(), "Boolean");
    assert_eq!(LiteralValue::Nil.to_type(), "nil");
    assert_eq!(clock.to_type(), "Callable");
    assert_eq!(class.to_type(), "Class");
    assert_eq!(clock.kind(), Kind::Callable);
    assert!(!clock.is_plain());
    assert!(!class.is_plain());
    assert!(text("x").is_plain());
}

#[test]
fn only_nil_and_false_are_falsy() {
    assert_eq!(LiteralValue::Nil.is_falsy(), LiteralValue::True);
    assert_eq!(LiteralValue::False.is_falsy(), LiteralValue::True);
    assert_eq!(LiteralValue::True.is_falsy(), LiteralValue::False);
    assert_eq!(number(0.0).is_falsy(), LiteralValue::False);
    assert_eq!(number(2.0).is_falsy(), LiteralValue::False);
    assert_eq!(text("").is_falsy(), LiteralValue::False);
    assert_eq!(text("a").is_falsy(), LiteralValue::False);
    assert_eq!(LiteralValue::Nil.is_truthy(), LiteralValue::False);
    assert_eq!(number(0.0).is_truthy(), LiteralValue::True);
    assert!(!LiteralValue::False.truthy());
    assert!(text("").truthy());
    assert_eq!(LiteralValue::from_bool(true), LiteralValue::True);
    assert_eq!(LiteralValue::from_bool(false), LiteralValue::False);
}

#[test]
fn equality_is_by_variant_and_value() {
    assert_eq!(number(1.0), number(1.0));
    assert_ne!(number(1.0), number(2.0));
    assert_eq!(text("a"), text("a"));
    assert_ne!(text("a"), text("b"));
    assert_ne!(text("1"), number(1.0));
    assert_ne!(LiteralValue::Nil, LiteralValue::False);
    assert_eq!(LiteralValue::Nil, LiteralValue::Nil);
    let clock = || LiteralValue::Callable { name: "clock".to_string(), arity: 0, fun: Function::Clock };
    assert_eq!(clock(), clock());
    let other = LiteralValue::Callable { name: "tick".to_string(), arity: 0, fun: Function::Clock };
    assert_ne!(clock(), other);
    let class = |name: &str| LiteralValue::LoxClass { name: name.to_string(), methods: vec![] };
    assert_eq!(class("A"), class("A"));
    assert_ne!(class("A"), class("B"));
    assert!(number(1.0).equals(&number(1.0)));
    assert!(!number(1.0).equals(&LiteralValue::Nil));
}

#[test]
fn cloned_value_equals_its_source() {
    let class = LiteralValue::LoxClass {
        name: "C".to_string(),
        methods: vec![LiteralValue::Callable {
            name: "m".to_string(),
            arity: 2,
            fun: Function::Clock,
        }],
    };
    match class.clone() {
        LiteralValue::LoxClass { name, methods } => {
            assert_eq!(name, "C");
            assert_eq!(methods.len(), 1);
            assert!(matches!(&methods[0], LiteralValue::Callable { name, arity: 2, .. } if name == "m"));
        }
        other => panic!("not a class: {:?}", other),
    }
    assert_eq!(text("abc").clone(), text("abc"));
}

#[test]
fn values_from_tokens() {
    let literal = |token_type, literal| Token {
        token_type,
        lexeme: String::new(),
        literal,
        line_number: 3,
    };
    assert_eq!(
        LiteralValue::from_token(literal(TokenType::Number, Some(TokenLiteral::IntValue(12)))),
        number(12.0)
    );
    assert_eq!(
        LiteralValue::from_token(literal(
            TokenType::Number,
            Some(TokenLiteral::FValue(Number::from_micros(2_500_000)))
        )),
        number(2.5)
    );
    assert_eq!(
        LiteralValue::from_token(literal(
            TokenType::StringLit,
            Some(TokenLiteral::StringValue("hi".to_string()))
        )),
        text("hi")
    );
    assert_eq!(LiteralValue::from_token(literal(TokenType::True, None)), LiteralValue::True);
    assert_eq!(LiteralValue::from_token(literal(TokenType::False, None)), LiteralValue::False);
    assert_eq!(LiteralValue::from_token(literal(TokenType::Nil, None)), LiteralValue::Nil);
}

#[test]
fn token_literals_unwrap() {
    assert_eq!(unwrap_as_string(Some(TokenLiteral::StringValue("s".to_string()))), "s");
    assert_eq!(unwrap_as_string(Some(TokenLiteral::IdentifierVal("id".to_string()))), "id");
    assert_eq!(unwrap_as_number(Some(TokenLiteral::IntValue(-2))), Number::from_micros(-2_000_000));
    assert_eq!(
        unwrap_as_number(Some(TokenLiteral::FValue(Number::from_micros(7)))),
        Number::from_micros(7)
    );
    let t = Token::new(TokenType::Plus, "+".to_string(), 9);
    assert_eq!(t.token_type, TokenType::Plus);
    assert_eq!(t.lexeme, "+");
    assert!(t.literal.is_none());
    assert_eq!(t.line_number, 9);
    assert_eq!(TokenType::BangEqual.name(), "BangEqual");
    assert_eq!(TokenType::Eof.name(), "Eof");
    assert_eq!(Kind::Nil.name(), "nil");
}

#[test]
fn operators_on_values() {
    let r = apply_binary(&text("foo"), TokenType::Plus, &text("bar")).unwrap();
    assert_eq!(r, text("foobar"));
    let r = apply_binary(&number(1.0), TokenType::Plus, &text("x"));
    assert!(matches!(r, Err(RuntimeError::StringAndNumber { operator: TokenType::Plus })));
    let r = apply_binary(&number(6.0), TokenType::Slash, &number(4.0)).unwrap();
    assert_eq!(r, number(1.5));
    let r = apply_binary(&text("a"), TokenType::Less, &text("b")).unwrap();
    assert_eq!(r, LiteralValue::True);
    let r = apply_binary(&text("é"), TokenType::Greater, &text("z")).unwrap();
    assert_eq!(r, LiteralValue::True);
    let r = apply_binary(&text(""), TokenType::Less, &text("")).unwrap();
    assert_eq!(r, LiteralValue::False);
    let r = apply_binary(&LiteralValue::Nil, TokenType::Less, &LiteralValue::Nil);
    assert!(matches!(
        r,
        Err(RuntimeError::InvalidOperands {
            operator: TokenType::Less,
            left: Kind::Nil,
            right: Kind::Nil
        })
    ));
    let r = apply_binary(&number(1.0), TokenType::And, &number(1.0));
    assert!(matches!(
        r,
        Err(RuntimeError::InvalidOperands {
            operator: TokenType::And,
            left: Kind::Number,
            right: Kind::Number
        })
    ));
    assert_eq!(apply_unary(TokenType::Minus, &number(3.0)).unwrap(), number(-3.0));
    assert_eq!(apply_unary(TokenType::Bang, &text("")).unwrap(), LiteralValue::False);
}

#[test]
fn error_messages() {
    let err = RuntimeError::ClassDefinition { name: "C".to_string() };
    assert_eq!(err.message(), "Class definition failed for C");
    assert_eq!(RuntimeError::LoopLimitExceeded.message(), "Loop iteration limit exceeded");
    let err = RuntimeError::ArityMismatch { expected: 10, found: 0 };
    assert_eq!(err.message(), "Expected 10 arguments but got 0");
    let err = Error::Resolve(ResolveError::OwnInitializer { name: "a".to_string() });
    assert_eq!(err.message(), "Can't read local variable in its own initializer");
    let err = Error::Resolve(ResolveError::DuplicateNode { id: 4 });
    assert_eq!(err.message(), "Two expressions share one identity");
    let err = Error::Runtime(RuntimeError::DivisionByZero);
    assert_eq!(err.message(), "Division by zero");
}
