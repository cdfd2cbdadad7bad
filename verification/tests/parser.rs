use trunk_parser::ast::{Expression, Identifier, InfixOp, Param, Statement, Type};
use trunk_parser::parser::Parser;
use trunk_parser::token::{OpenTagKind, Token, TokenKind};

/// Tokens for the given kinds, on one line, one column apart.
fn tokens(kinds: Vec<TokenKind>) -> Vec<Token> {
    let mut out = Vec::new();
    let mut column = 1;
    for kind in kinds {
        out.push(Token { kind, span: (1, column) });
        column += 1;
    }
    out
}

fn open_tag() -> TokenKind {
    TokenKind::OpenTag(OpenTagKind::Full)
}

fn ident(s: &str) -> TokenKind {
    TokenKind::Identifier(s.to_string())
}

fn var(s: &str) -> TokenKind {
    TokenKind::Variable(s.to_string())
}

fn function(name: &str, params: &[&str], body: Vec<Statement>) -> Statement {
    Statement::Function {
        name: name.to_string().into(),
        params: params.iter().map(|p: &&str| Param::from(p)).collect::<Vec<Param>>(),
        body,
        return_type: None,
    }
}

fn class(name: &str, extends: Option<Identifier>, implements: Vec<Identifier>, body: Vec<Statement>) -> Statement {
    Statement::Class { name: name.to_string().into(), body, extends, implements, flag: None }
}

fn method(name: &str, params: &[&str], body: Vec<Statement>) -> Statement {
    Statement::Method {
        name: name.to_string().into(),
        params: params.iter().map(|p: &&str| Param::from(p)).collect::<Vec<Param>>(),
        flags: vec![],
        body,
    }
}

fn assert_ast(kinds: Vec<TokenKind>, expected: &[Statement]) {
    let mut parser = Parser::new(tokens(kinds));
    let ast = parser.parse();
    match ast {
        Err(e) => panic!("{}", e.to_string()),
        Ok(ast) => assert_eq!(ast, expected),
    }
}

fn int_expr(i: i64) -> Box<Expression> {
    Box::new(Expression::Int(i))
}

fn variable(s: &str) -> Box<Expression> {
    Box::new(Expression::Variable(s.into()))
}

// <?php (1 + 2);
#[test]
fn paren_expression() {
    assert_ast(
        vec![open_tag(), TokenKind::LeftParen, TokenKind::Int(1), TokenKind::Plus, TokenKind::Int(2), TokenKind::RightParen, TokenKind::SemiColon],
        &[Statement::Expression { expr: Expression::Infix(int_expr(1), InfixOp::Add, int_expr(2)) }],
    );
}

// <?php function foo() {}
#[test]
fn empty_fn() {
    assert_ast(
        vec![open_tag(), TokenKind::Function, ident("foo"), TokenKind::LeftParen, TokenKind::RightParen, TokenKind::LeftBrace, TokenKind::RightBrace],
        &[function("foo", &[], vec![])],
    );
}

// <?php function foo($n) {}
// <?php function foo($n, $m) {}
#[test]
fn empty_fn_with_params() {
    assert_ast(
        vec![open_tag(), TokenKind::Function, ident("foo"), TokenKind::LeftParen, var("n"), TokenKind::RightParen, TokenKind::LeftBrace, TokenKind::RightBrace],
        &[function("foo", &["n"], vec![])],
    );

    assert_ast(
        vec![
            open_tag(), TokenKind::Function, ident("foo"), TokenKind::LeftParen, var("n"), TokenKind::Comma, var("m"),
            TokenKind::RightParen, TokenKind::LeftBrace, TokenKind::RightBrace,
        ],
        &[function("foo", &["n", "m"], vec![])],
    );
}

// <?php
//
// function fib($n) {
//     if ($n < 2) {
//         return $n;
//     }
//
//     return fib($n - 1) + fib($n - 2);
// }
#[test]
fn fib() {
    assert_ast(
        vec![
            open_tag(), TokenKind::Function, ident("fib"), TokenKind::LeftParen, var("n"), TokenKind::RightParen, TokenKind::LeftBrace,
            TokenKind::If, TokenKind::LeftParen, var("n"), TokenKind::LessThan, TokenKind::Int(2), TokenKind::RightParen, TokenKind::LeftBrace,
            TokenKind::Return, var("n"), TokenKind::SemiColon,
            TokenKind::RightBrace,
            TokenKind::Return, ident("fib"), TokenKind::LeftParen, var("n"), TokenKind::Minus, TokenKind::Int(1), TokenKind::RightParen,
            TokenKind::Plus, ident("fib"), TokenKind::LeftParen, var("n"), TokenKind::Minus, TokenKind::Int(2), TokenKind::RightParen,
            TokenKind::SemiColon,
            TokenKind::RightBrace,
        ],
        &[function("fib", &["n"], vec![
            Statement::If {
                condition: Expression::Infix(variable("n"), InfixOp::LessThan, int_expr(2)),
                then: vec![Statement::Return { value: Some(Expression::Variable("n".into())) }],
            },
            Statement::Return {
                value: Some(Expression::Infix(
                    Box::new(Expression::Call(
                        Box::new(Expression::Identifier("fib".into())),
                        vec![Expression::Infix(variable("n"), InfixOp::Sub, int_expr(1))],
                    )),
                    InfixOp::Add,
                    Box::new(Expression::Call(
                        Box::new(Expression::Identifier("fib".into())),
                        vec![Expression::Infix(variable("n"), InfixOp::Sub, int_expr(2))],
                    )),
                )),
            },
        ])],
    );
}

// <?php echo 1;
#[test]
fn echo() {
    assert_ast(
        vec![open_tag(), TokenKind::Echo, TokenKind::Int(1), TokenKind::SemiColon],
        &[Statement::Echo { values: vec![Expression::Int(1)] }],
    );
}

// <?php class Foo {}
#[test]
fn empty_class() {
    assert_ast(
        vec![open_tag(), TokenKind::Class, ident("Foo"), TokenKind::LeftBrace, TokenKind::RightBrace],
        &[class("Foo", None, vec![], vec![])],
    );
}

// <?php
//
// class Foo {
//     function bar() {
//         echo 1;
//     }
// }
#[test]
fn class_with_basic_method() {
    assert_ast(
        vec![
            open_tag(), TokenKind::Class, ident("Foo"), TokenKind::LeftBrace,
            TokenKind::Function, ident("bar"), TokenKind::LeftParen, TokenKind::RightParen, TokenKind::LeftBrace,
            TokenKind::Echo, TokenKind::Int(1), TokenKind::SemiColon,
            TokenKind::RightBrace,
            TokenKind::RightBrace,
        ],
        &[class("Foo", None, vec![], vec![method("bar", &[], vec![Statement::Echo { values: vec![Expression::Int(1)] }])])],
    );
}

// <?php
//
// class Foo extends Bar {}
#[test]
fn class_with_extends() {
    assert_ast(
        vec![open_tag(), TokenKind::Class, ident("Foo"), TokenKind::Extends, ident("Bar"), TokenKind::LeftBrace, TokenKind::RightBrace],
        &[class("Foo", Some("Bar".to_string().into()), vec![], vec![])],
    );
}

// <?php
//
// class Foo implements Bar, Baz {}
#[test]
fn class_with_implements() {
    assert_ast(
        vec![
            open_tag(), TokenKind::Class, ident("Foo"), TokenKind::Implements, ident("Bar"), TokenKind::Comma, ident("Baz"),
            TokenKind::LeftBrace, TokenKind::RightBrace,
        ],
        &[class("Foo", None, vec!["Bar".to_string().into(), "Baz".to_string().into()], vec![])],
    );
}

// <?php function foo(string $b) {}
#[test]
fn plain_typestrings_test() {
    assert_ast(
        vec![
            open_tag(), TokenKind::Function, ident("foo"), TokenKind::LeftParen, ident("string"), var("b"), TokenKind::RightParen,
            TokenKind::LeftBrace, TokenKind::RightBrace,
        ],
        &[Statement::Function {
            name: "foo".to_string().into(),
            params: vec![Param { name: Expression::Variable("b".into()), ty: Some(Type::Plain("string".into())) }],
            body: vec![],
            return_type: None,
        }],
    );
}

// <?php function foo(?string $b) {}
#[test]
fn nullable_typestrings_test() {
    assert_ast(
        vec![
            open_tag(), TokenKind::Function, ident("foo"), TokenKind::LeftParen, TokenKind::Question, ident("string"), var("b"),
            TokenKind::RightParen, TokenKind::LeftBrace, TokenKind::RightBrace,
        ],
        &[Statement::Function {
            name: "foo".to_string().into(),
            params: vec![Param { name: Expression::Variable("b".into()), ty: Some(Type::Nullable("string".into())) }],
            body: vec![],
            return_type: None,
        }],
    );
}

// <?php function foo(int|float $b) {}
#[test]
fn union_typestrings_test() {
    assert_ast(
        vec![
            open_tag(), TokenKind::Function, ident("foo"), TokenKind::LeftParen, ident("int"), TokenKind::Pipe, ident("float"), var("b"),
            TokenKind::RightParen, TokenKind::LeftBrace, TokenKind::RightBrace,
        ],
        &[Statement::Function {
            name: "foo".to_string().into(),
            params: vec![Param {
                name: Expression::Variable("b".into()),
                ty: Some(Type::Union(vec!["int".into(), "float".into()])),
            }],
            body: vec![],
            return_type: None,
        }],
    );
}

// <?php function foo(Foo&Bar $b) {}
#[test]
fn intersection_typestrings_test() {
    assert_ast(
        vec![
            open_tag(), TokenKind::Function, ident("foo"), TokenKind::LeftParen, ident("Foo"), TokenKind::Ampersand, ident("Bar"), var("b"),
            TokenKind::RightParen, TokenKind::LeftBrace, TokenKind::RightBrace,
        ],
        &[Statement::Function {
            name: "foo".to_string().into(),
            params: vec![Param {
                name: Expression::Variable("b".into()),
                ty: Some(Type::Intersection(vec!["Foo".into(), "Bar".into()])),
            }],
            body: vec![],
            return_type: None,
        }],
    );
}

// <?php function foo(): string {}
#[test]
fn function_return_types() {
    assert_ast(
        vec![
            open_tag(), TokenKind::Function, ident("foo"), TokenKind::LeftParen, TokenKind::RightParen, TokenKind::Colon, ident("string"),
            TokenKind::LeftBrace, TokenKind::RightBrace,
        ],
        &[Statement::Function {
            name: "foo".to_string().into(),
            params: vec![],
            body: vec![],
            return_type: Some(Type::Plain("string".into())),
        }],
    );
}

// <?php ;
#[test]
fn noop() {
    assert_ast(vec![open_tag(), TokenKind::SemiColon], &[Statement::Noop]);
}
