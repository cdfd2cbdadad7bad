use trunk_parser::ast::{ArrayItem, Expression, InfixOp, Param, Statement, Type, Use};
use trunk_parser::error::ParseError;
use trunk_parser::parser::Parser;
use trunk_parser::token::{OpenTagKind, Token, TokenKind};

fn line(kinds: Vec<TokenKind>) -> Vec<Token> {
    let mut out = Vec::new();
    let mut column = 1;
    for kind in kinds {
        out.push(Token { kind, span: (1, column) });
        column += 1;
    }
    out
}

fn php(mut kinds: Vec<TokenKind>) -> Vec<Token> {
    kinds.insert(0, TokenKind::OpenTag(OpenTagKind::Full));
    line(kinds)
}

fn name(s: &str) -> TokenKind {
    TokenKind::Identifier(s.to_string())
}

fn dollar(s: &str) -> TokenKind {
    TokenKind::Variable(s.to_string())
}

fn parse(tokens: Vec<Token>) -> Result<Vec<Statement>, ParseError> {
    Parser::new(tokens).parse()
}

fn boxed_var(s: &str) -> Box<Expression> {
    Box::new(Expression::Variable(s.to_string()))
}

fn boxed_int(i: i64) -> Box<Expression> {
    Box::new(Expression::Int(i))
}

fn expected_token(e: ParseError) -> (String, (usize, usize)) {
    match e {
        ParseError::ExpectedToken(m, s) => (m, s),
        other => panic!("not an expected-token error: {:?}", other),
    }
}

#[test]
fn addition_and_subtraction_group_to_the_left() {
    // $a - $b + $c;
    let ast = parse(php(vec![dollar("a"), TokenKind::Minus, dollar("b"), TokenKind::Plus, dollar("c"), TokenKind::SemiColon])).unwrap();
    assert_eq!(ast, vec![Statement::Expression {
        expr: Expression::Infix(
            Box::new(Expression::Infix(boxed_var("a"), InfixOp::Sub, boxed_var("b"))),
            InfixOp::Add,
            boxed_var("c"),
        ),
    }]);
}

#[test]
fn addition_binds_tighter_than_less_than() {
    // $a < $b + 1;
    let ast = parse(php(vec![dollar("a"), TokenKind::LessThan, dollar("b"), TokenKind::Plus, TokenKind::Int(1), TokenKind::SemiColon])).unwrap();
    assert_eq!(ast, vec![Statement::Expression {
        expr: Expression::Infix(
            boxed_var("a"),
            InfixOp::LessThan,
            Box::new(Expression::Infix(boxed_var("b"), InfixOp::Add, boxed_int(1))),
        ),
    }]);
    // $a + 1 < $b;
    let ast = parse(php(vec![dollar("a"), TokenKind::Plus, TokenKind::Int(1), TokenKind::LessThan, dollar("b"), TokenKind::SemiColon])).unwrap();
    assert_eq!(ast, vec![Statement::Expression {
        expr: Expression::Infix(
            Box::new(Expression::Infix(boxed_var("a"), InfixOp::Add, boxed_int(1))),
            InfixOp::LessThan,
            boxed_var("b"),
        ),
    }]);
}

#[test]
fn assignment_groups_to_the_right() {
    // $a = $b = 1;
    let ast = parse(php(vec![dollar("a"), TokenKind::Equals, dollar("b"), TokenKind::Equals, TokenKind::Int(1), TokenKind::SemiColon])).unwrap();
    assert_eq!(ast, vec![Statement::Expression {
        expr: Expression::Assign(
            boxed_var("a"),
            Box::new(Expression::Assign(boxed_var("b"), boxed_int(1))),
        ),
    }]);
}

#[test]
fn call_with_several_arguments() {
    // foo(1, $x);
    let ast = parse(php(vec![
        name("foo"), TokenKind::LeftParen, TokenKind::Int(1), TokenKind::Comma, dollar("x"), TokenKind::RightParen, TokenKind::SemiColon,
    ])).unwrap();
    assert_eq!(ast, vec![Statement::Expression {
        expr: Expression::Call(
            Box::new(Expression::Identifier("foo".to_string())),
            vec![Expression::Int(1), Expression::Variable("x".to_string())],
        ),
    }]);
}

#[test]
fn array_literal_with_and_without_keys() {
    // [1, $k => 2];
    let ast = parse(php(vec![
        TokenKind::LeftBracket, TokenKind::Int(1), TokenKind::Comma, dollar("k"), TokenKind::DoubleArrow, TokenKind::Int(2),
        TokenKind::RightBracket, TokenKind::SemiColon,
    ])).unwrap();
    assert_eq!(ast, vec![Statement::Expression {
        expr: Expression::Array(vec![
            ArrayItem { key: None, value: Expression::Int(1) },
            ArrayItem { key: Some(Expression::Variable("k".to_string())), value: Expression::Int(2) },
        ]),
    }]);
}

#[test]
fn use_statement_with_alias() {
    // use Foo\Bar as B, Baz;
    let ast = parse(php(vec![
        TokenKind::Use, TokenKind::QualifiedIdentifier("Foo\\Bar".to_string()), TokenKind::As, name("B"), TokenKind::Comma, name("Baz"),
        TokenKind::SemiColon,
    ])).unwrap();
    assert_eq!(ast, vec![Statement::Use {
        uses: vec![
            Use { name: "Foo\\Bar".to_string().into(), alias: Some("B".to_string().into()) },
            Use { name: "Baz".to_string().into(), alias: None },
        ],
    }]);
}

#[test]
fn namespace_without_braces_takes_the_rest_of_the_file() {
    // namespace Foo; echo 1; echo 2;
    let ast = parse(php(vec![
        TokenKind::Namespace, name("Foo"), TokenKind::SemiColon, TokenKind::Echo, TokenKind::Int(1), TokenKind::SemiColon,
        TokenKind::Echo, TokenKind::Int(2), TokenKind::SemiColon,
    ])).unwrap();
    assert_eq!(ast, vec![Statement::Namespace {
        name: "Foo".to_string(),
        body: vec![
            Statement::Echo { values: vec![Expression::Int(1)] },
            Statement::Echo { values: vec![Expression::Int(2)] },
        ],
    }]);
}

#[test]
fn namespace_with_braces_ends_at_the_brace() {
    // namespace Foo { echo 1; } echo 2;
    let ast = parse(php(vec![
        TokenKind::Namespace, name("Foo"), TokenKind::LeftBrace, TokenKind::Echo, TokenKind::Int(1), TokenKind::SemiColon,
        TokenKind::RightBrace, TokenKind::Echo, TokenKind::Int(2), TokenKind::SemiColon,
    ])).unwrap();
    assert_eq!(ast, vec![
        Statement::Namespace { name: "Foo".to_string(), body: vec![Statement::Echo { values: vec![Expression::Int(1)] }] },
        Statement::Echo { values: vec![Expression::Int(2)] },
    ]);
}

#[test]
fn echo_with_several_values() {
    // echo 1, $x;
    let ast = parse(php(vec![TokenKind::Echo, TokenKind::Int(1), TokenKind::Comma, dollar("x"), TokenKind::SemiColon])).unwrap();
    assert_eq!(ast, vec![Statement::Echo { values: vec![Expression::Int(1), Expression::Variable("x".to_string())] }]);
}

#[test]
fn class_members_become_methods_and_properties() {
    // class Foo { var $x; // note
    //   function bar($y) {} }
    let ast = parse(php(vec![
        TokenKind::Class, name("Foo"), TokenKind::LeftBrace, TokenKind::Var, dollar("x"), TokenKind::SemiColon,
        TokenKind::Comment("// note".to_string()), TokenKind::Function, name("bar"), TokenKind::LeftParen, dollar("y"),
        TokenKind::RightParen, TokenKind::LeftBrace, TokenKind::RightBrace, TokenKind::RightBrace,
    ])).unwrap();
    assert_eq!(ast, vec![Statement::Class {
        name: "Foo".to_string().into(),
        extends: None,
        implements: vec![],
        body: vec![
            Statement::Property { var: "x".to_string() },
            Statement::Comment { comment: "// note".to_string() },
            Statement::Method { name: "bar".to_string().into(), params: vec![Param::from("y")], body: vec![], flags: vec![] },
        ],
        flag: None,
    }]);
}

#[test]
fn class_rejects_other_statements() {
    // class Foo { echo 1; }
    let err = parse(php(vec![
        TokenKind::Class, name("Foo"), TokenKind::LeftBrace, TokenKind::Echo, TokenKind::Int(1), TokenKind::SemiColon, TokenKind::RightBrace,
    ])).unwrap_err();
    match err {
        ParseError::InvalidClassStatement(message, span) => {
            assert_eq!(message, "Classes can only contain properties, constants and methods.");
            assert_eq!(span, (1, 8));
        },
        other => panic!("wrong error: {:?}", other),
    }
}

#[test]
fn missing_operand_is_unexpected_end_of_file() {
    // $a +
    let err = parse(php(vec![dollar("a"), TokenKind::Plus])).unwrap_err();
    assert!(matches!(err, ParseError::UnexpectedEndOfFile));
    assert_eq!(err.to_string(), "Parse error: unexpected end of file.");
}

#[test]
fn missing_function_name_is_reported_at_the_token_found() {
    // function () {}
    let err = parse(php(vec![TokenKind::Function, TokenKind::LeftParen, TokenKind::RightParen, TokenKind::LeftBrace, TokenKind::RightBrace]))
        .unwrap_err();
    assert_eq!(err.to_string(), "Parse error: expected identifier on line 1 column 3");
    assert_eq!(expected_token(err), ("expected identifier".to_string(), (1, 3)));
}

#[test]
fn missing_semicolon_is_reported() {
    // $a = 1 $b
    let err = parse(php(vec![dollar("a"), TokenKind::Equals, TokenKind::Int(1), dollar("b")])).unwrap_err();
    assert_eq!(expected_token(err), ("expected semi-colon".to_string(), (1, 5)));
}

#[test]
fn error_message_writes_numbers_in_decimal() {
    let e = ParseError::ExpectedToken("expected )".to_string(), (12, 305));
    assert_eq!(e.to_string(), "Parse error: expected ) on line 12 column 305");
    let e = ParseError::InvalidClassStatement("nope".to_string(), (0, 7));
    assert_eq!(e.to_string(), "Parse error: nope on line 0 column 7");
}

#[test]
fn union_of_three_types_is_rejected_at_the_second_separator() {
    // function foo(int|float|string $b) {}
    let err = parse(php(vec![
        TokenKind::Function, name("foo"), TokenKind::LeftParen, name("int"), TokenKind::Pipe, name("float"), TokenKind::Pipe,
        name("string"), dollar("b"), TokenKind::RightParen, TokenKind::LeftBrace, TokenKind::RightBrace,
    ])).unwrap_err();
    assert_eq!(expected_token(err), ("expected identifier".to_string(), (1, 8)));
}

#[test]
fn return_drops_a_value_that_does_not_parse() {
    // return (1 ;
    let ast = parse(php(vec![TokenKind::Return, TokenKind::LeftParen, TokenKind::Int(1), TokenKind::SemiColon])).unwrap();
    assert_eq!(ast, vec![Statement::Return { value: None }]);
}

#[test]
fn return_without_value() {
    let ast = parse(php(vec![TokenKind::Return, TokenKind::SemiColon])).unwrap();
    assert_eq!(ast, vec![Statement::Return { value: None }]);
}

#[test]
fn var_inline_html_and_comments_at_top_level() {
    let ast = parse(line(vec![
        TokenKind::InlineHtml("<p>".to_string()), TokenKind::OpenTag(OpenTagKind::Full), TokenKind::Var, dollar("x"),
        TokenKind::SemiColon, TokenKind::Comment("# hi".to_string()),
    ])).unwrap();
    assert_eq!(ast, vec![
        Statement::InlineHtml("<p>".to_string()),
        Statement::Var { var: "x".to_string() },
        Statement::Comment { comment: "# hi".to_string() },
    ]);
}

#[test]
fn open_tags_between_statements_are_skipped() {
    let ast = parse(line(vec![
        TokenKind::OpenTag(OpenTagKind::Full), TokenKind::Echo, TokenKind::Int(1), TokenKind::SemiColon,
        TokenKind::OpenTag(OpenTagKind::Echo), TokenKind::OpenTag(OpenTagKind::Short), TokenKind::SemiColon,
    ])).unwrap();
    assert_eq!(ast, vec![Statement::Echo { values: vec![Expression::Int(1)] }, Statement::Noop]);
}

#[test]
fn parse_stops_at_an_end_of_input_token() {
    let mut parser = Parser::new(php(vec![TokenKind::SemiColon, TokenKind::Eof, TokenKind::Echo]));
    let ast = parser.parse().unwrap();
    assert_eq!(ast, vec![Statement::Noop]);
    assert_eq!(parser.current.kind, TokenKind::Eof);
}

#[test]
fn empty_input_gives_an_empty_program() {
    let mut parser = Parser::new(Vec::new());
    assert_eq!(parser.current, Token::default());
    assert_eq!(parser.peek, Token::default());
    assert_eq!(parser.parse().unwrap(), vec![]);
}

#[test]
fn next_moves_one_token_along() {
    let mut parser = Parser::new(line(vec![name("a"), name("b"), name("c")]));
    assert_eq!(parser.current.kind, name("a"));
    assert_eq!(parser.peek.kind, name("b"));
    parser.next();
    assert_eq!(parser.current.kind, name("b"));
    assert_eq!(parser.peek.kind, name("c"));
    parser.next();
    assert_eq!(parser.current.kind, name("c"));
    assert_eq!(parser.peek, Token::default());
    parser.next();
    assert_eq!(parser.current, Token::default());
    parser.next();
    assert_eq!(parser.current, Token::default());
    assert_eq!(parser.peek, Token::default());
}

#[test]
fn if_with_a_block() {
    // if ($a) { echo $a; }
    let ast = parse(php(vec![
        TokenKind::If, TokenKind::LeftParen, dollar("a"), TokenKind::RightParen, TokenKind::LeftBrace, TokenKind::Echo, dollar("a"),
        TokenKind::SemiColon, TokenKind::RightBrace,
    ])).unwrap();
    assert_eq!(ast, vec![Statement::If {
        condition: Expression::Variable("a".to_string()),
        then: vec![Statement::Echo { values: vec![Expression::Variable("a".to_string())] }],
    }]);
}

#[test]
fn if_without_brace_is_rejected() {
    // if ($a) echo 1;
    let err = parse(php(vec![TokenKind::If, TokenKind::LeftParen, dollar("a"), TokenKind::RightParen, TokenKind::Echo])).unwrap_err();
    assert_eq!(expected_token(err), ("expected {".to_string(), (1, 6)));
}

#[test]
fn return_type_and_nullable_parameter() {
    // function f(?Foo $x, $y): Bar {}
    let ast = parse(php(vec![
        TokenKind::Function, name("f"), TokenKind::LeftParen, TokenKind::Question, name("Foo"), dollar("x"), TokenKind::Comma,
        dollar("y"), TokenKind::RightParen, TokenKind::Colon, name("Bar"), TokenKind::LeftBrace, TokenKind::RightBrace,
    ])).unwrap();
    assert_eq!(ast, vec![Statement::Function {
        name: "f".to_string().into(),
        params: vec![
            Param { name: Expression::Variable("x".to_string()), ty: Some(Type::Nullable("Foo".to_string())) },
            Param::from("y"),
        ],
        body: vec![],
        return_type: Some(Type::Plain("Bar".to_string())),
    }]);
}

#[test]
fn unsupported_expressions_are_detected_before_parsing() {
    // ];  -- no expression starts with `]`
    let parser = Parser::new(php(vec![TokenKind::RightBracket, TokenKind::SemiColon]));
    assert!(!parser.is_supported());
    // echo 1; then a call whose argument starts with `;`... is still fine
    let parser = Parser::new(php(vec![TokenKind::Echo, TokenKind::Int(1), TokenKind::SemiColon]));
    assert!(parser.is_supported());
    // an unsupported token inside a class body
    let parser = Parser::new(php(vec![
        TokenKind::Class, name("Foo"), TokenKind::LeftBrace, TokenKind::Return, TokenKind::Dot, TokenKind::SemiColon, TokenKind::RightBrace,
    ]));
    assert!(!parser.is_supported());
}

#[test]
fn checking_support_leaves_the_parser_where_it_was() {
    let mut parser = Parser::new(php(vec![TokenKind::Echo, TokenKind::Int(1), TokenKind::SemiColon]));
    assert!(parser.is_supported());
    assert_eq!(parser.current.kind, TokenKind::OpenTag(OpenTagKind::Full));
    assert_eq!(parser.peek.kind, TokenKind::Echo);
    assert_eq!(parser.parse().unwrap(), vec![Statement::Echo { values: vec![Expression::Int(1)] }]);
}

#[test]
fn errors_after_the_unsupported_point_do_not_matter() {
    // an error before any unsupported token: supported, and parse reports the error
    let mut parser = Parser::new(php(vec![TokenKind::Function, TokenKind::LeftParen, TokenKind::RightBracket]));
    assert!(parser.is_supported());
    assert!(parser.parse().is_err());
}

#[test]
fn tokens_clone_to_equal_tokens() {
    let t = Token { kind: TokenKind::Comment("x".to_string()), span: (3, 4) };
    assert_eq!(t.clone(), t);
}

fn eof() -> Token {
    Token { kind: TokenKind::Eof, span: (9, 9) }
}

#[test]
fn programs_join_statement_by_statement() {
    let t1 = php(vec![TokenKind::Echo, TokenKind::Int(1), TokenKind::SemiColon, TokenKind::Use, name("A"), TokenKind::SemiColon]);
    let t2 = line(vec![dollar("a"), TokenKind::Equals, TokenKind::Int(2), TokenKind::SemiColon]);
    let mut first = t1.clone();
    first.push(eof());
    let mut second = t2.clone();
    second.push(eof());
    let mut both = t1.clone();
    both.extend(t2.clone());
    both.push(eof());
    let mut a1 = parse(first).unwrap();
    let a2 = parse(second).unwrap();
    a1.extend(a2);
    assert_eq!(parse(both).unwrap(), a1);
}

#[test]
fn a_use_list_cut_by_the_end_of_input_takes_in_what_follows() {
    // `use` alone is an empty use list; followed by `B;` it imports B.
    let mut first = php(vec![TokenKind::Use]);
    first.push(eof());
    assert_eq!(parse(first).unwrap(), vec![Statement::Use { uses: vec![] }]);
    let mut both = php(vec![TokenKind::Use, name("B"), TokenKind::SemiColon]);
    both.push(eof());
    assert_eq!(parse(both).unwrap(), vec![Statement::Use { uses: vec![Use { name: "B".to_string().into(), alias: None }] }]);
}
