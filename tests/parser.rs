use yafika::ast::{BlockStatment, Expression, Op, Precedence, Program, Statement};
use yafika::lexer::{LexError, Lexer};
use yafika::parser::{parse_number, ParseError, Parser};
use yafika::token::TokenType;

fn parse(source: &str) -> Result<Program, ParseError> {
    let parser = Parser::new(Lexer::new(source.to_string()));
    parser.parse()
}

fn num(n: i64) -> Box<Expression> {
    Box::new(Expression::Number(n))
}

fn ident(s: &str) -> Expression {
    Expression::Identifier(s.to_string())
}

#[test]
fn parse_call_expressionss() {
    let program = parse("add(1, 2 * 3, 4 + 5)").unwrap();
    let expected_program: Program = vec![Statement::StatmentExpression {
        value: Expression::CallExpression {
            function: Box::new(ident("add")),
            arguments: vec![
                Expression::Number(1),
                Expression::InfixExpression { left: num(2), op: Op::Multiply, right: num(3) },
                Expression::InfixExpression { left: num(4), op: Op::Add, right: num(5) },
            ],
        },
    }];
    assert_eq!(program, expected_program);
}

#[test]
fn parse_call_no_args_expressionss() {
    let program = parse("add() ").unwrap();
    let expected_program: Program = vec![Statement::StatmentExpression {
        value: Expression::CallExpression { function: Box::new(ident("add")), arguments: vec![] },
    }];
    assert_eq!(program, expected_program);
}

fn x_is_a_plus_b() -> Vec<Statement> {
    vec![
        Statement::Let {
            name: "x".to_string(),
            value: Expression::InfixExpression {
                left: Box::new(ident("a")),
                op: Op::Add,
                right: Box::new(ident("b")),
            },
        },
        Statement::Return { value: ident("x") },
    ]
}

#[test]
fn parse_fn_literals_no_args() {
    let program = parse("fn(){let x = a + b; return x}").unwrap();
    let expected_program: Program = vec![Statement::StatmentExpression {
        value: Expression::FunctionLiteral {
            parameters: vec![],
            body: BlockStatment { statements: x_is_a_plus_b() },
        },
    }];
    assert_eq!(program, expected_program);
}

#[test]
fn parse_fn_literals_with_args() {
    let program = parse("fn(a,b){let x = a + b; return x}").unwrap();
    let expected_program: Program = vec![Statement::StatmentExpression {
        value: Expression::FunctionLiteral {
            parameters: vec!["a".to_string(), "b".to_string()],
            body: BlockStatment { statements: x_is_a_plus_b() },
        },
    }];
    assert_eq!(program, expected_program);
}

#[test]
fn parse_if_and_ifelse_expression() {
    let program = parse("if(2 > 5) { let x = 2} else {let x = 4}").unwrap();
    let expected_program: Program = vec![Statement::StatmentExpression {
        value: Expression::IfExpression {
            condition: Box::new(Expression::InfixExpression {
                left: num(2),
                op: Op::GreaterThan,
                right: num(5),
            }),
            consequence: BlockStatment {
                statements: vec![Statement::Let { name: "x".to_string(), value: Expression::Number(2) }],
            },
            alternative: Some(BlockStatment {
                statements: vec![Statement::Let { name: "x".to_string(), value: Expression::Number(4) }],
            }),
        },
    }];
    assert_eq!(program, expected_program);
}

#[test]
fn parse_infix_expression() {
    let program = parse(
        "5 + 5
             a + b * 6",
    )
    .unwrap();
    let expected_program: Program = vec![
        Statement::StatmentExpression {
            value: Expression::InfixExpression { left: num(5), op: Op::Add, right: num(5) },
        },
        Statement::StatmentExpression {
            value: Expression::InfixExpression {
                left: Box::new(ident("a")),
                op: Op::Add,
                right: Box::new(Expression::InfixExpression {
                    left: Box::new(ident("b")),
                    op: Op::Multiply,
                    right: num(6),
                }),
            },
        },
    ];
    assert_eq!(program, expected_program);
}

#[test]
fn parse_prefix_expression() {
    let program = parse("-123 !124").unwrap();
    let expected_program: Program = vec![
        Statement::StatmentExpression {
            value: Expression::PrefixExpression { op: Op::Subtract, right: num(123) },
        },
        Statement::StatmentExpression {
            value: Expression::PrefixExpression { op: Op::Bang, right: num(124) },
        },
    ];
    assert_eq!(program, expected_program);
}

#[test]
fn parse_let() {
    let program = parse("let hello = 123").unwrap();
    let expected_program: Program =
        vec![Statement::Let { name: "hello".to_string(), value: Expression::Number(123) }];
    assert_eq!(program, expected_program);
}

#[test]
fn parse_return() {
    let program = parse(
        "
                return 123
                return 10
                return 92031203",
    )
    .unwrap();
    let expected_program: Program = vec![
        Statement::Return { value: Expression::Number(123) },
        Statement::Return { value: Expression::Number(10) },
        Statement::Return { value: Expression::Number(92031203) },
    ];
    assert_eq!(program, expected_program);
}

#[test]
fn equal_precedence_is_left_associative() {
    let program = parse("1 - 2 - 3").unwrap();
    let expected_program: Program = vec![Statement::StatmentExpression {
        value: Expression::InfixExpression {
            left: Box::new(Expression::InfixExpression { left: num(1), op: Op::Subtract, right: num(2) }),
            op: Op::Subtract,
            right: num(3),
        },
    }];
    assert_eq!(program, expected_program);
}

#[test]
fn prefix_binds_tighter_than_sum() {
    let program = parse("-50 + 100").unwrap();
    let expected_program: Program = vec![Statement::StatmentExpression {
        value: Expression::InfixExpression {
            left: Box::new(Expression::PrefixExpression { op: Op::Subtract, right: num(50) }),
            op: Op::Add,
            right: num(100),
        },
    }];
    assert_eq!(program, expected_program);
}

#[test]
fn missing_assign_is_an_error() {
    assert_eq!(
        parse("let x 5"),
        Err(ParseError::Expected { expected: TokenType::Assign, found: TokenType::Number })
    );
}

#[test]
fn missing_closing_paren_is_an_error() {
    assert_eq!(
        parse("(1 + 2"),
        Err(ParseError::Expected { expected: TokenType::RightParen, found: TokenType::EOF })
    );
    assert_eq!(
        parse("add(1, 2"),
        Err(ParseError::Expected { expected: TokenType::RightParen, found: TokenType::EOF })
    );
}

#[test]
fn missing_brace_is_an_error() {
    assert_eq!(
        parse("if (1) 2"),
        Err(ParseError::Expected { expected: TokenType::LeftBrace, found: TokenType::Number })
    );
    assert_eq!(
        parse("fn(x) { x"),
        Err(ParseError::Expected { expected: TokenType::RightBrace, found: TokenType::EOF })
    );
}

#[test]
fn non_identifier_parameter_is_an_error() {
    assert_eq!(
        parse("fn(1) { 1 }"),
        Err(ParseError::Expected { expected: TokenType::Identifier, found: TokenType::Number })
    );
}

#[test]
fn token_without_prefix_is_an_error() {
    assert_eq!(parse("* 2"), Err(ParseError::NoPrefix(TokenType::Star)));
}

#[test]
fn lex_error_aborts_parse() {
    assert_eq!(parse("1 + \"x"), Err(ParseError::Lex(LexError::UnterminatedString)));
}

#[test]
fn number_literals() {
    assert_eq!(parse_number(&"231.00".chars().collect()), Some(231));
    assert_eq!(parse_number(&"9223372036854775807".chars().collect()), Some(i64::MAX));
    assert_eq!(parse_number(&"9223372036854775808".chars().collect()), None);
    assert_eq!(parse_number(&"1.5".chars().collect()), None);
    assert_eq!(parse_number(&"1.2.0".chars().collect()), None);
    assert_eq!(parse("1.5"), Err(ParseError::InvalidNumber("1.5".to_string())));
}

#[test]
fn precedence_of_tokens() {
    assert_eq!(Precedence::get_precedence(&TokenType::Star), Precedence::Product);
    assert_eq!(Precedence::get_precedence(&TokenType::LeftParen), Precedence::Call);
    assert_eq!(Precedence::get_precedence(&TokenType::Greater), Precedence::LessGreater);
    assert_eq!(Precedence::get_precedence(&TokenType::LessEqual), Precedence::Lowest);
    assert!(Precedence::Sum.is_below(&Precedence::Product));
    assert!(!Precedence::Product.is_below(&Precedence::Sum));
}

#[test]
fn operators_of_tokens() {
    assert_eq!(Op::token(&TokenType::Greater), Op::LessThan);
    assert_eq!(Op::token(&TokenType::Less), Op::GreaterThan);
    assert_eq!(Op::token(&TokenType::BangEqual), Op::NotEquals);
    assert_eq!(Op::token(&TokenType::LeftParen), Op::Call);
}

#[test]
fn read_skips_a_token() {
    let mut parser = Parser::new(Lexer::new("1 2".to_string()));
    parser.read();
    assert_eq!(
        parser.parse().unwrap(),
        vec![Statement::StatmentExpression { value: Expression::Number(2) }]
    );
}

#[test]
fn semicolons_end_statements() {
    assert_eq!(
        parse("5; 6;").unwrap(),
        vec![
            Statement::StatmentExpression { value: Expression::Number(5) },
            Statement::StatmentExpression { value: Expression::Number(6) },
        ]
    );
}

#[test]
fn expression_text_round_trip() {
    let program = parse("fn(x, y) { let z = x * (y + 1); return z }").unwrap();
    match &program[0] {
        Statement::StatmentExpression { value } => {
            assert_eq!(value.to_text(), "fn(x, y) { let z = x*y+1\nreturn z }")
        }
        _ => panic!("not an expression statement"),
    }
}
