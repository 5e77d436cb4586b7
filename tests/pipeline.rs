use rlox::environment::Environment;
use rlox::interpreter::ArithOp;
use rlox::parser::{ParseError, Parser};
use rlox::scanner::{Literal, Scanner, Token, TokenType};

fn number(x: f64) -> Literal {
    Literal::Number(x.to_bits())
}

fn parse_number(s: String) -> u64 {
    s.parse::<f64>().unwrap().to_bits()
}

fn arith(op: ArithOp, a: u64, b: u64) -> u64 {
    let (x, y) = (f64::from_bits(a), f64::from_bits(b));
    let r = match op {
        ArithOp::Add => x + y,
        ArithOp::Subtract => x - y,
        ArithOp::Multiply => x * y,
        ArithOp::Divide => x / y,
    };
    r.to_bits()
}

fn show(n: u64) -> String {
    f64::from_bits(n).to_string()
}

#[test]
fn it_parses_add() {
    let tokens = vec![
        Token::new(TokenType::Number, "2".to_string(), number(2.0), 1),
        Token::new(TokenType::Plus, "+".to_string(), Literal::Nil, 1),
        Token::new(TokenType::Number, "2".to_string(), number(2.0), 1),
        Token::new(TokenType::Eof, "".to_string(), Literal::Nil, 1),
    ];

    let mut parser = Parser::new(tokens);
    let expression = parser.parse_expression().unwrap();

    assert_eq!(expression.to_custom_string(&show), "(+ 2 2)");
}

#[test]
fn it_parses_with_precedence() {
    let tokens = vec![
        Token::new(TokenType::Number, "1".to_string(), number(1.0), 1),
        Token::new(TokenType::Plus, "+".to_string(), Literal::Nil, 1),
        Token::new(TokenType::Number, "2".to_string(), number(2.0), 1),
        Token::new(TokenType::Star, "*".to_string(), Literal::Nil, 1),
        Token::new(TokenType::Number, "3".to_string(), number(3.0), 1),
        Token::new(TokenType::Eof, "".to_string(), Literal::Nil, 1),
    ];

    let mut parser = Parser::new(tokens);
    let expression = parser.parse_expression().unwrap();

    assert_eq!(expression.to_custom_string(&show), "(+ 1 (* 2 3))");
}

#[test]
fn it_parses_with_grouping() {
    let tokens = vec![
        Token::new(TokenType::LeftParen, "(".to_string(), Literal::Nil, 1),
        Token::new(TokenType::Number, "1".to_string(), number(1.0), 1),
        Token::new(TokenType::Plus, "+".to_string(), Literal::Nil, 1),
        Token::new(TokenType::Number, "2".to_string(), number(2.0), 1),
        Token::new(TokenType::RightParen, ")".to_string(), Literal::Nil, 1),
        Token::new(TokenType::Star, "*".to_string(), Literal::Nil, 1),
        Token::new(TokenType::Number, "3".to_string(), number(3.0), 1),
        Token::new(TokenType::Eof, "".to_string(), Literal::Nil, 1),
    ];

    let mut parser = Parser::new(tokens);
    let expression = parser.parse_expression().unwrap();

    assert_eq!(expression.to_custom_string(&show), "(* (group (+ 1 2)) 3)");
}

#[test]
fn it_should_panic_missing_paren() {
    let tokens = vec![
        Token::new(TokenType::LeftParen, "(".to_string(), Literal::Nil, 1),
        Token::new(TokenType::Number, "1".to_string(), number(1.0), 1),
        Token::new(TokenType::Plus, "+".to_string(), Literal::Nil, 1),
        Token::new(TokenType::Number, "2".to_string(), number(2.0), 1),
        Token::new(TokenType::Star, "*".to_string(), Literal::Nil, 1),
        Token::new(TokenType::Number, "3".to_string(), number(3.0), 1),
        Token::new(TokenType::Eof, "".to_string(), Literal::Nil, 1),
    ];

    let mut parser = Parser::new(tokens);
    let result = parser.parse_expression();

    assert!(matches!(result, Err(ParseError::ExpectRightParen { line: 1 })));
}

#[test]
fn it_should_tokenize() {
    let mut scanner = Scanner::new("print \"e\"");
    let tokens = scanner.scan_tokens(&parse_number).unwrap();

    assert_eq!(tokens[0].type_equals_to(&TokenType::Print), true);
    assert_eq!(tokens[1].type_equals_to(&TokenType::String), true);
}

#[test]
fn it_computes() {
    let tokens = vec![
        Token::new(TokenType::Number, "1".to_string(), number(1.0), 1),
        Token::new(TokenType::Plus, "".to_string(), Literal::Nil, 1),
        Token::new(TokenType::Number, "1".to_string(), number(1.0), 1),
        Token::new(TokenType::Eof, "".to_string(), Literal::Nil, 1),
    ];

    let mut parser = Parser::new(tokens);
    let mut environment = Environment::new();

    let literal = parser
        .parse_expression()
        .unwrap()
        .evaluate(&mut environment, &arith)
        .unwrap();

    assert_eq!(literal.to_custom_string(&show), "2");
}

#[test]
fn it_manages_environments() {
    let mut current_environment = Environment::new();
    current_environment.define("i", number(1.0));
    current_environment.define("j", number(2.0));

    let mut inner = Environment::new_with_enclosing(Some(Box::from(current_environment)));
    inner.define("i", number(2.0));

    let mut inner_most = Environment::new_with_enclosing(Some(Box::from(inner)));
    inner_most.define("k", Literal::Text("John".to_string()));

    let variable_i = inner_most.get("i");
    let variable_j = inner_most.get("j");
    let variable_k = inner_most.get("k");

    assert_eq!(variable_i.unwrap(), &number(2.0));
    assert_eq!(variable_j.unwrap(), &number(2.0));
    assert_eq!(variable_k.unwrap(), &Literal::Text("John".to_string()));
}
