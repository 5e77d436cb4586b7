use rlox::environment::Environment;
use rlox::interpreter::{ArithOp, Interpreter, RuntimeError, Statement};
use rlox::number::{is_zero, negate, number_eq, number_le, number_lt};
use rlox::parser::{Expression, ParseError, Parser};
use rlox::scanner::{get_key_words, Literal, ScanError, Scanner, Token, TokenType};
use rlox::{run, Error};

fn number(x: f64) -> Literal {
    Literal::Number(x.to_bits())
}

fn parse_number(s: String) -> u64 {
    s.parse::<f64>().unwrap().to_bits()
}

fn arith(op: ArithOp, a: u64, b: u64) -> u64 {
    let (x, y) = (f64::from_bits(a), f64::from_bits(b));
    let r = match op {
        ArithOp::Add => x + y,
        ArithOp::Subtract => x - y,
        ArithOp::Multiply => x * y,
        ArithOp::Divide => x / y,
    };
    r.to_bits()
}

fn show(n: u64) -> String {
    f64::from_bits(n).to_string()
}

fn scan(source: &str) -> Result<Vec<Token>, ScanError> {
    Scanner::new(source).scan_tokens(&parse_number)
}

fn kinds(source: &str) -> Vec<TokenType> {
    scan(source).unwrap().iter().map(|t| t.token_type).collect()
}

fn printed(source: &str) -> (Vec<String>, Result<(), Error>) {
    let (values, ended) = run(source, &parse_number, &arith);
    (values.iter().map(|v| v.to_custom_string(&show)).collect(), ended)
}

fn tree_of(source: &str) -> String {
    let mut parser = Parser::new(scan(source).unwrap());
    let statements = parser.parse().unwrap();
    match &statements[0] {
        Statement::Expression { expression } => expression.to_custom_string(&show),
        _ => panic!("not an expression statement"),
    }
}

fn literal_expression(value: Literal) -> Expression {
    Expression::Literal { literal_value: value }
}

fn name(text: &str) -> Token {
    Token::new(TokenType::Identifier, text.to_string(), Literal::Nil, 1)
}

#[test]
fn empty_source_gives_only_the_end_token() {
    let tokens = scan("").unwrap();
    assert_eq!(tokens.len(), 1);
    assert!(tokens[0].is_eof());
    assert_eq!(tokens[0].line, 1);
}

#[test]
fn single_tokens_round_trip() {
    let source = "( ) { } , . - + ; * / ! != = == < <= > >= foo _bar9 \"hi there\" 12 3.5 and class else false for fun if nil or print return super this true var while";
    let tokens = scan(source).unwrap();
    let expected = vec![
        TokenType::LeftParen,
        TokenType::RightParen,
        TokenType::LeftBrace,
        TokenType::RightBrace,
        TokenType::Comma,
        TokenType::Dot,
        TokenType::Minus,
        TokenType::Plus,
        TokenType::Semicolon,
        TokenType::Star,
        TokenType::Slash,
        TokenType::Bang,
        TokenType::BangEqual,
        TokenType::Equal,
        TokenType::EqualEqual,
        TokenType::Less,
        TokenType::LessEqual,
        TokenType::Greater,
        TokenType::GreaterEqual,
        TokenType::Identifier,
        TokenType::Identifier,
        TokenType::String,
        TokenType::Number,
        TokenType::Number,
        TokenType::And,
        TokenType::Class,
        TokenType::Else,
        TokenType::False,
        TokenType::For,
        TokenType::Fun,
        TokenType::If,
        TokenType::Nil,
        TokenType::Or,
        TokenType::Print,
        TokenType::Return,
        TokenType::Super,
        TokenType::This,
        TokenType::True,
        TokenType::Var,
        TokenType::While,
        TokenType::Eof,
    ];
    let got: Vec<TokenType> = tokens.iter().map(|t| t.token_type).collect();
    assert_eq!(got, expected);
    let lexemes: Vec<&str> = source.split(' ').collect();
    assert_eq!(tokens[19].lexeme(), "foo");
    assert_eq!(tokens[20].lexeme(), "_bar9");
    assert_eq!(tokens[21].lexeme(), "\"hi there\"");
    assert_eq!(tokens[21].literal, Literal::Text("hi there".to_string()));
    assert_eq!(tokens[22].literal, number(12.0));
    assert_eq!(tokens[23].literal, number(3.5));
    assert_eq!(tokens[23].lexeme(), "3.5");
    assert_eq!(tokens[0].lexeme(), lexemes[0]);
    assert_eq!(tokens[12].lexeme(), "!=");
    assert_eq!(tokens[14].literal, Literal::Nil);
}

#[test]
fn keyword_table_has_sixteen_words() {
    let table = get_key_words();
    assert_eq!(table.len(), 16);
    assert_eq!(table[0].0, "and");
    assert_eq!(table[15].1, TokenType::While);
}

#[test]
fn comment_runs_to_the_end_of_its_line() {
    assert_eq!(
        kinds("1 // two 2\n3"),
        vec![TokenType::Number, TokenType::Number, TokenType::Eof]
    );
    let tokens = scan("1 // two\n3").unwrap();
    assert_eq!(tokens[1].line, 2);
}

#[test]
fn newlines_count_lines() {
    let tokens = scan("a\n\nb\t\rc").unwrap();
    assert_eq!(tokens[0].line, 1);
    assert_eq!(tokens[1].line, 3);
    assert_eq!(tokens[2].line, 3);
    assert_eq!(tokens[3].line, 3);
}

#[test]
fn dot_without_digit_is_not_part_of_number() {
    let tokens = scan("1.").unwrap();
    assert_eq!(tokens[0].token_type, TokenType::Number);
    assert_eq!(tokens[0].lexeme(), "1");
    assert_eq!(tokens[1].token_type, TokenType::Dot);
}

#[test]
fn unterminated_string_is_an_error() {
    assert_eq!(
        scan("\"abc\ndef"),
        Err(ScanError::UnterminatedString { line: 2 })
    );
}

#[test]
fn unrecognized_character_is_an_error() {
    assert_eq!(
        scan("1\n@"),
        Err(ScanError::UnrecognizedCharacter { line: 2 })
    );
    assert_eq!(
        scan("é"),
        Err(ScanError::UnrecognizedCharacter { line: 1 })
    );
}

#[test]
fn non_ascii_inside_string_is_kept() {
    let tokens = scan("print \"é\"").unwrap();
    assert_eq!(tokens[1].literal, Literal::Text("é".to_string()));
}

#[test]
fn precedence_from_source() {
    assert_eq!(tree_of("1+2*3;"), "(+ 1 (* 2 3))");
}

#[test]
fn subtraction_folds_left() {
    assert_eq!(tree_of("1-2-3;"), "(- (- 1 2) 3)");
}

#[test]
fn grouping_from_source() {
    assert_eq!(tree_of("(1+2)*3;"), "(* (group (+ 1 2)) 3)");
}

#[test]
fn assignment_folds_right() {
    assert_eq!(tree_of("a = b = 1;"), "a=b=1");
    assert_eq!(tree_of("-!x == y;"), "(== (- (! (var x))) (var y))");
}

#[test]
fn parse_errors() {
    let parse = |s: &str| Parser::new(scan(s).unwrap()).parse();
    assert!(matches!(
        parse("1 = 2;"),
        Err(ParseError::InvalidAssignmentTarget { line: 1 })
    ));
    assert!(matches!(
        parse("print 1"),
        Err(ParseError::ExpectSemicolon { line: 1 })
    ));
    assert!(matches!(
        parse("var 1;"),
        Err(ParseError::ExpectVariableName { line: 1 })
    ));
    assert!(matches!(
        parse(";"),
        Err(ParseError::ExpectExpression { line: 1 })
    ));
    assert!(matches!(
        parse("(1;"),
        Err(ParseError::ExpectRightParen { line: 1 })
    ));
}

#[test]
fn division_by_zero_is_fatal() {
    let (out, ended) = printed("1/0;");
    assert!(out.is_empty());
    assert_eq!(ended, Err(Error::Runtime(RuntimeError::DivisionByZero)));
    let (out, ended) = printed("print 1/2;");
    assert_eq!(out, vec!["0.5".to_string()]);
    assert_eq!(ended, Ok(()));
}

#[test]
fn undefined_variable_is_fatal() {
    let (_, ended) = printed("print x;");
    assert_eq!(
        ended,
        Err(Error::Runtime(RuntimeError::UndefinedVariable {
            name: "x".to_string()
        }))
    );
    let (out, ended) = printed("var x = 1; print x;");
    assert_eq!(out, vec!["1".to_string()]);
    assert_eq!(ended, Ok(()));
}

#[test]
fn cross_type_equality_is_fatal() {
    let (_, ended) = printed("1 == \"1\";");
    assert_eq!(
        ended,
        Err(Error::Runtime(RuntimeError::MismatchedEquality {
            left: number(1.0),
            right: Literal::Text("1".to_string()),
        }))
    );
    let (out, _) = printed("print 1 == 1; print 1 == 2; print 1 != 2; print nil == nil;");
    assert_eq!(out, vec!["true", "false", "true", "true"]);
}

#[test]
fn output_before_an_error_is_kept() {
    let (out, ended) = printed("print \"a\" + \"b\"; print -true;");
    assert_eq!(out, vec!["ab".to_string()]);
    assert_eq!(
        ended,
        Err(Error::Runtime(RuntimeError::UnsupportedUnary {
            operator: "-".to_string(),
            operand: Literal::Boolean(true),
        }))
    );
}

#[test]
fn unsupported_binary_names_its_operands() {
    let (_, ended) = printed("1 + \"a\";");
    assert_eq!(
        ended,
        Err(Error::Runtime(RuntimeError::UnsupportedBinary {
            left: number(1.0),
            operator: "+".to_string(),
            right: Literal::Text("a".to_string()),
        }))
    );
}

#[test]
fn assignment_needs_a_binding_and_yields_its_value() {
    let (_, ended) = printed("x = 1;");
    assert_eq!(
        ended,
        Err(Error::Runtime(RuntimeError::UndefinedAssignment {
            name: "x".to_string()
        }))
    );
    let (out, _) = printed("var a = 1; print a = 2; print a; var b; print b;");
    assert_eq!(out, vec!["2", "2", "nil"]);
}

#[test]
fn arithmetic_and_comparison() {
    let (out, ended) =
        printed("print 7 - 2 * 3; print -(1.5); print 2 > 1; print 2 >= 2; print 1 < 1; print 1 <= 0;");
    assert_eq!(out, vec!["1", "-1.5", "true", "true", "false", "false"]);
    assert_eq!(ended, Ok(()));
    let (out, _) = printed("print 0.1 + 0.2;");
    assert_eq!(out, vec!["0.30000000000000004".to_string()]);
}

#[test]
fn scan_and_parse_errors_from_run() {
    assert_eq!(
        printed("print 1; @").1,
        Err(Error::Scan(ScanError::UnrecognizedCharacter { line: 1 }))
    );
    assert_eq!(
        printed("print 1; print 2").1,
        Err(Error::Parse(ParseError::ExpectSemicolon { line: 1 }))
    );
    assert!(printed("print 1; print 2").0.is_empty());
}

#[test]
fn blocks_shadow_and_restore() {
    let var = |n: &str, v: Literal| Statement::Var {
        token: name(n),
        expression: literal_expression(v),
    };
    let print = |n: &str| Statement::Print {
        expression: Expression::Var { name: name(n) },
    };
    let program = vec![
        var("i", number(1.0)),
        var("j", number(2.0)),
        Statement::Block {
            statements: vec![
                var("i", number(2.0)),
                var("k", Literal::Text("John".to_string())),
                print("i"),
                print("j"),
                print("k"),
            ],
        },
        print("i"),
    ];
    let mut interpreter = Interpreter::new(Environment::new());
    assert_eq!(interpreter.interpret(program, &arith), Ok(()));
    let out: Vec<String> = interpreter
        .output()
        .iter()
        .map(|v| v.to_custom_string(&show))
        .collect();
    assert_eq!(out, vec!["2", "2", "John", "1"]);
    assert_eq!(interpreter.environment().get("k"), None);
}

#[test]
fn block_assignment_reaches_the_outer_binding() {
    let program = vec![
        Statement::Var {
            token: name("a"),
            expression: literal_expression(number(1.0)),
        },
        Statement::Block {
            statements: vec![Statement::Expression {
                expression: Expression::Assignment {
                    name: name("a"),
                    value: Box::new(literal_expression(number(5.0))),
                },
            }],
        },
    ];
    let mut interpreter = Interpreter::new(Environment::new());
    assert_eq!(interpreter.interpret(program, &arith), Ok(()));
    assert_eq!(interpreter.environment().get("a"), Some(&number(5.0)));
}

#[test]
fn if_runs_only_on_boolean_true() {
    let print_yes = || {
        Box::new(Statement::Print {
            expression: literal_expression(Literal::Text("yes".to_string())),
        })
    };
    let print_no = || {
        Box::new(Statement::Print {
            expression: literal_expression(Literal::Text("no".to_string())),
        })
    };
    let program = vec![
        Statement::If {
            condition: literal_expression(number(1.0)),
            then_statement: print_yes(),
        },
        Statement::If {
            condition: literal_expression(Literal::Boolean(true)),
            then_statement: print_yes(),
        },
        Statement::IfElse {
            condition: literal_expression(number(1.0)),
            then_statement: print_yes(),
            else_statement: print_no(),
        },
        Statement::IfElse {
            condition: literal_expression(Literal::Boolean(true)),
            then_statement: print_yes(),
            else_statement: print_no(),
        },
    ];
    let mut interpreter = Interpreter::new(Environment::new());
    assert_eq!(interpreter.interpret(program, &arith), Ok(()));
    let out: Vec<String> = interpreter
        .output()
        .iter()
        .map(|v| v.to_custom_string(&show))
        .collect();
    assert_eq!(out, vec!["yes", "no", "yes"]);
}

#[test]
fn environment_assign_and_define() {
    let mut outer = Environment::new();
    outer.define("x", number(1.0));
    outer.define("x", number(3.0));
    let mut inner = Environment::new_with_enclosing(Some(Box::new(outer)));
    assert!(inner.assign("x", number(4.0)));
    assert!(!inner.assign("y", number(4.0)));
    assert_eq!(inner.get("y"), None);
    inner.pop_frame();
    assert_eq!(inner.get("x"), Some(&number(4.0)));
}

#[test]
fn binary64_bits_operations() {
    let zero = 0.0f64.to_bits();
    let minus_zero = (-0.0f64).to_bits();
    let nan = f64::NAN.to_bits();
    let one = 1.0f64.to_bits();
    let minus_one = (-1.0f64).to_bits();
    assert!(number_eq(zero, minus_zero));
    assert!(!number_eq(nan, nan));
    assert!(is_zero(minus_zero));
    assert!(!is_zero(one));
    assert_eq!(negate(one), minus_one);
    assert!(number_lt(minus_one, one));
    assert!(!number_lt(minus_zero, zero));
    assert!(number_le(minus_zero, zero));
    assert!(number_lt(f64::NEG_INFINITY.to_bits(), minus_one));
    assert!(!number_le(nan, one));
    assert!(number_lt((-2.0f64).to_bits(), minus_one));
}
