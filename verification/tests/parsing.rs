//! Parser and pretty-printer tests: the S-expression rendering of parsed
//! expressions.

use rlox::expr::Expr;
use rlox::parser::Parser;
use rlox::scanner::Scanner;
use rlox::token::{Token, TokenType};
use rlox::value::LiteralValue;

fn minus_two() -> Expr {
    Expr::Unary {
        operator: Token {
            token_type: TokenType::MINUS,
            lexeme: "-".to_string(),
            literal: None,
            line_number: 0,
        },
        right: Box::new(Expr::LiteralExpr {
            literal: LiteralValue::FValue((2.0f64).to_bits()),
        }),
    }
}

#[test]
fn test_pretty_print() {
    let minus_expr = minus_two();
    assert_eq!(minus_expr.to_string(), "(- 2)");
    let product = Expr::Binary {
        left: Box::new(minus_two()),
        op: Token {
            token_type: TokenType::STAR,
            lexeme: "*".to_string(),
            literal: None,
            line_number: 0,
        },
        right: Box::new(minus_expr),
    };
    assert_eq!(product.to_string(), "(* (- 2) (- 2))");
}

#[test]
fn test_addition() {
    let tokens = vec![
        Token {
            token_type: TokenType::NUMBER,
            lexeme: "1".to_string(),
            literal: Some(LiteralValue::FValue((1.0f64).to_bits())),
            line_number: 0,
        },
        Token {
            token_type: TokenType::PLUS,
            lexeme: "+".to_string(),
            literal: None,
            line_number: 0,
        },
        Token {
            token_type: TokenType::NUMBER,
            lexeme: "5".to_string(),
            literal: Some(LiteralValue::FValue((5.0f64).to_bits())),
            line_number: 0,
        },
        Token {
            token_type: TokenType::SEMICOLON,
            lexeme: ";".to_string(),
            literal: None,
            line_number: 0,
        },
    ];
    let mut parser = Parser::new(tokens);
    let parsed_expression = parser.expression().unwrap();
    let parsed_expression = parsed_expression.to_string();
    assert_eq!("(+ 1 5)", parsed_expression);
}

#[test]
fn test_cmp() {
    let source = "1 + 2 == 5 + 7";
    let mut scanner = Scanner::new(source);
    let tokens = scanner.scan_tokens().unwrap();
    let mut parser = Parser::new(tokens);
    let parsed_expression = parser.expression().unwrap().to_string();
    assert_eq!("(== (+ 1 2) (+ 5 7))", parsed_expression);
}

#[test]
fn test_cmp_paren() {
    let source = "1 + 2 == (5 + 7)";
    let mut scanner = Scanner::new(source);
    let tokens = scanner.scan_tokens().unwrap();
    let mut parser = Parser::new(tokens);
    let parsed_expression = parser.expression().unwrap().to_string();
    assert_eq!("(== (+ 1 2) (group (+ 5 7)))", parsed_expression);
}

#[test]
fn test_scan_var_statement() {
    let mut scanner = Scanner::new("var x = 1.5; // comment\nprint x;");
    let tokens = scanner.scan_tokens().unwrap();
    let kinds: Vec<TokenType> = tokens.iter().map(|t| t.token_type).collect();
    assert_eq!(
        kinds,
        vec![
            TokenType::VAR,
            TokenType::IDENTIFIER,
            TokenType::EQUAL,
            TokenType::NUMBER,
            TokenType::SEMICOLON,
            TokenType::PRINT,
            TokenType::IDENTIFIER,
            TokenType::SEMICOLON,
            TokenType::EOF,
        ]
    );
    assert_eq!(tokens[3].lexeme, "1.5");
    match &tokens[3].literal {
        Some(LiteralValue::FValue(b)) => assert_eq!(*b, (1.5f64).to_bits()),
        _ => panic!("number token without its value"),
    }
    assert_eq!(tokens[6].line_number, 2);
}

#[test]
fn test_scan_unterminated_string() {
    let mut scanner = Scanner::new("var s = \"open");
    let r = scanner.scan_tokens();
    match r {
        Err(e) => assert_eq!(e.msg, "Reached EOF"),
        Ok(_) => panic!("an unterminated string must not scan"),
    }
}

#[test]
fn test_parse_error_is_collected() {
    let mut scanner = Scanner::new("print 1 +; print 2;");
    let tokens = scanner.scan_tokens().unwrap();
    let mut parser = Parser::new(tokens);
    let (stmts, errors) = parser.parse();
    assert_eq!(errors.len(), 1);
    assert_eq!(stmts.len(), 1);
}

#[test]
fn test_render_literal_reparses() {
    let lit = Expr::LiteralExpr {
        literal: LiteralValue::True,
    };
    let rendered = lit.to_string();
    assert_eq!(rendered, "true");
    let mut scanner = Scanner::new(&rendered);
    let tokens = scanner.scan_tokens().unwrap();
    let mut parser = Parser::new(tokens);
    let again = parser.expression().unwrap();
    assert!(matches!(
        again,
        Expr::LiteralExpr {
            literal: LiteralValue::True
        }
    ));
    assert_eq!(again.to_string(), "true");
}
