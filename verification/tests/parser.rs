use rlox::ast_printer::AstPrinter;
use rlox::parser::Parser;
use rlox::token::{Literal as LoxLiteral, Token, TokenType};

#[test]
fn parse_expr() {
    let tokens = vec![
        Token::new(TokenType::Minus, "-", LoxLiteral::Nil, 1),
        Token::new(TokenType::Number, "123", LoxLiteral::Number("123".to_string()), 1),
        Token::new(TokenType::Star, "*", LoxLiteral::Nil, 1),
        Token::new(TokenType::LeftParen, "(", LoxLiteral::Nil, 1),
        Token::new(TokenType::Number, "45.67", LoxLiteral::Number("45.67".to_string()), 1),
        Token::new(TokenType::RightParen, ")", LoxLiteral::Nil, 1),
        Token::new(TokenType::EOF, "", LoxLiteral::Nil, 1),
    ];
    let mut parser = Parser::new(&tokens).unwrap();
    let expr = parser.parse().unwrap();
    let mut printer: AstPrinter = AstPrinter;
    let result = printer.print(&expr);
    assert_eq!(result, "(* (- 123) (group 45.67))");
}

use rlox::error::LoxError;
use rlox::expr::{Binary, Expr, Grouping, Literal, Unary, Visitor};
use rlox::scanner::scan;

fn printed(source: &str) -> String {
    let tokens = scan(source).unwrap();
    let expr = rlox::parser::parse(&tokens).unwrap();
    AstPrinter.print(&expr)
}

fn syntax_error(source: &str) -> (usize, String, String) {
    let tokens = scan(source).unwrap();
    match rlox::parser::parse(&tokens) {
        Err(LoxError::ParseError { line, where_, message }) => (line, where_, message),
        _ => panic!("Invalid error"),
    }
}

#[test]
fn round_trip_shows_precedence() {
    assert_eq!(printed("-123 * (45.67)"), "(* (- 123) (group 45.67))");
}

#[test]
fn operators_of_one_level_group_to_the_left() {
    assert_eq!(printed("1 - 2 - 3"), "(- (- 1 2) 3)");
    assert_eq!(printed("1 / 2 * 3 / 4"), "(/ (* (/ 1 2) 3) 4)");
    assert_eq!(printed("1 == 2 != 3"), "(!= (== 1 2) 3)");
    assert_eq!(printed("1 < 2 >= 3 > 4 <= 5"), "(<= (> (>= (< 1 2) 3) 4) 5)");
    let tokens = scan("1 - 2 - 3").unwrap();
    match rlox::parser::parse(&tokens).unwrap() {
        Expr::Binary(outer) => {
            assert_eq!(outer.operator, tokens[3]);
            assert!(matches!(*outer.right, Expr::Literal(_)));
            match *outer.left {
                Expr::Binary(inner) => {
                    assert_eq!(inner.operator, tokens[1]);
                    assert!(matches!(*inner.left, Expr::Literal(_)));
                    assert!(matches!(*inner.right, Expr::Literal(_)));
                }
                _ => panic!("the left operand is the first difference"),
            }
        }
        _ => panic!("a difference is a binary node"),
    }
}

#[test]
fn tighter_operators_bind_first() {
    assert_eq!(printed("1 + 2 * 3"), "(+ 1 (* 2 3))");
    assert_eq!(printed("1 * 2 + 3"), "(+ (* 1 2) 3)");
    assert_eq!(printed("1 + 2 < 3 == true"), "(== (< (+ 1 2) 3) true)");
    assert_eq!(printed("!true == false"), "(== (! true) false)");
    assert_eq!(printed("- - 1"), "(- (- 1))");
    assert_eq!(printed("!-!1"), "(! (- (! 1)))");
    assert_eq!(printed("(1 + 2) * 3"), "(* (group (+ 1 2)) 3)");
    assert_eq!(printed("1 - -2"), "(- 1 (- 2))");
}

#[test]
fn literals_are_printed_by_their_value() {
    assert_eq!(printed("nil"), "nil");
    assert_eq!(printed("true"), "true");
    assert_eq!(printed("false"), "false");
    assert_eq!(printed("\"a b\""), "a b");
    assert_eq!(printed("12.50"), "12.50");
    assert_eq!(printed("((nil))"), "(group (group nil))");
}

#[test]
fn nothing_to_parse_is_an_error_at_the_end() {
    let tokens = vec![Token::new(TokenType::EOF, "", LoxLiteral::Nil, 4)];
    match rlox::parser::parse(&tokens) {
        Err(LoxError::ParseError { line, where_, message }) => {
            assert_eq!(line, 4);
            assert_eq!(where_, "at end");
            assert_eq!(message, "Expect expression.");
        }
        _ => panic!("Invalid error"),
    }
    assert_eq!(syntax_error(""), (1, "at end".to_string(), "Expect expression.".to_string()));
    assert_eq!(syntax_error("\n\n"), (3, "at end".to_string(), "Expect expression.".to_string()));
}

#[test]
fn missing_parenthesis_is_an_error() {
    assert_eq!(
        syntax_error("(1"),
        (1, "at end".to_string(), "Expect ')' after expression.".to_string())
    );
    assert_eq!(
        syntax_error("(1 + 2\n;"),
        (2, "at ';'".to_string(), "Expect ')' after expression.".to_string())
    );
}

#[test]
fn missing_operand_is_an_error_at_the_token_found() {
    assert_eq!(syntax_error("1 +"), (1, "at end".to_string(), "Expect expression.".to_string()));
    assert_eq!(
        syntax_error("1 + * 2"),
        (1, "at '*'".to_string(), "Expect expression.".to_string())
    );
    assert_eq!(syntax_error("\n)"), (2, "at ')'".to_string(), "Expect expression.".to_string()));
    assert_eq!(syntax_error("x"), (1, "at 'x'".to_string(), "Expect expression.".to_string()));
    assert_eq!(syntax_error("()"), (1, "at ')'".to_string(), "Expect expression.".to_string()));
    assert_eq!(syntax_error("-"), (1, "at end".to_string(), "Expect expression.".to_string()));
}

#[test]
fn parse_stops_after_one_expression() {
    let tokens = scan("1 2").unwrap();
    let mut parser = Parser::new(&tokens).unwrap();
    let expr = parser.parse().unwrap();
    assert_eq!(AstPrinter.print(&expr), "1");
    assert_eq!(parser.peek(), tokens[1]);
    assert!(!parser.is_at_end());
    let expr = parser.parse().unwrap();
    assert_eq!(AstPrinter.print(&expr), "2");
    assert!(parser.is_at_end());
    assert!(parser.parse().is_err());
    assert!(parser.is_at_end());
}

#[test]
fn tokens_without_sentinel_are_refused() {
    let none: Vec<Token> = Vec::new();
    assert!(matches!(Parser::new(&none), Err(LoxError::InvalidParameter)));
    assert!(matches!(rlox::parser::parse(&none), Err(LoxError::InvalidParameter)));
    let open = vec![Token::new(TokenType::Number, "1", LoxLiteral::Number("1".to_string()), 1)];
    assert!(matches!(Parser::new(&open), Err(LoxError::InvalidParameter)));
    assert!(matches!(rlox::parser::parse(&open), Err(LoxError::InvalidParameter)));
}

#[test]
fn parse_ends_at_the_first_sentinel() {
    let tokens = vec![
        Token::new(TokenType::Number, "1", LoxLiteral::Number("1".to_string()), 1),
        Token::new(TokenType::EOF, "", LoxLiteral::Nil, 1),
        Token::new(TokenType::Plus, "+", LoxLiteral::Nil, 1),
        Token::new(TokenType::EOF, "", LoxLiteral::Nil, 1),
    ];
    let mut parser = Parser::new(&tokens).unwrap();
    assert_eq!(AstPrinter.print(&parser.parse().unwrap()), "1");
    assert!(parser.is_at_end());
    parser.synchronize();
    assert!(parser.is_at_end());
    assert_eq!(parser.peek(), tokens[1]);
}

#[test]
fn synchronize_stops_after_a_semicolon() {
    let tokens = scan("1 + + 2 ; 3 ; 4").unwrap();
    let mut parser = Parser::new(&tokens).unwrap();
    assert!(parser.parse().is_err());
    assert_eq!(parser.peek(), tokens[2]);
    parser.synchronize();
    assert_eq!(parser.peek(), tokens[5]);
    assert_eq!(AstPrinter.print(&parser.parse().unwrap()), "3");
    parser.synchronize();
    assert_eq!(parser.peek(), tokens[7]);
}

#[test]
fn synchronize_stops_before_a_statement() {
    for word in ["class", "fun", "var", "for", "if", "while", "print", "return"] {
        let source = format!("+ 1 2 {} x", word);
        let tokens = scan(&source).unwrap();
        let mut parser = Parser::new(&tokens).unwrap();
        assert!(parser.parse().is_err());
        parser.synchronize();
        assert_eq!(parser.peek(), tokens[3]);
    }
    let tokens = scan("+ else this nil").unwrap();
    let mut parser = Parser::new(&tokens).unwrap();
    parser.synchronize();
    assert!(parser.is_at_end());
}

#[test]
fn synchronize_skips_the_token_under_the_cursor() {
    let tokens = scan("print print 1").unwrap();
    let mut parser = Parser::new(&tokens).unwrap();
    parser.synchronize();
    assert_eq!(parser.peek(), tokens[1]);
    let tokens = scan("; 1").unwrap();
    let mut parser = Parser::new(&tokens).unwrap();
    parser.synchronize();
    assert_eq!(parser.peek(), tokens[1]);
}

#[test]
fn printing_twice_gives_the_same_text() {
    let tokens = scan("-(1 + 2) * \"x\" == !nil").unwrap();
    let expr = rlox::parser::parse(&tokens).unwrap();
    let mut printer = AstPrinter;
    let first = printer.print(&expr);
    let second = printer.print(&expr);
    assert_eq!(first, second);
    assert_eq!(first, AstPrinter.print(&expr));
    assert_eq!(first, "(== (* (- (group (+ 1 2))) x) (! nil))");
    assert_eq!(expr.accept(&mut printer), first);
}

#[test]
fn printer_uses_the_lexeme_of_the_operator() {
    let expression = Expr::Binary(Binary::new(
        Expr::Unary(Unary::new(
            Token::new(TokenType::Minus, "-", LoxLiteral::Nil, 1),
            Expr::Literal(Literal::new(LoxLiteral::Number("123".to_string()))),
        )),
        Token::new(TokenType::Star, "*", LoxLiteral::Nil, 1),
        Expr::Grouping(Grouping::new(Expr::Literal(Literal::new(LoxLiteral::Number(
            "45.67".to_string(),
        ))))),
    ));
    assert_eq!(AstPrinter.print(&expression), "(* (- 123) (group 45.67))");
    let odd = Expr::Unary(Unary::new(
        Token::new(TokenType::Plus, "plus", LoxLiteral::Nil, 1),
        Expr::Literal(Literal::new(LoxLiteral::Nil)),
    ));
    assert_eq!(AstPrinter.print(&odd), "(plus nil)");
}

struct Counter {
    nodes: usize,
}

impl Visitor<usize> for Counter {
    fn visit_binary_expr(&mut self, binary: &Binary) -> usize {
        self.nodes += 1;
        1 + binary.left.accept(self).max(binary.right.accept(self))
    }

    fn visit_grouping_expr(&mut self, grouping: &Grouping) -> usize {
        self.nodes += 1;
        1 + grouping.expression.accept(self)
    }

    fn visit_literal_expr(&mut self, _literal: &Literal) -> usize {
        self.nodes += 1;
        1
    }

    fn visit_unary_expr(&mut self, unary: &Unary) -> usize {
        self.nodes += 1;
        1 + unary.right.accept(self)
    }
}

#[test]
fn accept_hands_each_node_to_its_method() {
    let tokens = scan("-(1 + 2) * 3").unwrap();
    let expr = rlox::parser::parse(&tokens).unwrap();
    let mut counter = Counter { nodes: 0 };
    assert_eq!(expr.accept(&mut counter), 5);
    assert_eq!(counter.nodes, 7);
    match &expr {
        Expr::Binary(binary) => {
            assert_eq!(binary.accept(&mut counter), 5);
            match &*binary.left {
                Expr::Unary(unary) => assert_eq!(unary.accept(&mut counter), 4),
                _ => panic!("the left operand is a negation"),
            }
            match &*binary.right {
                Expr::Literal(literal) => assert_eq!(literal.accept(&mut counter), 1),
                _ => panic!("the right operand is a literal"),
            }
        }
        _ => panic!("a product is a binary node"),
    }
    let group = Grouping::new(Expr::Literal(Literal::new(LoxLiteral::Nil)));
    assert_eq!(group.accept(&mut counter), 2);
}
