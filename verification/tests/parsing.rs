use esplox::expressions::Expr;
use esplox::lexer::Lexer;
use esplox::parser::Parser;
use esplox::token::{Token, TokenType};
use esplox::utils::{Context, Error};

fn parser_for(src: &str) -> Parser {
    let mut lexer = Lexer::new(String::from(src));
    lexer.scan_tokens();
    let out = lexer.transfer_tokens_src();
    Parser::new(out.tokens)
}

fn parse_source(src: &str) -> Result<Box<Expr>, Error> {
    parser_for(src).parse()
}

fn literal_lexeme(e: &Expr) -> &str {
    match e {
        Expr::Literal(l) => l.value().value().as_str(),
        _ => panic!("expected a literal"),
    }
}

#[test]
fn multiplication_binds_tighter_than_addition() {
    // 1+2*3 is Binary(1, '+', Binary(2, '*', 3)).
    let expr = parse_source("1+2*3").unwrap();
    match *expr {
        Expr::Binary(b) => {
            assert_eq!(*b.operator.kind(), TokenType::Plus);
            assert_eq!(literal_lexeme(&b.left), "1");
            match *b.right {
                Expr::Binary(inner) => {
                    assert_eq!(*inner.operator.kind(), TokenType::Star);
                    assert_eq!(literal_lexeme(&inner.left), "2");
                    assert_eq!(literal_lexeme(&inner.right), "3");
                }
                _ => panic!("the right operand should be the product"),
            }
        }
        _ => panic!("the root should be the sum"),
    }
}

#[test]
fn grouping_overrides_precedence() {
    // (1+2)*3 is Binary(Grouping(Binary(1, '+', 2)), '*', 3).
    let expr = parse_source("(1+2)*3").unwrap();
    match *expr {
        Expr::Binary(b) => {
            assert_eq!(*b.operator.kind(), TokenType::Star);
            assert_eq!(literal_lexeme(&b.right), "3");
            match *b.left {
                Expr::Grouping(g) => match g.expression() {
                    Expr::Binary(inner) => {
                        assert_eq!(*inner.operator.kind(), TokenType::Plus);
                        assert_eq!(literal_lexeme(&inner.left), "1");
                        assert_eq!(literal_lexeme(&inner.right), "2");
                    }
                    _ => panic!("the grouping should hold the sum"),
                },
                _ => panic!("the left operand should be the grouping"),
            }
        }
        _ => panic!("the root should be the product"),
    }
}

#[test]
fn double_negation_nests_right_associatively() {
    // !!verdadero is Unary('!', Unary('!', Literal(true))).
    let expr = parse_source("!!verdadero").unwrap();
    match *expr {
        Expr::Unary(u) => {
            assert_eq!(*u.operator().kind(), TokenType::Bang);
            match u.right() {
                Expr::Unary(inner) => {
                    assert_eq!(*inner.operator().kind(), TokenType::Bang);
                    match inner.right() {
                        Expr::Literal(l) => {
                            assert_eq!(*l.value().kind(), TokenType::True);
                            assert_eq!(l.value().value().as_str(), "verdadero");
                        }
                        _ => panic!("the operand should be the literal"),
                    }
                }
                _ => panic!("the operand should be another negation"),
            }
        }
        _ => panic!("the root should be a negation"),
    }
}

#[test]
fn equality_folds_left_associatively() {
    // 1==2!=3 is Binary(Binary(1, '==', 2), '!=', 3).
    let expr = parse_source("1==2!=3").unwrap();
    match *expr {
        Expr::Binary(b) => {
            assert_eq!(*b.operator.kind(), TokenType::BangEqual);
            assert_eq!(literal_lexeme(&b.right), "3");
            match *b.left {
                Expr::Binary(inner) => {
                    assert_eq!(*inner.operator.kind(), TokenType::EqualEqual);
                    assert_eq!(literal_lexeme(&inner.left), "1");
                    assert_eq!(literal_lexeme(&inner.right), "2");
                }
                _ => panic!("the left operand should be the first equality"),
            }
        }
        _ => panic!("the root should be the second equality"),
    }
}

#[test]
fn comparison_and_literals_parse() {
    let expr = parse_source("\"a\" <= nada").unwrap();
    match *expr {
        Expr::Binary(b) => {
            assert_eq!(*b.operator.kind(), TokenType::LessEqual);
            match *b.left {
                Expr::Literal(l) => assert_eq!(*l.value().kind(), TokenType::String),
                _ => panic!("the left operand should be the string literal"),
            }
            match *b.right {
                Expr::Literal(l) => assert_eq!(*l.value().kind(), TokenType::Null),
                _ => panic!("the right operand should be the null literal"),
            }
        }
        _ => panic!("the root should be the comparison"),
    }
}

#[test]
fn empty_input_fails_to_parse_without_crashing() {
    let mut parser = parser_for("");
    let result = parser.parse();
    assert!(result.is_err());
    assert_eq!(result.unwrap_err(), Error::ParsingError);
    let diags = parser.diagnostics();
    assert_eq!(diags.len(), 1);
    assert_eq!(diags[0].message.as_str(), "Se esperaba una expresion");
    assert!(matches!(diags[0].context, Context::AtEnd));
}

#[test]
fn missing_expression_reports_the_offending_token() {
    let mut parser = parser_for("+1");
    assert!(parser.parse().is_err());
    let diags = parser.diagnostics();
    assert_eq!(diags.len(), 1);
    assert_eq!(diags[0].message.as_str(), "Se esperaba una expresion");
    match &diags[0].context {
        Context::AtLexeme(s) => assert_eq!(s.as_str(), "+"),
        _ => panic!("the diagnostic should point at the plus"),
    }
}

#[test]
fn unclosed_grouping_reports_the_missing_parenthesis() {
    let mut parser = parser_for("(1");
    assert!(parser.parse().is_err());
    let diags = parser.diagnostics();
    assert_eq!(diags.len(), 1);
    assert_eq!(diags[0].message.as_str(), "Se necesita cerrar el parentesis");
    assert!(matches!(diags[0].context, Context::AtEnd));
}

#[test]
fn parse_consumes_only_the_expression_it_returns() {
    // A second expression after the first is left untouched: the parse
    // succeeds on the first one alone.
    let expr = parse_source("1 2").unwrap();
    match *expr {
        Expr::Literal(l) => assert_eq!(l.value().value().as_str(), "1"),
        _ => panic!("the root should be the first literal"),
    }
}

#[test]
fn synchronize_skips_to_the_next_statement_boundary() {
    // The parse fails on '+', synchronisation discards through the
    // semicolon, and the next parse finds the literal after it.
    let mut parser = parser_for("+ ; 2");
    assert!(parser.parse().is_err());
    parser.synchronize();
    let expr = parser.parse().unwrap();
    match *expr {
        Expr::Literal(l) => assert_eq!(l.value().value().as_str(), "2"),
        _ => panic!("parsing should resume at the literal"),
    }
}

#[test]
fn parser_accepts_tokens_built_by_hand() {
    let tokens = vec![
        Token::new(TokenType::Number, 1, String::from("7")),
        Token::new(TokenType::Eof, 1, String::new()),
    ];
    let mut parser = Parser::new(tokens);
    let expr = parser.parse().unwrap();
    match *expr {
        Expr::Literal(l) => {
            assert_eq!(*l.value().kind(), TokenType::Number);
            assert_eq!(l.value().value().as_str(), "7");
            assert_eq!(l.value().line(), 1);
        }
        _ => panic!("the root should be the literal"),
    }
    assert!(parser.diagnostics().is_empty());
}
