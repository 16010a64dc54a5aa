use esplox::token::{Token, TokenType};
use esplox::utils::{error, error_parse, Context};

#[test]
fn error_builds_a_plain_line_tagged_diagnostic() {
    let d = error(3, "algo fallo");
    assert_eq!(d.line, 3);
    assert_eq!(d.message.as_str(), "algo fallo");
    assert!(matches!(d.context, Context::Plain));
}

#[test]
fn error_parse_points_at_the_token_lexeme() {
    let t = Token::new(TokenType::Identifier, 7, String::from("nombre"));
    let d = error_parse(&t, "no esperado");
    assert_eq!(d.line, 7);
    assert_eq!(d.message.as_str(), "no esperado");
    match &d.context {
        Context::AtLexeme(s) => assert_eq!(s.as_str(), "nombre"),
        _ => panic!("the diagnostic should carry the lexeme"),
    }
}

#[test]
fn error_parse_notes_the_end_of_input_for_the_end_marker() {
    let t = Token::new(TokenType::Eof, 9, String::new());
    let d = error_parse(&t, "falta algo");
    assert_eq!(d.line, 9);
    assert!(matches!(d.context, Context::AtEnd));
}
