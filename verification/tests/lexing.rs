use esplox::lexer::{keyword_or_identifier, Lexer, TokensAndSrc};
use esplox::token::TokenType;
use esplox::utils::Context;

fn scan(src: &str) -> TokensAndSrc {
    let mut lexer = Lexer::new(String::from(src));
    lexer.scan_tokens();
    lexer.transfer_tokens_src()
}

fn kinds(out: &TokensAndSrc) -> Vec<TokenType> {
    out.tokens.iter().map(|t| *t.kind()).collect()
}

#[test]
fn empty_input_gives_only_the_end_marker() {
    let out = scan("");
    assert_eq!(out.tokens.len(), 1);
    assert_eq!(*out.tokens[0].kind(), TokenType::Eof);
    assert_eq!(out.tokens[0].value().as_str(), "");
    assert!(out.diagnostics.is_empty());
}

#[test]
fn each_reserved_word_lexes_to_its_keyword_kind() {
    let table = [
        ("y", TokenType::And),
        ("objeto", TokenType::Class),
        ("sino", TokenType::Else),
        ("falso", TokenType::False),
        ("por", TokenType::For),
        ("funcion", TokenType::Fun),
        ("si", TokenType::If),
        ("nada", TokenType::Null),
        ("o", TokenType::Or),
        ("mostrar", TokenType::Print),
        ("devolver", TokenType::Return),
        ("super", TokenType::Super),
        ("este", TokenType::This),
        ("verdadero", TokenType::True),
        ("variable", TokenType::Var),
        ("mientras", TokenType::While),
    ];
    for (word, kind) in table {
        let out = scan(word);
        assert_eq!(kinds(&out), vec![kind, TokenType::Eof], "word: {}", word);
        assert_eq!(out.tokens[0].value().as_str(), word);
        assert_eq!(keyword_or_identifier(&String::from(word)), kind);
    }
}

#[test]
fn other_words_lex_as_identifiers() {
    for word in ["falsoo", "Falso", "x", "si2", "devolverlo", "abc123"] {
        let out = scan(word);
        assert_eq!(
            kinds(&out),
            vec![TokenType::Identifier, TokenType::Eof],
            "word: {}",
            word
        );
        assert_eq!(out.tokens[0].value().as_str(), word);
        assert_eq!(
            keyword_or_identifier(&String::from(word)),
            TokenType::Identifier
        );
    }
}

#[test]
fn token_lexemes_round_trip_for_plain_input() {
    for src in ["a+b<=c", "x*(y-z)/w", "1.5+falso!=si", "@#a"] {
        let out = scan(src);
        let mut rebuilt = String::new();
        for t in &out.tokens {
            rebuilt.push_str(t.value());
        }
        assert_eq!(rebuilt.as_str(), src, "source: {}", src);
    }
}

#[test]
fn number_with_fractional_separator_is_one_token() {
    let out = scan("3.14");
    assert_eq!(kinds(&out), vec![TokenType::Number, TokenType::Eof]);
    assert_eq!(out.tokens[0].value().as_str(), "3.14");

    let out = scan("3,14");
    assert_eq!(kinds(&out), vec![TokenType::Number, TokenType::Eof]);
    assert_eq!(out.tokens[0].value().as_str(), "3,14");
}

#[test]
fn number_with_trailing_separator_leaves_the_dot_out() {
    let out = scan("3.");
    assert_eq!(
        kinds(&out),
        vec![TokenType::Number, TokenType::Dot, TokenType::Eof]
    );
    assert_eq!(out.tokens[0].value().as_str(), "3");
    assert_eq!(out.tokens[1].value().as_str(), ".");
}

#[test]
fn string_literal_value_has_quotes_stripped() {
    let out = scan("\"abc\"");
    assert_eq!(kinds(&out), vec![TokenType::String, TokenType::Eof]);
    assert_eq!(out.tokens[0].value().as_str(), "abc");
    assert!(out.diagnostics.is_empty());
}

#[test]
fn unterminated_string_reports_but_scanning_finishes() {
    let out = scan("\"abc");
    assert_eq!(out.diagnostics.len(), 1);
    assert_eq!(
        out.diagnostics[0].message.as_str(),
        "Falta cerrar una string con un \""
    );
    let eof_count = out
        .tokens
        .iter()
        .filter(|t| *t.kind() == TokenType::Eof)
        .count();
    assert_eq!(eof_count, 1);
    assert_eq!(*out.tokens.last().unwrap().kind(), TokenType::Eof);
    assert_eq!(out.tokens[0].value().as_str(), "abc");
}

#[test]
fn one_and_two_character_operators_are_told_apart() {
    let out = scan("!= == <= >= < > = !");
    assert_eq!(
        kinds(&out),
        vec![
            TokenType::BangEqual,
            TokenType::EqualEqual,
            TokenType::LessEqual,
            TokenType::GreaterEqual,
            TokenType::Less,
            TokenType::Greater,
            TokenType::Equal,
            TokenType::Bang,
            TokenType::Eof,
        ]
    );
}

#[test]
fn punctuation_lexes_to_fixed_kinds() {
    let out = scan("(){},.-+;*/");
    assert_eq!(
        kinds(&out),
        vec![
            TokenType::LeftParen,
            TokenType::RightParen,
            TokenType::LeftBrace,
            TokenType::RightBrace,
            TokenType::Comma,
            TokenType::Dot,
            TokenType::Minus,
            TokenType::Plus,
            TokenType::Semicolon,
            TokenType::Star,
            TokenType::Slash,
            TokenType::Eof,
        ]
    );
}

#[test]
fn line_comment_is_discarded_up_to_the_newline() {
    let out = scan("1 // un comentario + 2\n3");
    assert_eq!(
        kinds(&out),
        vec![TokenType::Number, TokenType::Number, TokenType::Eof]
    );
    assert_eq!(out.tokens[0].line(), 1);
    assert_eq!(out.tokens[1].line(), 2);
}

#[test]
fn newlines_advance_the_line_counter() {
    let out = scan("\n\n5");
    assert_eq!(out.tokens[0].line(), 3);
    let out = scan("\"a\nb\"");
    assert_eq!(*out.tokens[0].kind(), TokenType::String);
    assert_eq!(out.tokens[0].value().as_str(), "a\nb");
    assert_eq!(out.tokens[0].line(), 2);
}

#[test]
fn unexpected_character_reports_and_scanning_continues() {
    let out = scan("@1");
    assert_eq!(
        kinds(&out),
        vec![TokenType::Unknown, TokenType::Number, TokenType::Eof]
    );
    assert_eq!(out.tokens[0].value().as_str(), "@");
    assert_eq!(out.diagnostics.len(), 1);
    assert_eq!(out.diagnostics[0].message.as_str(), "Caracter no esperado");
    assert_eq!(out.diagnostics[0].line, 1);
    match &out.diagnostics[0].context {
        Context::AtLexeme(s) => assert_eq!(s.as_str(), "@"),
        _ => panic!("the diagnostic should point at the character"),
    }
}

#[test]
fn whitespace_is_discarded_and_never_a_token() {
    let out = scan(" \t\r 7 ");
    assert_eq!(kinds(&out), vec![TokenType::Number, TokenType::Eof]);
    assert_eq!(out.src.as_str(), " \t\r 7 ");
}
