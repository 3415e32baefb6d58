//! The lexer on its own: token kinds, locations, and word classification.

use folium::layout::Rect;
use folium::lexer::{lex, Token, TokenLocation};
use folium::style::PropertyValue;

#[test]
fn tokens_carry_their_location() {
    let toks = lex("[ none() ]");
    let kinds: Vec<Token> = toks.iter().map(|t| t.token.clone()).collect();
    assert_eq!(
        kinds,
        vec![
            Token::OpeningSlideParen,
            Token::Ident(String::from("none")),
            Token::OpeningArgsParen,
            Token::ClosingArgsParen,
            Token::ClosingSlideParen,
        ]
    );
    assert_eq!(toks[0].location, TokenLocation { line: 0, col: 0 });
    assert_eq!(toks[1].location, TokenLocation { line: 0, col: 2 });
    assert_eq!(toks[2].location, TokenLocation { line: 0, col: 6 });
}

#[test]
fn definition_token_needs_two_colons() {
    let toks = lex("a :: b : c");
    let kinds: Vec<Token> = toks.iter().map(|t| t.token.clone()).collect();
    assert_eq!(
        kinds,
        vec![
            Token::Ident(String::from("a")),
            Token::Definition,
            Token::Ident(String::from("b")),
            Token::ValueAssignment,
            Token::Ident(String::from("c")),
        ]
    );
}

#[test]
fn words_classify_as_numbers_booleans_colours_and_idents() {
    let toks = lex("12 true false #0a0B0c twelve 12x");
    let kinds: Vec<Token> = toks.iter().map(|t| t.token.clone()).collect();
    assert_eq!(
        kinds,
        vec![
            Token::Value(PropertyValue::Number(12)),
            Token::Value(PropertyValue::Boolean(true)),
            Token::Value(PropertyValue::Boolean(false)),
            Token::Value(PropertyValue::Colour(10, 11, 12)),
            Token::Ident(String::from("twelve")),
            Token::Ident(String::from("12x")),
        ]
    );
}

#[test]
fn string_token_spans_to_the_closing_delimiter() {
    let toks = lex(r#"x "a b," y"#);
    let kinds: Vec<Token> = toks.iter().map(|t| t.token.clone()).collect();
    assert_eq!(
        kinds,
        vec![
            Token::Ident(String::from("x")),
            Token::Value(PropertyValue::String(String::from("a b,"))),
            Token::Ident(String::from("y")),
        ]
    );
}

#[test]
fn line_and_column_count_across_lines() {
    let toks = lex("a\n// gone\n  b");
    assert_eq!(toks.len(), 2);
    assert_eq!(toks[0].location, TokenLocation { line: 0, col: 0 });
    assert_eq!(toks[1].token, Token::Ident(String::from("b")));
    assert_eq!(toks[1].location, TokenLocation { line: 2, col: 2 });
}

#[test]
fn seven_hex_digits_are_an_ident() {
    let toks = lex("#1234567 #12345g");
    let kinds: Vec<Token> = toks.iter().map(|t| t.token.clone()).collect();
    assert_eq!(
        kinds,
        vec![
            Token::Ident(String::from("#1234567")),
            Token::Ident(String::from("#12345g")),
        ]
    );
}

#[test]
fn with_margin_shrinks_every_side() {
    let r = Rect {
        x: 10,
        y: 20,
        w: 100,
        h: 80,
    };
    assert_eq!(
        r.with_margin(5),
        Rect {
            x: 15,
            y: 25,
            w: 90,
            h: 70,
        }
    );
}
