use lana::lexer::{SrcLocation, Token, TokenKind, Tokenizer};
use lana::tokenize::tokenize;

/// The driver's classification step: an identifier word whose text parses as
/// a double becomes a number token carrying the float's bit encoding.
fn classify(t: Token) -> Token {
    let bits = match &t.kind {
        TokenKind::Id(s) => s.parse::<f64>().ok().map(f64::to_bits),
        _ => None,
    };
    t.classified(bits)
}

fn classified_tokens(input: &str) -> Vec<Token> {
    Tokenizer::new(input)
        .tokens()
        .into_iter()
        .map(classify)
        .collect()
}

#[test]
fn it_parses_an_empty_input() {
    let input = "".to_string();
    let mut lexer = Tokenizer::new(&input);

    let tokens = lexer.tokens();

    assert!(tokens.is_empty())
}

#[test]
fn it_parses_multiple_tokens() {
    let input = "(+ 1 2 ; yay \n )".to_string();

    let tokens = classified_tokens(&input);

    assert_eq!(
        vec![
            Token::new(TokenKind::LParen, SrcLocation::new(1, 1)),
            Token::new(TokenKind::Id("+".to_string()), SrcLocation::new(1, 2)),
            Token::new(TokenKind::Number(1.0f64.to_bits()), SrcLocation::new(1, 4)),
            Token::new(TokenKind::Number(2.0f64.to_bits()), SrcLocation::new(1, 6)),
            Token::new(TokenKind::RParen, SrcLocation::new(2, 2)),
        ],
        tokens
    );
}

#[test]
fn it_ignores_whitespaces() {
    let input = " \ta".to_string();
    let mut lexer = Tokenizer::new(&input);

    lexer.next_token();

    assert_eq!(1, lexer.loc.line);
    assert_eq!(3, lexer.loc.col);
}

#[test]
fn it_ignores_commas() {
    let input = ",,,".to_string();
    let mut lexer = Tokenizer::new(&input);

    lexer.next_token();

    assert_eq!(1, lexer.loc.line);
    assert_eq!(3, lexer.loc.col);
}

#[test]
fn it_skips_comments() {
    let input = "; some comment here\n)".to_string();

    let token = Tokenizer::new(&input)
        .next_token()
        .expect("failed to comments");

    assert_eq!(
        Token {
            kind: TokenKind::RParen,
            loc: SrcLocation { line: 2, col: 1 }
        },
        token
    );
}

#[test]
fn it_update_location_line_on_new_line_chars() {
    let input = "\n  \n   ".to_string();
    let mut lexer = Tokenizer::new(&input);

    lexer.next_token();

    assert_eq!(3, lexer.loc.line);
    assert_eq!(3, lexer.loc.col);
}

#[test]
fn it_lexes_a_left_paren() {
    let input = "(".to_string();

    let token = Tokenizer::new(&input)
        .next_token()
        .expect("failed to lex a left paren");

    assert_eq!(
        Token {
            kind: TokenKind::LParen,
            loc: SrcLocation { line: 1, col: 1 }
        },
        token
    );
}

#[test]
fn it_lexes_a_right_paren() {
    let input = ")".to_string();

    let token = Tokenizer::new(&input)
        .next_token()
        .expect("failed to lex a right paren");

    assert_eq!(
        Token {
            kind: TokenKind::RParen,
            loc: SrcLocation { line: 1, col: 1 }
        },
        token
    );
}

#[test]
fn it_lexes_strings() {
    let input = "\"hello world!\"".to_string();

    let token = Tokenizer::new(&input)
        .next_token()
        .expect("failed to lex strings");

    assert_eq!(
        Token {
            kind: TokenKind::String("hello world!".to_string()),
            loc: SrcLocation { line: 1, col: 14 }
        },
        token
    );
}

#[test]
fn it_lexes_strings_with_escapes() {
    let input = r#" "hello\nworld\t  \"!" "#.to_string();

    let token = Tokenizer::new(&input)
        .next_token()
        .expect("failed to lex strings");

    assert_eq!(
        Token {
            kind: TokenKind::String("hello\nworld\t  \"!".to_string()),
            loc: SrcLocation { line: 1, col: 22 }
        },
        token
    );
}

#[test]
fn it_ignores_unknown_escapes() {
    let input = "\"hello\\\u{e7}world!\"".to_string();

    let token = Tokenizer::new(&input)
        .next_token()
        .expect("failed to lex strings");

    assert_eq!(
        Token {
            kind: TokenKind::String("hello\u{e7}world!".to_string()),
            loc: SrcLocation { line: 1, col: 15 }
        },
        token
    );
}

#[test]
fn it_parses_unterminated_string() {
    let input = "\"hello\\".to_string();

    let token = Tokenizer::new(&input)
        .next_token()
        .expect("failed to lex unterminated string");

    assert_eq!(
        Token {
            kind: TokenKind::UnterminatedString("hello".to_string()),
            loc: SrcLocation { line: 1, col: 7 }
        },
        token
    );
}

#[test]
fn it_parses_simple_numbers() {
    let input = "123".to_string();

    let token = classify(
        Tokenizer::new(&input)
            .next_token()
            .expect("failed to lex number"),
    );

    assert_eq!(
        Token {
            kind: TokenKind::Number(123.0f64.to_bits()),
            loc: SrcLocation { line: 1, col: 3 }
        },
        token
    );
}

#[test]
fn it_parses_numbers_with_dot() {
    let input = "123.123".to_string();

    let token = classify(
        Tokenizer::new(&input)
            .next_token()
            .expect("failed to lex number"),
    );

    assert_eq!(
        Token {
            kind: TokenKind::Number(123.123f64.to_bits()),
            loc: SrcLocation { line: 1, col: 7 }
        },
        token
    );
}

#[test]
fn it_parses_negative_numbers() {
    let input = "-123".to_string();

    let token = classify(
        Tokenizer::new(&input)
            .next_token()
            .expect("failed to lex number"),
    );

    assert_eq!(
        Token {
            kind: TokenKind::Number((-123.0f64).to_bits()),
            loc: SrcLocation { line: 1, col: 4 }
        },
        token
    );
}

#[test]
fn it_stop_parsing_ids_on_whitespace() {
    let input = "someId other".to_string();

    let token = Tokenizer::new(&input)
        .next_token()
        .expect("failed to lex number");

    assert_eq!(
        Token {
            kind: TokenKind::Id("someId".to_string()),
            loc: SrcLocation { line: 1, col: 6 }
        },
        token
    );
}

#[test]
fn it_stop_parsing_ids_on_r_paren() {
    let input = "someId(other".to_string();

    let token = Tokenizer::new(&input)
        .next_token()
        .expect("failed to lex number");

    assert_eq!(
        Token {
            kind: TokenKind::Id("someId".to_string()),
            loc: SrcLocation { line: 1, col: 6 }
        },
        token
    );
}

#[test]
fn it_stop_parsing_ids_on_l_paren() {
    let input = "someId)other".to_string();

    let token = Tokenizer::new(&input)
        .next_token()
        .expect("failed to lex number");

    assert_eq!(
        Token {
            kind: TokenKind::Id("someId".to_string()),
            loc: SrcLocation { line: 1, col: 6 }
        },
        token
    );
}

#[test]
fn it_stop_parsing_ids_on_comment() {
    let input = "someId;other".to_string();

    let token = Tokenizer::new(&input)
        .next_token()
        .expect("failed to lex number");

    assert_eq!(
        Token {
            kind: TokenKind::Id("someId".to_string()),
            loc: SrcLocation { line: 1, col: 6 }
        },
        token
    );
}

#[test]
fn old_tokenize_splits_words_parens_and_commas() {
    let words = tokenize("(+ 1,2)".to_string());

    assert_eq!(
        vec![
            "(".to_string(),
            "+".to_string(),
            "1".to_string(),
            "2".to_string(),
            ")".to_string()
        ],
        words
    );
}
