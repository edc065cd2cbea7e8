use lana::lana_err::LanaErr;
use lana::lana_expr::LanaExpr;
use lana::lexer::{SrcLocation, Token, TokenKind};
use lana::parser::{parse, parse_all};

#[test]
fn parser_it_parses_nil() {
    let input = vec![Token::new(
        TokenKind::Id("nil".into()),
        SrcLocation::new(1, 3),
    )];

    let (result, _) = parse(&input).expect("Could not parse nil");

    assert_eq!(LanaExpr::Nil, result);
}

#[test]
fn it_parses_a_number() {
    let input = vec![Token::new(
        TokenKind::Number(1.0f64.to_bits()),
        SrcLocation::new(1, 3),
    )];

    let (result, _) = parse(&input).expect("Could not parse number");

    assert_eq!(LanaExpr::Number(1.0f64.to_bits()), result);
}

#[test]
fn mod_it_parses_nil() {
    let input = vec![Token::new(
        TokenKind::Id("nil".into()),
        SrcLocation::new(1, 3),
    )];

    let (result, _) = parse(&input).expect("Could not parse nil");

    assert_eq!(LanaExpr::Nil, result);
}

#[test]
fn it_parses_false() {
    let input = vec![Token::new(
        TokenKind::Id("false".into()),
        SrcLocation::new(1, 3),
    )];

    let (result, _) = parse(&input).expect("Could not parse false");

    assert_eq!(LanaExpr::Bool(false), result);
}

#[test]
fn it_parses_true() {
    let input = vec![Token::new(
        TokenKind::Id("true".into()),
        SrcLocation::new(1, 3),
    )];

    let (result, _) = parse(&input).expect("Could not parse true");

    assert_eq!(LanaExpr::Bool(true), result);
}

#[test]
fn it_parses_ids() {
    let input = vec![
        Token::new(TokenKind::Id("my-var".into()), SrcLocation::new(1, 5)),
        Token::new(TokenKind::Id("my_var".into()), SrcLocation::new(2, 5)),
    ];

    let result = parse_all(&input).expect("Could not parse id");

    assert_eq!(
        vec![
            LanaExpr::Symbol("my-var".to_string()),
            LanaExpr::Symbol("my_var".to_string())
        ],
        result
    );
}

#[test]
fn it_parses_keywords() {
    let input = vec![
        Token::new(TokenKind::Id(":my-var".into()), SrcLocation::new(1, 6)),
        Token::new(TokenKind::Id(":1".into()), SrcLocation::new(2, 2)),
    ];

    let result = parse_all(&input).expect("Could not parse id");

    assert_eq!(
        vec![
            LanaExpr::Keyword(":my-var".to_string()),
            LanaExpr::Keyword(":1".to_string())
        ],
        result
    );
}

#[test]
fn it_parses_numbers() {
    let input = vec![
        Token::new(TokenKind::Number(1.0f64.to_bits()), SrcLocation::new(1, 3)),
        Token::new(
            TokenKind::Number((-1.0f64).to_bits()),
            SrcLocation::new(2, 3),
        ),
    ];

    let tokens = parse_all(&input).expect("Could not parse number");

    assert_eq!(
        vec![
            LanaExpr::Number(1.0f64.to_bits()),
            LanaExpr::Number((-1.0f64).to_bits())
        ],
        tokens
    );
}

#[test]
fn it_parses_strings() {
    let input = vec![Token::new(
        TokenKind::String("hello world".into()),
        SrcLocation::new(1, 11),
    )];

    let (result, _) = parse(&input).expect("Could not parse string");

    assert_eq!(LanaExpr::String("hello world".into()), result);
}

#[test]
fn it_parses_an_empty_list() {
    let input = vec![
        Token::new(TokenKind::LParen, SrcLocation::new(1, 1)),
        Token::new(TokenKind::RParen, SrcLocation::new(1, 2)),
    ];

    let result = parse_all(&input).expect("Could not parse empty list");

    assert_eq!(vec![LanaExpr::List(vec![])], result);
}

#[test]
fn it_parses_a_list() {
    let input = vec![
        Token::new(TokenKind::LParen, SrcLocation::new(1, 1)),
        Token::new(TokenKind::Number(1.0f64.to_bits()), SrcLocation::new(1, 2)),
        Token::new(TokenKind::RParen, SrcLocation::new(1, 3)),
    ];

    let result = parse_all(&input).expect("Could not parse a list");

    assert_eq!(
        vec![LanaExpr::List(vec![LanaExpr::Number(1.0f64.to_bits())])],
        result
    );
}

#[test]
fn it_errors_on_unterminated_lists() {
    let opening_paren = Token::new(TokenKind::LParen, SrcLocation::new(1, 1));
    let input = vec![
        opening_paren.clone(),
        Token::new(TokenKind::Number(1.0f64.to_bits()), SrcLocation::new(1, 2)),
    ];

    let result = parse_all(&input).expect_err("Didn't fail on unterminated list");

    assert_eq!(LanaErr::UnterminatedExpr(')', opening_paren), result);
}

#[test]
fn it_errors_on_unterminated_strings() {
    let unterminated_string = Token::new(
        TokenKind::UnterminatedString("\"unterminated".to_string()),
        SrcLocation::new(1, 1),
    );
    let input = vec![unterminated_string.clone()];

    let result = parse_all(&input).expect_err("Didn't fail on unterminated string");

    assert_eq!(LanaErr::UnterminatedExpr('"', unterminated_string), result);
}

#[test]
fn it_errors_on_unexpected_parethesis() {
    let input = vec![Token::new(TokenKind::RParen, SrcLocation::new(1, 1))];

    let result = parse_all(&input).expect_err("Didn't failed on unexpected token");

    assert_eq!(
        LanaErr::UnexpectedToken(Token::new(TokenKind::RParen, SrcLocation::new(1, 1))),
        result
    );
}
