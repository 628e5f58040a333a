use rski::parser::{Parser, Token};

fn test_parser(token_seq: &str, expected: &Vec<Token>) {
    let parser = Parser::new(token_seq);
    let actual = parser.parse().unwrap();
    assert_eq!(actual, *expected);
}

fn test_parser_fails(token_seq: &str) {
    let parser = Parser::new(token_seq);
    match parser.parse() {
        Ok(_) => panic!("Expected combinator {} to fail parsing", token_seq),
        _ => (),
    }
}

#[test]
fn test_parser_no_nested() {
    let combinator = "SKSKI";
    let expected = vec![Token::I, Token::K, Token::S, Token::K, Token::S];
    test_parser(combinator, &expected);
}

#[test]
fn test_parser_nested() {
    let combinator = "S(S(I(SK)S))(SK)";
    let expected = vec![
        Token::make_nested(vec![Token::K, Token::S]),
        Token::make_nested(vec![
            Token::make_nested(vec![
                Token::S,
                Token::make_nested(vec![Token::K, Token::S]),
                Token::I,
            ]),
            Token::S,
        ]),
        Token::S,
    ];
    test_parser(combinator, &expected);
}

#[test]
fn test_parser_lowercasee() {
    let combinator = "s(ks)i";
    let expected = vec![
        Token::I,
        Token::make_nested(vec![Token::S, Token::K]),
        Token::S,
    ];
    test_parser(combinator, &expected);
}

#[test]
fn test_parser_fails_unrecognized_character() {
    test_parser_fails("s(sk)abc");
}

#[test]
fn test_parser_fails_too_many_open_parens() {
    test_parser_fails("(((SKS");
}

#[test]
fn test_parser_fails_not_enough_closed_parens() {
    test_parser_fails("((S)");
}
