use alang::lexer::{extract_token_stream, LexerError};
use alang::token::Token;

#[test]
fn lexer_test_extract_token_stream() {
    let tests: Vec<&'static str> = vec!["1 + 1", "-1 + 1", "5 * 1 + 1", "5 * 1 / 1", "(5 + 5)", "2 ^ 2"];
    let expectations: Vec<Vec<Token>> = vec![
        vec![Token::I32(1), Token::Plus, Token::I32(1)],
        vec![Token::Minus, Token::I32(1), Token::Plus, Token::I32(1)],
        vec![
            Token::I32(5),
            Token::Star,
            Token::I32(1),
            Token::Plus,
            Token::I32(1),
        ],
        vec![
            Token::I32(5),
            Token::Star,
            Token::I32(1),
            Token::Slash,
            Token::I32(1),
        ],
        vec![
            Token::OpenParen,
            Token::I32(5),
            Token::Plus,
            Token::I32(5),
            Token::CloseParen,
        ],
        vec![Token::I32(2), Token::Caret, Token::I32(2)],
    ];

    for idx in 0..tests.len() {
        let input = tests[idx];
        let expected = expectations[idx].clone();

        let output = extract_token_stream(input.to_string()).unwrap();
        assert_eq!(output, expected);
    }
}

#[test]
fn mod_test_extract_token_stream() {
    let tests: Vec<&'static str> = vec![
        "10",
        "1 + 1",
        "-1 + 1",
        "5 * 1 + 1",
        "5 * 1 / 1",
        "(5 + 5)",
        "2 ^ 2",
        "10.0",
        "let a = 1",
    ];
    let expectations: Vec<Vec<Token>> = vec![
        vec![Token::I32(10)],
        vec![Token::I32(1), Token::Plus, Token::I32(1)],
        vec![Token::Minus, Token::I32(1), Token::Plus, Token::I32(1)],
        vec![
            Token::I32(5),
            Token::Star,
            Token::I32(1),
            Token::Plus,
            Token::I32(1),
        ],
        vec![
            Token::I32(5),
            Token::Star,
            Token::I32(1),
            Token::Slash,
            Token::I32(1),
        ],
        vec![
            Token::OpenParen,
            Token::I32(5),
            Token::Plus,
            Token::I32(5),
            Token::CloseParen,
        ],
        vec![Token::I32(2), Token::Caret, Token::I32(2)],
        vec![Token::F32(10.0f32.to_bits())],
        vec![
            Token::Let,
            Token::Ident("a".into()),
            Token::Assign,
            Token::I32(1),
        ],
    ];

    for idx in 0..tests.len() {
        let input = tests[idx];
        let expected = expectations[idx].clone();

        let output = extract_token_stream(input.to_string()).unwrap();
        assert_eq!(output, expected);
    }
}

#[test]
fn float_literal_bits_are_exact() {
    let tokens = extract_token_stream("10.5".to_string()).unwrap();
    assert_eq!(tokens, vec![Token::F32(10.5f32.to_bits())]);
}

#[test]
fn float_literal_with_trailing_dot() {
    let tokens = extract_token_stream("1.".to_string()).unwrap();
    assert_eq!(tokens, vec![Token::F32(1.0f32.to_bits())]);
}

#[test]
fn oversized_integer_literal_is_rejected() {
    let err = extract_token_stream("99999999999999".to_string()).unwrap_err();
    assert_eq!(
        err,
        LexerError::InvalidInputChar("99999999999999".to_string())
    );
}

#[test]
fn unusual_characters_become_identifiers() {
    let tokens = extract_token_stream("abc $".to_string()).unwrap();
    assert_eq!(
        tokens,
        vec![Token::Ident("abc".to_string()), Token::Ident("$".to_string())]
    );
}

#[test]
fn let_prefix_of_a_word_is_an_identifier() {
    let tokens = extract_token_stream("lets".to_string()).unwrap();
    assert_eq!(tokens, vec![Token::Ident("lets".to_string())]);
}
