use alang::ast::{ASTNode, Operator};
use alang::lexer::extract_token_stream;
use alang::parser::{parse, ParserError};
use alang::token::Token;

fn parse_line(line: &str) -> Result<ASTNode, ParserError> {
    parse(extract_token_stream(line.to_string()).unwrap())
}

#[test]
fn test_parser() {
    let tokens_tests: Vec<Vec<Token>> = vec![
        vec![Token::I32(1), Token::Plus, Token::I32(1)],
        vec![
            Token::I32(1),
            Token::Plus,
            Token::I32(1),
            Token::Star,
            Token::I32(2),
        ],
        // should parse the unary expression
        vec![
            Token::Minus,
            Token::I32(1),
            Token::Plus,
            Token::I32(1),
            Token::Slash,
            Token::I32(2),
        ],
        vec![Token::Minus, Token::I32(1), Token::Minus, Token::I32(1)],
        vec![
            Token::I32(10),
            Token::Slash,
            Token::OpenParen,
            Token::I32(90),
            Token::Plus,
            Token::I32(8),
            Token::CloseParen,
        ],
        vec![Token::I32(2), Token::Caret, Token::I32(2)],
    ];

    let expected_outputs: Vec<ASTNode> = vec![
        ASTNode::BinaryExpr {
            op: Operator::Plus,
            lhs: Box::new(ASTNode::I32(1)),
            rhs: Box::new(ASTNode::I32(1)),
        },
        ASTNode::BinaryExpr {
            op: Operator::Plus,
            lhs: Box::new(ASTNode::I32(1)),
            rhs: Box::new(ASTNode::BinaryExpr {
                op: Operator::Multiplication,
                lhs: Box::new(ASTNode::I32(1)),
                rhs: Box::new(ASTNode::I32(2)),
            }),
        },
        ASTNode::BinaryExpr {
            op: Operator::Plus,
            lhs: Box::new(ASTNode::UnaryExpr {
                op: Operator::Negative,
                inner: Box::new(ASTNode::I32(1)),
            }),
            rhs: Box::new(ASTNode::BinaryExpr {
                op: Operator::Division,
                lhs: Box::new(ASTNode::I32(1)),
                rhs: Box::new(ASTNode::I32(2)),
            }),
        },
        ASTNode::BinaryExpr {
            op: Operator::Minus,
            lhs: Box::new(ASTNode::UnaryExpr {
                op: Operator::Negative,
                inner: Box::new(ASTNode::I32(1)),
            }),
            rhs: Box::new(ASTNode::I32(1)),
        },
        ASTNode::BinaryExpr {
            op: Operator::Division,
            lhs: Box::new(ASTNode::I32(10)),
            rhs: Box::new(ASTNode::BinaryExpr {
                op: Operator::Plus,
                lhs: Box::new(ASTNode::I32(90)),
                rhs: Box::new(ASTNode::I32(8)),
            }),
        },
        ASTNode::BinaryExpr {
            op: Operator::Exponential,
            lhs: Box::new(ASTNode::I32(2)),
            rhs: Box::new(ASTNode::I32(2)),
        },
    ];

    for (tokens_to_test, expected_ast) in tokens_tests.into_iter().zip(expected_outputs) {
        let output_ast = parse(tokens_to_test).unwrap();
        assert_eq!(output_ast, expected_ast);
    }
}

#[test]
fn parentheses_override_precedence() {
    // "(1+1)*2" groups the sum first, whatever the precedence table says.
    let output = parse_line("(1+1)*2").unwrap();
    let expected = ASTNode::BinaryExpr {
        op: Operator::Multiplication,
        lhs: Box::new(ASTNode::BinaryExpr {
            op: Operator::Plus,
            lhs: Box::new(ASTNode::I32(1)),
            rhs: Box::new(ASTNode::I32(1)),
        }),
        rhs: Box::new(ASTNode::I32(2)),
    };
    assert_eq!(output, expected);
}

#[test]
fn multiplication_binds_tighter_than_addition() {
    let output = parse_line("1 + 1 * 2").unwrap();
    let expected = ASTNode::BinaryExpr {
        op: Operator::Plus,
        lhs: Box::new(ASTNode::I32(1)),
        rhs: Box::new(ASTNode::BinaryExpr {
            op: Operator::Multiplication,
            lhs: Box::new(ASTNode::I32(1)),
            rhs: Box::new(ASTNode::I32(2)),
        }),
    };
    assert_eq!(output, expected);
}

#[test]
fn unary_binds_tighter_than_binary() {
    let output = parse_line("-1 + 1").unwrap();
    let expected = ASTNode::BinaryExpr {
        op: Operator::Plus,
        lhs: Box::new(ASTNode::UnaryExpr {
            op: Operator::Negative,
            inner: Box::new(ASTNode::I32(1)),
        }),
        rhs: Box::new(ASTNode::I32(1)),
    };
    assert_eq!(output, expected);
}

#[test]
fn let_statement_parses_to_assignment() {
    let output = parse_line("let a = 1").unwrap();
    let expected = ASTNode::BinaryExpr {
        op: Operator::Assign,
        lhs: Box::new(ASTNode::Ident("a".to_string())),
        rhs: Box::new(ASTNode::I32(1)),
    };
    assert_eq!(output, expected);
}

#[test]
fn missing_closing_parenthesis_is_reported() {
    assert_eq!(
        parse_line("(5 + 5").unwrap_err(),
        ParserError::ExpectedClosingParent
    );
}

#[test]
fn stray_closing_parenthesis_leaves_the_stream() {
    assert_eq!(
        parse_line("1)").unwrap_err(),
        ParserError::TokenStreamNotEmpty
    );
}

#[test]
fn operator_where_a_primary_is_expected() {
    assert_eq!(
        parse_line("1 + * 2").unwrap_err(),
        ParserError::UnexpectedToken(Token::Star)
    );
}

#[test]
fn operand_where_an_operator_is_expected() {
    assert_eq!(
        parse_line("1 2").unwrap_err(),
        ParserError::UnexpectedToken(Token::I32(2))
    );
}

#[test]
fn dangling_operator_fails_the_reduction() {
    assert_eq!(
        parse_line("1 +").unwrap_err(),
        ParserError::FailedToParseAllOperators
    );
}

#[test]
fn empty_input_yields_no_tree() {
    assert_eq!(
        parse(vec![]).unwrap_err(),
        ParserError::FailedToParseAllOperators
    );
}

#[test]
fn let_without_identifier_is_rejected() {
    assert_eq!(
        parse_line("let 5").unwrap_err(),
        ParserError::ExpectedIdentifier
    );
}

#[test]
fn assignment_target_must_be_an_identifier() {
    assert_eq!(
        parse_line("1 = 2").unwrap_err(),
        ParserError::ExpectedIdentifier
    );
}

#[test]
fn same_precedence_chains_reduce_left_to_right() {
    let output = parse_line("1 - 2 + 3").unwrap();
    let expected = ASTNode::BinaryExpr {
        op: Operator::Plus,
        lhs: Box::new(ASTNode::BinaryExpr {
            op: Operator::Minus,
            lhs: Box::new(ASTNode::I32(1)),
            rhs: Box::new(ASTNode::I32(2)),
        }),
        rhs: Box::new(ASTNode::I32(3)),
    };
    assert_eq!(output, expected);

    let output = parse_line("8 / 2 * 4").unwrap();
    let expected = ASTNode::BinaryExpr {
        op: Operator::Multiplication,
        lhs: Box::new(ASTNode::BinaryExpr {
            op: Operator::Division,
            lhs: Box::new(ASTNode::I32(8)),
            rhs: Box::new(ASTNode::I32(2)),
        }),
        rhs: Box::new(ASTNode::I32(4)),
    };
    assert_eq!(output, expected);
}

#[test]
fn assignment_binds_looser_than_arithmetic() {
    // The sum on the left reduces before the assignment, whose target is
    // then no identifier.
    assert_eq!(
        parse_line("a + b = 2").unwrap_err(),
        ParserError::ExpectedIdentifier
    );
}

#[test]
fn assignment_binds_to_the_right() {
    let output = parse_line("a = b = 2").unwrap();
    let expected = ASTNode::BinaryExpr {
        op: Operator::Assign,
        lhs: Box::new(ASTNode::Ident("a".to_string())),
        rhs: Box::new(ASTNode::BinaryExpr {
            op: Operator::Assign,
            lhs: Box::new(ASTNode::Ident("b".to_string())),
            rhs: Box::new(ASTNode::I32(2)),
        }),
    };
    assert_eq!(output, expected);
}
