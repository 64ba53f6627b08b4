use photonix::ast::AstNode;
use photonix::lexer::Lexer;
use photonix::parser::{Parser, ParserError};
use photonix::token::Token;
use photonix::token_def::TokenType;

fn parse_input(input: &str) -> Result<AstNode, ParserError> {
    let lexer = Lexer::new(input.to_string());
    let mut parser = Parser::new(lexer).unwrap();
    parser.parse()
}

fn int_node(value: i64) -> Box<AstNode> {
    Box::new(AstNode::Int(value))
}

fn op_token(pos: usize, line: usize, token_type: TokenType) -> Box<Token> {
    Box::new(Token {
        pos,
        line,
        token_type,
    })
}

#[test]
fn parser_precedence_multiplication_binds_tighter() {
    let tree = parse_input("2 + 3 * 4").unwrap();
    let expected = AstNode::BinaryOperation {
        op: op_token(2, 1, TokenType::Plus),
        left: int_node(2),
        right: Box::new(AstNode::BinaryOperation {
            op: op_token(6, 1, TokenType::Multiply),
            left: int_node(3),
            right: int_node(4),
        }),
    };
    assert_eq!(tree, expected);
}

#[test]
fn parser_subtraction_is_left_associative() {
    let tree = parse_input("8 - 3 - 2").unwrap();
    let expected = AstNode::BinaryOperation {
        op: op_token(6, 1, TokenType::Minus),
        left: Box::new(AstNode::BinaryOperation {
            op: op_token(2, 1, TokenType::Minus),
            left: int_node(8),
            right: int_node(3),
        }),
        right: int_node(2),
    };
    assert_eq!(tree, expected);
}

#[test]
fn parser_division_is_left_associative() {
    let tree = parse_input("8 / 2 / 2").unwrap();
    let expected = AstNode::BinaryOperation {
        op: op_token(6, 1, TokenType::Divide),
        left: Box::new(AstNode::BinaryOperation {
            op: op_token(2, 1, TokenType::Divide),
            left: int_node(8),
            right: int_node(2),
        }),
        right: int_node(2),
    };
    assert_eq!(tree, expected);
}

#[test]
fn parser_grouping_overrides_precedence() {
    let tree = parse_input("(2 + 3) * 4").unwrap();
    let expected = AstNode::BinaryOperation {
        op: op_token(8, 1, TokenType::Multiply),
        left: Box::new(AstNode::BinaryOperation {
            op: op_token(3, 1, TokenType::Plus),
            left: int_node(2),
            right: int_node(3),
        }),
        right: int_node(4),
    };
    assert_eq!(tree, expected);
}

#[test]
fn parser_single_number() {
    assert_eq!(parse_input("42").unwrap(), AstNode::Int(42));
    assert_eq!(parse_input("0").unwrap(), AstNode::Int(0));
    assert_eq!(
        parse_input("9223372036854775807").unwrap(),
        AstNode::Int(i64::MAX)
    );
}

#[test]
fn parser_nested_brackets() {
    let tree = parse_input("((7))").unwrap();
    assert_eq!(tree, AstNode::Int(7));
}

#[test]
fn parser_unexpected_end_of_input() {
    let err = parse_input("2 +").unwrap_err();
    match err {
        ParserError::Syntax(e) => {
            assert_eq!(e.expected, None);
            assert_eq!(e.found, None);
            assert_eq!(e.pos, 3);
            assert_eq!(e.line, 1);
        }
        other => panic!("expected a syntax error, got {:?}", other),
    }
}

#[test]
fn parser_trailing_number_is_unexpected() {
    let err = parse_input("2 3").unwrap_err();
    match err {
        ParserError::Syntax(e) => {
            assert_eq!(e.expected, None);
            assert_eq!(
                e.found,
                Some(Token {
                    pos: 2,
                    line: 1,
                    token_type: TokenType::Number(3)
                })
            );
            assert_eq!(e.pos, 2);
        }
        other => panic!("expected a syntax error, got {:?}", other),
    }
}

#[test]
fn parser_missing_right_bracket() {
    let err = parse_input("(2 + 3").unwrap_err();
    match err {
        ParserError::Syntax(e) => {
            assert_eq!(e.expected, Some(TokenType::RightBracket));
            assert_eq!(e.found, None);
            assert_eq!(e.pos, 6);
        }
        other => panic!("expected a syntax error, got {:?}", other),
    }
}

#[test]
fn parser_leading_operator_is_unexpected() {
    let err = parse_input("* 2").unwrap_err();
    match err {
        ParserError::Syntax(e) => {
            assert_eq!(e.expected, None);
            assert_eq!(
                e.found,
                Some(Token {
                    pos: 0,
                    line: 1,
                    token_type: TokenType::Multiply
                })
            );
        }
        other => panic!("expected a syntax error, got {:?}", other),
    }
}

#[test]
fn parser_lex_error_propagates() {
    let err = parse_input("2 + ©").unwrap_err();
    match err {
        ParserError::Lex(e) => {
            assert_eq!(e.position(), 4);
            assert_eq!(e.line(), 1);
            assert_eq!(e.content().as_str(), "©");
        }
        other => panic!("expected a lex error, got {:?}", other),
    }
}

#[test]
fn parser_rejects_trailing_right_bracket() {
    // Inside the grammar a closing bracket is consumed by the enclosing
    // factor; at the top level nothing encloses the expression, so a trailing
    // unmatched bracket is unconsumed input and a parse error.
    let err = parse_input("2)").unwrap_err();
    match err {
        ParserError::Syntax(e) => {
            assert_eq!(e.expected, None);
            assert_eq!(
                e.found,
                Some(Token {
                    pos: 1,
                    line: 1,
                    token_type: TokenType::RightBracket
                })
            );
            assert_eq!(e.pos, 1);
            assert_eq!(e.line, 1);
        }
        other => panic!("expected a syntax error, got {:?}", other),
    }
}

#[test]
fn parser_rejects_trailing_input_after_complete_expression() {
    let err = parse_input("(1 + 2) * 3)").unwrap_err();
    match err {
        ParserError::Syntax(e) => {
            assert_eq!(e.expected, None);
            assert_eq!(
                e.found,
                Some(Token {
                    pos: 11,
                    line: 1,
                    token_type: TokenType::RightBracket
                })
            );
        }
        other => panic!("expected a syntax error, got {:?}", other),
    }
}

#[test]
fn parser_new_fails_on_immediate_lex_error() {
    let lexer = Lexer::new("§".to_string());
    let err = match Parser::new(lexer) {
        Err(e) => e,
        Ok(_) => panic!("expected priming the lookahead to fail"),
    };
    assert_eq!(err.position(), 0);
    assert_eq!(err.content().as_str(), "§");
}
