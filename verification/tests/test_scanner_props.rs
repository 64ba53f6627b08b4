use photonix::lexer::{Lexer, LexerError};
use photonix::token::Token;
use photonix::token_def::TokenType;

fn drain(lexer: &mut Lexer) -> Result<Vec<Token>, LexerError> {
    let mut tokens = Vec::new();
    while let Some(token) = lexer.lex_next()? {
        tokens.push(token);
    }
    Ok(tokens)
}

#[test]
fn scanner_line_is_one_plus_newlines_before_token() {
    let input = "1\n2\n\n3 4\n";
    let mut lexer = Lexer::new(input.to_string());
    let tokens = drain(&mut lexer).unwrap();
    assert_eq!(tokens.len(), 4);
    for token in tokens {
        let newlines = input
            .chars()
            .take(token.pos)
            .filter(|c| *c == '\n')
            .count();
        assert_eq!(token.line, 1 + newlines);
    }
}

#[test]
fn scanner_positions_index_first_characters() {
    let input = "  12 +ab";
    let mut lexer = Lexer::new(input.to_string());
    let tokens = drain(&mut lexer).unwrap();
    assert_eq!(tokens.len(), 3);
    assert_eq!(tokens[0].pos, 2);
    assert_eq!(tokens[0].token_type, TokenType::Number(12));
    assert_eq!(tokens[1].pos, 5);
    assert_eq!(tokens[1].token_type, TokenType::Plus);
    assert_eq!(tokens[2].pos, 6);
    assert_eq!(tokens[2].token_type, TokenType::Identifier("ab".to_string()));
}

#[test]
fn scanner_unknown_character_reports_index_and_text() {
    let input = "12 ©";
    let mut lexer = Lexer::new(input.to_string());
    let first = lexer.lex_next().unwrap().unwrap();
    assert_eq!(first.token_type, TokenType::Number(12));
    let error = lexer.lex_next().unwrap_err();
    assert_eq!(error.position(), 3);
    assert_eq!(error.line(), 1);
    assert_eq!(error.content().as_str(), "©");
}

#[test]
fn scanner_failing_rescan_reproduces_the_error() {
    let mut lexer = Lexer::new("\n ©".to_string());
    let first = lexer.lex_next().unwrap_err();
    let second = lexer.lex_next().unwrap_err();
    let third = lexer.lex_next().unwrap_err();
    assert_eq!(first, second);
    assert_eq!(first, third);
    assert_eq!(first.position(), 2);
    assert_eq!(first.line(), 2);
}

#[test]
fn scanner_error_message_format() {
    let mut lexer = Lexer::new("\n\n   ©".to_string());
    let error = lexer.lex_next().unwrap_err();
    assert_eq!(
        error.message(),
        "Unknown token at line 3 position 5: '©'"
    );
}

#[test]
fn scanner_first_match_wins_over_identifier() {
    // "void" is a registered literal, so it is matched before identifier
    // lexing even when more identifier characters follow it.
    let mut lexer = Lexer::new("voidx".to_string());
    let tokens = drain(&mut lexer).unwrap();
    assert_eq!(tokens.len(), 2);
    assert_eq!(tokens[0].token_type, TokenType::Keyword("void".to_string()));
    assert_eq!(tokens[0].pos, 0);
    assert_eq!(tokens[1].token_type, TokenType::Identifier("x".to_string()));
    assert_eq!(tokens[1].pos, 4);
}

#[test]
fn scanner_empty_and_whitespace_inputs_yield_no_token() {
    let mut lexer = Lexer::new(String::new());
    assert_eq!(lexer.lex_next().unwrap(), None);
    let mut lexer = Lexer::new("  \n\t ".to_string());
    assert_eq!(lexer.lex_next().unwrap(), None);
    assert_eq!(lexer.lex_next().unwrap(), None);
}

#[test]
fn scanner_number_without_spaces_around_operators() {
    let mut lexer = Lexer::new("1+2".to_string());
    let tokens = drain(&mut lexer).unwrap();
    assert_eq!(tokens.len(), 3);
    assert_eq!(tokens[0].token_type, TokenType::Number(1));
    assert_eq!(tokens[1].token_type, TokenType::Plus);
    assert_eq!(tokens[2].token_type, TokenType::Number(2));
}
