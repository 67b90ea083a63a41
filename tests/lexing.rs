use mini_regex::lexer::{tokenize, Token};

#[test]
fn tokens_of_a_pattern() {
    assert_eq!(
        tokenize("[a]\\d+(x|y)?$^.*"),
        vec![
            Token::LBRACKET,
            Token::CHAR('a'),
            Token::RBRACKET,
            Token::DIGIT,
            Token::PLUS,
            Token::LPAREN,
            Token::CHAR('x'),
            Token::OR,
            Token::CHAR('y'),
            Token::RPAREN,
            Token::QUESTIONMARK,
            Token::CASH,
            Token::CARET,
            Token::DOT,
            Token::STAR,
        ]
    );
}

#[test]
fn escapes_in_tokens() {
    assert_eq!(tokenize("\\w"), vec![Token::WORD]);
    assert_eq!(tokenize("\\q"), vec![Token::CHAR('\\'), Token::CHAR('q')]);
    assert_eq!(tokenize("dw"), vec![Token::CHAR('d'), Token::CHAR('w')]);
    assert_eq!(tokenize(""), vec![]);
}
