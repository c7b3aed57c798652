use minilang::lang::token::{
    create_token, create_token_char, create_token_string, lookup_identifier, TokenType,
};

#[test]
fn create_token_copies_the_text() {
    let token = create_token(TokenType::EOL, "EOL");
    assert_eq!(token.token_type, TokenType::EOL);
    assert_eq!(token.literal, "EOL");
    let token = create_token(TokenType::ILLEGAL, "");
    assert_eq!(token.token_type, TokenType::ILLEGAL);
    assert_eq!(token.literal, "");
}

#[test]
fn create_token_string_keeps_the_text() {
    let token = create_token_string(TokenType::INT, String::from("1234"));
    assert_eq!(token.token_type, TokenType::INT);
    assert_eq!(token.literal, "1234");
}

#[test]
fn create_token_char_holds_the_character() {
    let token = create_token_char(TokenType::PLUS, '+');
    assert_eq!(token.token_type, TokenType::PLUS);
    assert_eq!(token.literal, "+");
    let token = create_token_char(TokenType::ILLEGAL, '\u{4e16}');
    assert_eq!(token.token_type, TokenType::ILLEGAL);
    assert_eq!(token.literal, "\u{4e16}");
    assert_eq!(token.literal.chars().count(), 1);
}

#[test]
fn lookup_identifier_knows_the_three_keywords() {
    let token = lookup_identifier(String::from("fun"));
    assert_eq!(token.token_type, TokenType::FUNCTION);
    assert_eq!(token.literal, "fun");
    let token = lookup_identifier(String::from("let"));
    assert_eq!(token.token_type, TokenType::LET);
    assert_eq!(token.literal, "let");
    let token = lookup_identifier(String::from("return"));
    assert_eq!(token.token_type, TokenType::RETURN);
    assert_eq!(token.literal, "return");
}

#[test]
fn lookup_identifier_takes_anything_else_as_identifier() {
    for text in ["five", "func", "le", "Return", "_", "", "fun "] {
        let token = lookup_identifier(String::from(text));
        assert_eq!(token.token_type, TokenType::IDENTIFIER);
        assert_eq!(token.literal, text);
    }
}

#[test]
fn token_kinds_are_distinct() {
    let kinds = [
        TokenType::ILLEGAL,
        TokenType::EOF,
        TokenType::EOL,
        TokenType::IDENTIFIER,
        TokenType::INT,
        TokenType::ASSIGN,
        TokenType::PLUS,
        TokenType::LPAREN,
        TokenType::RPAREN,
        TokenType::LBRACE,
        TokenType::RBRACE,
        TokenType::COMMA,
        TokenType::LET,
        TokenType::FUNCTION,
        TokenType::RETURN,
    ];
    for (i, a) in kinds.iter().enumerate() {
        for (j, b) in kinds.iter().enumerate() {
            assert_eq!(a == b, i == j);
        }
    }
    assert_eq!(format!("{:?}", TokenType::LPAREN), "LPAREN");
}
