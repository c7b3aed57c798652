//! Tokens: a kind tag and the text that produced it.

use vstd::prelude::*;

verus! {

/// The closed set of token kinds.
#[derive(Debug, Clone, Copy, PartialEq, Eq, Structural)]
pub enum TokenType {
    ILLEGAL,
    EOF,
    EOL,
    IDENTIFIER,
    INT,
    ASSIGN,
    PLUS,
    LPAREN,
    RPAREN,
    LBRACE,
    RBRACE,
    COMMA,
    LET,
    FUNCTION,
    RETURN,
}

/// One lexical unit: its kind and its literal text.
pub struct Token {
    pub token_type: TokenType,
    pub literal: String,
}

/// The mathematical value of a [`Token`]: the kind and the literal as a
/// sequence of characters.
pub struct TokenView {
    pub token_type: TokenType,
    pub literal: Seq<char>,
}

impl View for Token {
    type V = TokenView;

    open spec fn view(&self) -> TokenView {
        TokenView { token_type: self.token_type, literal: self.literal@ }
    }
}

/// The text of the keyword that introduces a function.
pub open spec fn keyword_fun() -> Seq<char> {
    seq!['f', 'u', 'n']
}

/// The text of the keyword that introduces a binding.
pub open spec fn keyword_let() -> Seq<char> {
    seq!['l', 'e', 't']
}

/// The text of the keyword that returns from a function.
pub open spec fn keyword_return() -> Seq<char> {
    seq!['r', 'e', 't', 'u', 'r', 'n']
}

/// The kind of a letter run: one of the three keywords, or an identifier.
pub open spec fn identifier_kind(text: Seq<char>) -> TokenType {
    if text == keyword_fun() {
        TokenType::FUNCTION
    } else if text == keyword_let() {
        TokenType::LET
    } else if text == keyword_return() {
        TokenType::RETURN
    } else {
        TokenType::IDENTIFIER
    }
}

/// Builds a token of the given kind from borrowed text.
pub fn create_token(token_type: TokenType, literal: &str) -> (token: Token)
    ensures
        token@ == (TokenView { token_type, literal: literal@ }),
{
    Token { token_type, literal: literal.to_owned() }
}

/// Builds a token of the given kind from owned text.
pub fn create_token_string(token_type: TokenType, literal: String) -> (token: Token)
    ensures
        token@ == (TokenView { token_type, literal: literal@ }),
{
    Token { token_type, literal }
}

/// Calls `char::to_string` of std. Taken on trust, not proved: the string
/// it returns holds the character `c` and nothing else.
#[verifier::external_body]
fn char_to_string(c: char) -> (s: String)
    ensures
        s@ == seq![c],
{
    c.to_string()
}

/// Builds a token of the given kind whose literal is a single character.
pub fn create_token_char(token_type: TokenType, c: char) -> (token: Token)
    ensures
        token@ == (TokenView { token_type, literal: seq![c] }),
{
    Token { token_type, literal: char_to_string(c) }
}

/// Resolves a scanned letter run against the keyword table. The literal is
/// always the scanned text itself.
pub fn lookup_identifier(identifier: String) -> (token: Token)
    ensures
        token@ == (TokenView {
            token_type: identifier_kind(identifier@),
            literal: identifier@,
        }),
{
    proof {
        reveal_strlit("fun");
        reveal_strlit("let");
        reveal_strlit("return");
        assert("fun"@ =~= keyword_fun());
        assert("let"@ =~= keyword_let());
        assert("return"@ =~= keyword_return());
    }
    let token_type = if identifier == String::from_str("fun") {
        TokenType::FUNCTION
    } else if identifier == String::from_str("let") {
        TokenType::LET
    } else if identifier == String::from_str("return") {
        TokenType::RETURN
    } else {
        TokenType::IDENTIFIER
    };
    create_token_string(token_type, identifier)
}

} // verus!
