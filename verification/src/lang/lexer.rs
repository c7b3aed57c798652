//! The tokenizer: a cursor over the source text that hands out one token
//! per call.

use vstd::prelude::*;
use vstd::string::StrSliceExecFns;
use crate::lang::scan::{
    char_at, digit, eof_label, eol_label, letter, next_position, next_token_spec, run_end, span,
    CharClass,
};
use crate::lang::token::{
    create_token, create_token_char, create_token_string, lookup_identifier, Token, TokenType,
};

verus! {

/// A tokenizer over one source text. `current_char` is the character under
/// the cursor, NUL once the cursor has left the text.
pub struct Lexer {
    pub input: String,
    pub current_position: usize,
    pub read_position: usize,
    pub current_char: char,
}

/// Whether `ch` is an ASCII letter or the underscore.
pub fn is_letter(ch: char) -> (b: bool)
    ensures
        b == letter(ch),
{
    ch >= 'a' && ch <= 'z' || ch >= 'A' && ch <= 'Z' || ch == '_'
}

/// Whether `ch` is an ASCII decimal digit.
pub fn is_digit(ch: char) -> (b: bool)
    ensures
        b == digit(ch),
{
    ch >= '0' && ch <= '9'
}

impl Lexer {
    /// The state between two calls: the read cursor is one ahead of the
    /// current one, and the loaded character is the one under the cursor.
    /// The text leaves room for the position behind its last character.
    pub open spec fn wf(&self) -> bool {
        &&& self.input@.len() < usize::MAX
        &&& self.read_position == self.current_position + 1
        &&& self.current_char == char_at(self.input@, self.current_position as int)
    }

    /// A tokenizer at the start of `input`, its first character loaded.
    /// The cursor counts one position beyond the last character, so the
    /// text must be shorter than `usize::MAX` characters.
    pub fn new(input: &str) -> (lexer: Lexer)
        requires
            input@.len() < usize::MAX,
        ensures
            lexer.wf(),
            lexer.input@ == input@,
            lexer.current_position == 0,
    {
        let mut lexer = Lexer {
            input: input.to_owned(),
            current_position: 0,
            read_position: 0,
            current_char: '\0',
        };
        lexer.read_char();
        lexer
    }

    /// Moves the cursor one character on: loads the character at the read
    /// position, NUL out of bounds, and advances both positions. Positions
    /// count characters, not bytes.
    pub fn read_char(&mut self)
        requires
            old(self).read_position < usize::MAX,
        ensures
            final(self).input == old(self).input,
            final(self).current_position == old(self).read_position,
            final(self).read_position == old(self).read_position + 1,
            final(self).current_char == char_at(old(self).input@, old(self).read_position as int),
    {
        if self.read_position >= self.input.as_str().unicode_len() {
            self.current_char = '\0';
        } else {
            self.current_char = self.input.as_str().get_char(self.read_position);
        }
        self.current_position = self.read_position;
        self.read_position += 1;
    }

    /// Moves the cursor over spaces and tabs.
    pub fn skip_whitespace(&mut self)
        requires
            old(self).wf(),
        ensures
            final(self).wf(),
            final(self).input == old(self).input,
            final(self).current_position == run_end(
                old(self).input@,
                old(self).current_position as int,
                CharClass::Blank,
            ),
    {
        while self.current_char == ' ' || self.current_char == '\t'
            invariant
                self.wf(),
                self.input == old(self).input,
                run_end(self.input@, self.current_position as int, CharClass::Blank) == run_end(
                    old(self).input@,
                    old(self).current_position as int,
                    CharClass::Blank,
                ),
            decreases self.input@.len() - self.current_position,
        {
            self.read_char();
        }
    }

    /// Scans the longest run of letters and underscores from the cursor and
    /// returns its text.
    pub fn read_identifier(&mut self) -> (text: String)
        requires
            old(self).wf(),
        ensures
            final(self).wf(),
            final(self).input == old(self).input,
            final(self).current_position == run_end(
                old(self).input@,
                old(self).current_position as int,
                CharClass::Letter,
            ),
            text@ == span(
                old(self).input@,
                old(self).current_position as int,
                final(self).current_position as int,
            ),
    {
        let start_position = self.current_position;
        while is_letter(self.current_char)
            invariant
                self.wf(),
                self.input == old(self).input,
                start_position == old(self).current_position,
                start_position <= self.current_position,
                self.current_position <= self.input@.len() || self.current_position
                    == start_position,
                run_end(self.input@, self.current_position as int, CharClass::Letter) == run_end(
                    old(self).input@,
                    old(self).current_position as int,
                    CharClass::Letter,
                ),
            decreases self.input@.len() - self.current_position,
        {
            self.read_char();
        }
        self.text_from(start_position)
    }

    /// Scans the longest run of decimal digits from the cursor and returns
    /// its text.
    pub fn read_integer(&mut self) -> (text: String)
        requires
            old(self).wf(),
        ensures
            final(self).wf(),
            final(self).input == old(self).input,
            final(self).current_position == run_end(
                old(self).input@,
                old(self).current_position as int,
                CharClass::Digit,
            ),
            text@ == span(
                old(self).input@,
                old(self).current_position as int,
                final(self).current_position as int,
            ),
    {
        let start_position = self.current_position;
        while is_digit(self.current_char)
            invariant
                self.wf(),
                self.input == old(self).input,
                start_position == old(self).current_position,
                start_position <= self.current_position,
                self.current_position <= self.input@.len() || self.current_position
                    == start_position,
                run_end(self.input@, self.current_position as int, CharClass::Digit) == run_end(
                    old(self).input@,
                    old(self).current_position as int,
                    CharClass::Digit,
                ),
            decreases self.input@.len() - self.current_position,
        {
            self.read_char();
        }
        self.text_from(start_position)
    }

    /// The text between `start_position` and the cursor.
    fn text_from(&self, start_position: usize) -> (text: String)
        requires
            start_position <= self.current_position,
            self.current_position <= self.input@.len() || self.current_position
                == start_position,
        ensures
            text@ == span(self.input@, start_position as int, self.current_position as int),
    {
        if start_position == self.current_position {
            String::new()
        } else {
            self.input.as_str().substring_char(start_position, self.current_position).to_owned()
        }
    }

    /// Skips blanks, scans one token from the cursor and leaves the cursor
    /// behind it. At the end of the text the token is `EOF` and the cursor
    /// stays.
    pub fn next_token(&mut self) -> (token: Token)
        requires
            old(self).wf(),
        ensures
            final(self).wf(),
            final(self).input == old(self).input,
            token@ == next_token_spec(old(self).input@, old(self).current_position as int),
            final(self).current_position == next_position(
                old(self).input@,
                old(self).current_position as int,
            ),
    {
        self.skip_whitespace();

        let c = self.current_char;
        if c == '\0' && self.current_position >= self.input.as_str().unicode_len() {
            proof {
                reveal_strlit("EOF");
                assert("EOF"@ =~= eof_label());
            }
            return create_token(TokenType::EOF, "EOF");
        }
        let token = match c {
            '=' => create_token_char(TokenType::ASSIGN, c),
            '+' => create_token_char(TokenType::PLUS, c),
            '(' => create_token_char(TokenType::LPAREN, c),
            ')' => create_token_char(TokenType::RPAREN, c),
            '{' => create_token_char(TokenType::LBRACE, c),
            '}' => create_token_char(TokenType::RBRACE, c),
            ',' => create_token_char(TokenType::COMMA, c),
            '\r' | '\n' => {
                proof {
                    reveal_strlit("EOL");
                    assert("EOL"@ =~= eol_label());
                }
                create_token(TokenType::EOL, "EOL")
            },
            _ => {
                if is_letter(c) {
                    let identifier = self.read_identifier();
                    return lookup_identifier(identifier);
                } else if is_digit(c) {
                    let integer = self.read_integer();
                    return create_token_string(TokenType::INT, integer);
                } else {
                    create_token_char(TokenType::ILLEGAL, c)
                }
            },
        };

        self.read_char();

        token
    }
}

} // verus!
