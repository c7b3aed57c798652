//! The tokenizer as mathematics: what the token at a position of a character
//! sequence is, and where the scan for the one after it begins.

use vstd::prelude::*;
use crate::lang::token::{identifier_kind, TokenType, TokenView};

verus! {

/// The three classes of characters that are scanned as runs.
pub enum CharClass {
    Blank,
    Letter,
    Digit,
}

/// Space and tab separate tokens. Carriage return and line feed do not
/// belong here: each of them is a token.
pub open spec fn blank(c: char) -> bool {
    c == ' ' || c == '\t'
}

/// ASCII letters and the underscore.
pub open spec fn letter(c: char) -> bool {
    'a' <= c <= 'z' || 'A' <= c <= 'Z' || c == '_'
}

/// ASCII decimal digits.
pub open spec fn digit(c: char) -> bool {
    '0' <= c <= '9'
}

/// Whether `c` belongs to `class`.
pub open spec fn member(class: CharClass, c: char) -> bool {
    match class {
        CharClass::Blank => blank(c),
        CharClass::Letter => letter(c),
        CharClass::Digit => digit(c),
    }
}

/// The character at index `i`, or NUL where `i` is out of bounds.
pub open spec fn char_at(s: Seq<char>, i: int) -> char {
    if 0 <= i < s.len() {
        s[i]
    } else {
        '\0'
    }
}

/// The characters of `s` from `start` up to `end`; empty where the two do
/// not delimit a part of `s`.
pub open spec fn span(s: Seq<char>, start: int, end: int) -> Seq<char> {
    if 0 <= start <= end <= s.len() {
        s.subrange(start, end)
    } else {
        Seq::empty()
    }
}

/// The end of the longest run of characters of `class` that starts at `pos`:
/// the first index from `pos` on that is out of bounds or holds a character
/// of another class.
pub open spec fn run_end(s: Seq<char>, pos: int, class: CharClass) -> int
    decreases s.len() - pos,
{
    if 0 <= pos < s.len() && member(class, s[pos]) {
        run_end(s, pos + 1, class)
    } else {
        pos
    }
}

/// The literal of every end-of-line token.
pub open spec fn eol_label() -> Seq<char> {
    seq!['E', 'O', 'L']
}

/// The literal of every end-of-input token.
pub open spec fn eof_label() -> Seq<char> {
    seq!['E', 'O', 'F']
}

/// The kind of a token that consists of the single character `c`, which is
/// neither blank, nor a line break, nor a letter, nor a digit.
pub open spec fn symbol_kind(c: char) -> TokenType {
    if c == '=' {
        TokenType::ASSIGN
    } else if c == '+' {
        TokenType::PLUS
    } else if c == '(' {
        TokenType::LPAREN
    } else if c == ')' {
        TokenType::RPAREN
    } else if c == '{' {
        TokenType::LBRACE
    } else if c == '}' {
        TokenType::RBRACE
    } else if c == ',' {
        TokenType::COMMA
    } else {
        TokenType::ILLEGAL
    }
}

/// Whether `c` is one of the fixed one-character symbols.
pub open spec fn fixed_symbol(c: char) -> bool {
    symbol_kind(c) != TokenType::ILLEGAL
}

/// Whether `c` is a carriage return or a line feed.
pub open spec fn line_break(c: char) -> bool {
    c == '\r' || c == '\n'
}

/// The token that begins at `start`, the first position that holds no blank.
/// Out of bounds it is the end-of-input token. An unrecognised character
/// gives an `ILLEGAL` token that carries the character.
pub open spec fn token_at(s: Seq<char>, start: int) -> TokenView {
    if !(0 <= start < s.len()) {
        TokenView { token_type: TokenType::EOF, literal: eof_label() }
    } else if line_break(s[start]) {
        TokenView { token_type: TokenType::EOL, literal: eol_label() }
    } else if letter(s[start]) {
        let text = span(s, start, run_end(s, start, CharClass::Letter));
        TokenView { token_type: identifier_kind(text), literal: text }
    } else if digit(s[start]) {
        let text = span(s, start, run_end(s, start, CharClass::Digit));
        TokenView { token_type: TokenType::INT, literal: text }
    } else {
        TokenView { token_type: symbol_kind(s[start]), literal: seq![s[start]] }
    }
}

/// The position behind the token that begins at `start`. The end-of-input
/// token consumes nothing.
pub open spec fn token_end(s: Seq<char>, start: int) -> int {
    if !(0 <= start < s.len()) {
        start
    } else if letter(s[start]) {
        run_end(s, start, CharClass::Letter)
    } else if digit(s[start]) {
        run_end(s, start, CharClass::Digit)
    } else {
        start + 1
    }
}

/// Where the token begins that a scan from `pos` finds: behind the blanks.
pub open spec fn token_start(s: Seq<char>, pos: int) -> int {
    run_end(s, pos, CharClass::Blank)
}

/// The token that a scan from `pos` yields.
pub open spec fn next_token_spec(s: Seq<char>, pos: int) -> TokenView {
    token_at(s, token_start(s, pos))
}

/// The position at which the scan for the following token begins.
pub open spec fn next_position(s: Seq<char>, pos: int) -> int {
    token_end(s, token_start(s, pos))
}

/// NUL, the character that stands for "out of bounds", belongs to no class.
pub proof fn lemma_nul_in_no_class(class: CharClass)
    ensures
        !member(class, '\0'),
{
}

/// A run is what its name says: it begins at `pos`, stays within the text,
/// holds only characters of the class, and the character behind it (NUL
/// where the text ends) is of another class.
pub proof fn lemma_run_end(s: Seq<char>, pos: int, class: CharClass)
    ensures
        pos <= run_end(s, pos, class),
        run_end(s, pos, class) <= s.len() || run_end(s, pos, class) == pos,
        forall|i: int|
            pos <= i < run_end(s, pos, class) ==> 0 <= i < s.len() && #[trigger] member(
                class,
                s[i],
            ),
        !member(class, char_at(s, run_end(s, pos, class))),
    decreases s.len() - pos,
{
    if 0 <= pos < s.len() && member(class, s[pos]) {
        lemma_run_end(s, pos + 1, class);
    }
}

/// Only one position ends the run from `pos`: a position `end` from which
/// back to `pos` all characters are of the class, and whose own character
/// is not, is the end of that run.
pub proof fn lemma_run_end_unique(s: Seq<char>, pos: int, end: int, class: CharClass)
    requires
        pos <= end,
        forall|i: int| pos <= i < end ==> 0 <= i < s.len() && #[trigger] member(class, s[i]),
        !member(class, char_at(s, end)),
    ensures
        run_end(s, pos, class) == end,
    decreases end - pos,
{
    if pos < end {
        assert(member(class, s[pos]));
        lemma_run_end_unique(s, pos + 1, end, class);
    }
}

/// Scanning a run from any position inside it ends where the run ends.
pub proof fn lemma_run_end_within(s: Seq<char>, pos: int, mid: int, class: CharClass)
    requires
        pos <= mid <= run_end(s, pos, class),
    ensures
        run_end(s, mid, class) == run_end(s, pos, class),
{
    lemma_run_end(s, pos, class);
    lemma_run_end_unique(s, mid, run_end(s, pos, class), class);
}

/// Behind a token that is not the end of input the scan has moved on, and
/// it has not left the text.
pub proof fn lemma_token_end(s: Seq<char>, start: int)
    requires
        0 <= start < s.len(),
    ensures
        start < token_end(s, start) <= s.len(),
{
    lemma_run_end(s, start, CharClass::Letter);
    lemma_run_end(s, start, CharClass::Digit);
}

/// The end-of-input token comes exactly where the scan finds no character.
pub proof fn lemma_end_of_input(s: Seq<char>, pos: int)
    ensures
        next_token_spec(s, pos).token_type == TokenType::EOF <==> !(0 <= token_start(s, pos)
            < s.len()),
        pos <= token_start(s, pos) <= next_position(s, pos),
        0 <= token_start(s, pos) < s.len() ==> token_start(s, pos) < next_position(s, pos)
            <= s.len(),
{
    lemma_run_end(s, pos, CharClass::Blank);
    let start = token_start(s, pos);
    if 0 <= start < s.len() {
        lemma_token_end(s, start);
    }
}

/// A token that begins with a letter is the longest run of letters and
/// underscores from there: its literal is that part of the text, no digit
/// is in it, and no letter follows it.
pub proof fn lemma_word_token(s: Seq<char>, start: int)
    requires
        0 <= start < s.len(),
        letter(s[start]),
    ensures
        token_at(s, start).literal == s.subrange(start, token_end(s, start)),
        token_at(s, start).token_type == identifier_kind(token_at(s, start).literal),
        forall|i: int|
            0 <= i < token_at(s, start).literal.len() ==> letter(
                #[trigger] token_at(s, start).literal[i],
            ) && !digit(token_at(s, start).literal[i]),
        !letter(char_at(s, token_end(s, start))),
{
    lemma_run_end(s, start, CharClass::Letter);
    let text = token_at(s, start).literal;
    assert forall|i: int| 0 <= i < text.len() implies letter(#[trigger] text[i]) && !digit(
        text[i],
    ) by {
        assert(member(CharClass::Letter, s[start + i]));
    }
}

/// A token that begins with a digit is the longest run of digits from
/// there: an `INT` whose literal is that part of the text, with no digit
/// behind it.
pub proof fn lemma_number_token(s: Seq<char>, start: int)
    requires
        0 <= start < s.len(),
        digit(s[start]),
    ensures
        token_at(s, start).literal == s.subrange(start, token_end(s, start)),
        token_at(s, start).token_type == TokenType::INT,
        forall|i: int|
            0 <= i < token_at(s, start).literal.len() ==> digit(
                #[trigger] token_at(s, start).literal[i],
            ),
        !digit(char_at(s, token_end(s, start))),
{
    lemma_run_end(s, start, CharClass::Digit);
    let text = token_at(s, start).literal;
    assert forall|i: int| 0 <= i < text.len() implies digit(#[trigger] text[i]) by {
        assert(member(CharClass::Digit, s[start + i]));
    }
}

} // verus!
