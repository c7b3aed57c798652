//! What repeated calls yield: the sequence of tokens of a text, and what
//! holds of it whatever the text.

use vstd::prelude::*;
use crate::lang::scan::{
    blank, eol_label, fixed_symbol, lemma_end_of_input, lemma_run_end, line_break, member,
    next_position, next_token_spec, run_end, span, symbol_kind, token_at, token_end, token_start,
    CharClass,
};
use crate::lang::token::{TokenType, TokenView};

verus! {

/// Where the cursor stands after `n` tokens have been taken from `pos`.
pub open spec fn position_after(s: Seq<char>, pos: int, n: nat) -> int
    decreases n,
{
    if n == 0 {
        pos
    } else {
        position_after(s, next_position(s, pos), (n - 1) as nat)
    }
}

/// The token that the call number `n`, counted from 0, yields when the
/// first call starts at `pos`.
pub open spec fn nth_token(s: Seq<char>, pos: int, n: nat) -> TokenView {
    next_token_spec(s, position_after(s, pos, n))
}

/// The tokens that calls from `pos` on yield before the end of input.
pub open spec fn tokens_from(s: Seq<char>, pos: int) -> Seq<TokenView>
    decreases s.len() - pos,
    via tokens_from_terminates
{
    if next_token_spec(s, pos).token_type == TokenType::EOF {
        Seq::empty()
    } else {
        seq![next_token_spec(s, pos)].add(tokens_from(s, next_position(s, pos)))
    }
}

#[via_fn]
proof fn tokens_from_terminates(s: Seq<char>, pos: int) {
    lemma_end_of_input(s, pos);
}

/// The tokens of the whole text `s`.
pub open spec fn tokens(s: Seq<char>) -> Seq<TokenView> {
    tokens_from(s, 0)
}

/// Once a call has yielded the end-of-input token, the cursor rests: the
/// next call starts where that one did not move from, and yields the same.
pub proof fn lemma_end_of_input_rests(s: Seq<char>, pos: int)
    requires
        next_token_spec(s, pos).token_type == TokenType::EOF,
    ensures
        next_position(s, next_position(s, pos)) == next_position(s, pos),
        next_token_spec(s, next_position(s, pos)) == next_token_spec(s, pos),
{
    lemma_end_of_input(s, pos);
    lemma_run_end(s, token_start(s, pos), CharClass::Blank);
}

/// The cursor never moves back.
pub proof fn lemma_position_after_grows(s: Seq<char>, pos: int, n: nat)
    ensures
        pos <= position_after(s, pos, n),
    decreases n,
{
    if n > 0 {
        lemma_end_of_input(s, pos);
        lemma_position_after_grows(s, next_position(s, pos), (n - 1) as nat);
    }
}

/// Taking one more token after `n` is a step from where `n` tokens led.
pub proof fn lemma_position_after_step(s: Seq<char>, pos: int, n: nat)
    ensures
        position_after(s, pos, n + 1) == next_position(s, position_after(s, pos, n)),
    decreases n,
{
    let next = next_position(s, pos);
    assert(position_after(s, pos, (n + 1) as nat) == position_after(s, next, n));
    if n > 0 {
        lemma_position_after_step(s, next, (n - 1) as nat);
    } else {
        assert(position_after(s, next, 0) == next);
    }
}

/// The end of input is final: if call `k` yields the end-of-input token,
/// every later call yields it too, and the cursor stays where call `k`
/// left it.
pub proof fn law_end_of_input_is_final(s: Seq<char>, pos: int, k: nat, n: nat)
    requires
        nth_token(s, pos, k).token_type == TokenType::EOF,
        k <= n,
    ensures
        nth_token(s, pos, n) == nth_token(s, pos, k),
        nth_token(s, pos, n).token_type == TokenType::EOF,
        position_after(s, pos, n + 1) == position_after(s, pos, k + 1),
    decreases n - k,
{
    if k < n {
        law_end_of_input_is_final(s, pos, k, (n - 1) as nat);
        lemma_position_after_step(s, pos, (n - 1) as nat);
        lemma_position_after_step(s, pos, n);
        lemma_end_of_input_rests(s, position_after(s, pos, (n - 1) as nat));
    }
}

/// `tokens_from` lists what the calls yield, in their order: its entry `i`
/// is the token of call `i`, and the call behind its last entry yields the
/// end-of-input token.
pub proof fn lemma_tokens_from_are_the_calls(s: Seq<char>, pos: int)
    ensures
        forall|i: nat|
            i < tokens_from(s, pos).len() ==> tokens_from(s, pos)[i as int] == #[trigger] nth_token(
                s,
                pos,
                i,
            ) && nth_token(s, pos, i).token_type != TokenType::EOF,
        nth_token(s, pos, tokens_from(s, pos).len()).token_type == TokenType::EOF,
    decreases s.len() - pos,
{
    if next_token_spec(s, pos).token_type != TokenType::EOF {
        lemma_end_of_input(s, pos);
        let next = next_position(s, pos);
        lemma_tokens_from_are_the_calls(s, next);
        assert forall|i: nat| i < tokens_from(s, pos).len() implies tokens_from(s, pos)[i as int]
            == #[trigger] nth_token(s, pos, i) && nth_token(s, pos, i).token_type
            != TokenType::EOF by {
            if i > 0 {
                assert(nth_token(s, pos, i) == nth_token(s, next, (i - 1) as nat));
            }
        }
        assert(nth_token(s, pos, tokens_from(s, pos).len()) == nth_token(
            s,
            next,
            tokens_from(s, next).len(),
        ));
    }
}

/// The token of a fixed symbol: its kind, and the symbol as its literal.
pub open spec fn symbol_token(c: char) -> TokenView {
    TokenView { token_type: symbol_kind(c), literal: seq![c] }
}

proof fn lemma_symbols_from(s: Seq<char>, pos: int)
    requires
        0 <= pos <= s.len(),
        forall|i: int| 0 <= i < s.len() ==> fixed_symbol(#[trigger] s[i]),
    ensures
        tokens_from(s, pos).len() == s.len() - pos,
        forall|i: int|
            0 <= i < s.len() - pos ==> #[trigger] tokens_from(s, pos)[i] == symbol_token(
                s[pos + i],
            ),
    decreases s.len() - pos,
{
    if pos < s.len() {
        assert(fixed_symbol(s[pos]));
        assert(token_start(s, pos) == pos);
        lemma_symbols_from(s, pos + 1);
        let rest = tokens_from(s, pos + 1);
        assert(tokens_from(s, pos) == seq![symbol_token(s[pos])].add(rest));
        assert forall|i: int| 0 <= i < s.len() - pos implies #[trigger] tokens_from(s, pos)[i]
            == symbol_token(s[pos + i]) by {
            if i > 0 {
                assert(tokens_from(s, pos)[i] == rest[i - 1]);
            }
        }
    }
}

/// A text that holds fixed symbols only gives one token for each of its
/// characters, in the order of the text: the token of character `i` has the
/// kind of that symbol and the symbol itself as its literal.
pub proof fn law_symbols_one_token_each(s: Seq<char>)
    requires
        forall|i: int| 0 <= i < s.len() ==> fixed_symbol(#[trigger] s[i]),
    ensures
        tokens(s).len() == s.len(),
        forall|i: int| 0 <= i < s.len() ==> #[trigger] tokens(s)[i] == symbol_token(s[i]),
{
    lemma_symbols_from(s, 0);
}

/// What a character of the text leaves in the literals: a blank nothing, a
/// line break the label of the end-of-line token, any other character
/// itself.
pub open spec fn rendered(c: char) -> Seq<char> {
    if blank(c) {
        Seq::empty()
    } else if line_break(c) {
        eol_label()
    } else {
        seq![c]
    }
}

/// The characters of `s` from `pos` on, each as `rendered` gives it, in one
/// sequence.
pub open spec fn rendered_from(s: Seq<char>, pos: int) -> Seq<char>
    decreases s.len() - pos,
{
    if 0 <= pos < s.len() {
        rendered(s[pos]) + rendered_from(s, pos + 1)
    } else {
        Seq::empty()
    }
}

/// The literals of `ts`, one behind the other.
pub open spec fn literals(ts: Seq<TokenView>) -> Seq<char>
    decreases ts.len(),
{
    if ts.len() == 0 {
        Seq::empty()
    } else {
        ts[0].literal + literals(ts.drop_first())
    }
}

/// Blanks leave nothing: rendering from `pos` is rendering from the first
/// position behind the blanks.
proof fn lemma_rendered_skips_blanks(s: Seq<char>, pos: int)
    requires
        0 <= pos,
    ensures
        rendered_from(s, pos) == rendered_from(s, token_start(s, pos)),
    decreases s.len() - pos,
{
    if pos < s.len() && blank(s[pos]) {
        lemma_rendered_skips_blanks(s, pos + 1);
    }
}

/// A run of letters or of digits is rendered as it stands.
proof fn lemma_rendered_run(s: Seq<char>, pos: int, class: CharClass)
    requires
        0 <= pos,
        class != CharClass::Blank,
    ensures
        rendered_from(s, pos) == span(s, pos, run_end(s, pos, class)) + rendered_from(
            s,
            run_end(s, pos, class),
        ),
    decreases s.len() - pos,
{
    lemma_run_end(s, pos, class);
    if pos < s.len() && member(class, s[pos]) {
        lemma_rendered_run(s, pos + 1, class);
        lemma_run_end(s, pos + 1, class);
        let end = run_end(s, pos, class);
        assert(span(s, pos, end) == seq![s[pos]] + span(s, pos + 1, end));
    } else {
        assert(span(s, pos, pos) + rendered_from(s, pos) == rendered_from(s, pos));
    }
}

proof fn lemma_literals_from(s: Seq<char>, pos: int)
    requires
        0 <= pos,
    ensures
        literals(tokens_from(s, pos)) == rendered_from(s, pos),
    decreases s.len() - pos,
{
    lemma_end_of_input(s, pos);
    lemma_rendered_skips_blanks(s, pos);
    let start = token_start(s, pos);
    if next_token_spec(s, pos).token_type != TokenType::EOF {
        let token = token_at(s, start);
        let end = token_end(s, start);
        let rest = tokens_from(s, end);
        lemma_literals_from(s, end);
        assert(tokens_from(s, pos) == seq![token].add(rest));
        assert(tokens_from(s, pos).drop_first() == rest);
        assert(literals(tokens_from(s, pos)) == token.literal + literals(rest));
        assert(rendered_from(s, start) == token.literal + rendered_from(s, end)) by {
            lemma_run_end(s, pos, CharClass::Blank);
            lemma_rendered_run(s, start, CharClass::Letter);
            lemma_rendered_run(s, start, CharClass::Digit);
        }
    }
}

/// Reading the literals back: the literals of the tokens of a text, put
/// together in order, are the text with its spaces and tabs left out and
/// with the end-of-line label in place of each carriage return and line
/// feed. Every other character, an unrecognised one too, stands as it was.
pub proof fn law_literals_render_text(s: Seq<char>)
    ensures
        literals(tokens(s)) == rendered_from(s, 0),
{
    lemma_literals_from(s, 0);
}

} // verus!
