//! Blanks between tokens do not count: putting spaces and tabs in between
//! two tokens of a text leaves its tokens as they were.

use vstd::prelude::*;
use crate::lang::scan::{
    blank, char_at, lemma_end_of_input, lemma_run_end, lemma_run_end_unique, member,
    next_position, next_token_spec, run_end, span, token_at, token_end, token_start, CharClass,
};
use crate::lang::stream::{lemma_position_after_grows, position_after, tokens, tokens_from};
use crate::lang::token::TokenType;

verus! {

/// The text `s` with the characters `ws` put in before index `p`.
pub open spec fn with_inserted(s: Seq<char>, p: int, ws: Seq<char>) -> Seq<char> {
    s.subrange(0, p) + ws + s.subrange(p, s.len() as int)
}

/// Whether `ws` holds spaces and tabs only.
pub open spec fn all_blank(ws: Seq<char>) -> bool {
    forall|i: int| 0 <= i < ws.len() ==> blank(#[trigger] ws[i])
}

/// Whether `p` lies in the gap that follows the first `n` tokens from
/// `pos`: at or behind the end of the last of them, and at or before the
/// beginning of the token that comes next.
pub open spec fn in_gap_after(s: Seq<char>, pos: int, n: nat, p: int) -> bool {
    position_after(s, pos, n) <= p <= token_start(s, position_after(s, pos, n))
}

/// Whether `p` is a position between two tokens of `s`, the beginning and
/// the end of the text included: no token has characters on both sides of
/// it.
pub open spec fn between_tokens(s: Seq<char>, p: int) -> bool {
    exists|n: nat| in_gap_after(s, 0, n, p)
}

/// `t` is `s` up to `p`.
spec fn same_before(s: Seq<char>, t: Seq<char>, p: int) -> bool {
    &&& 0 <= p <= s.len()
    &&& p <= t.len()
    &&& forall|i: int| 0 <= i < p ==> #[trigger] t[i] == s[i]
}

/// `t` is `s` from `p` on, moved `k` places to the right.
spec fn same_behind(s: Seq<char>, t: Seq<char>, p: int, k: int) -> bool {
    &&& 0 <= p <= s.len()
    &&& 0 <= k
    &&& t.len() == s.len() + k
    &&& forall|i: int| p + k <= i < t.len() ==> #[trigger] t[i] == s[i - k]
}

proof fn lemma_with_inserted(s: Seq<char>, p: int, ws: Seq<char>)
    requires
        0 <= p <= s.len(),
    ensures
        same_before(s, with_inserted(s, p, ws), p),
        same_behind(s, with_inserted(s, p, ws), p, ws.len() as int),
        forall|i: int|
            p <= i < p + ws.len() ==> #[trigger] with_inserted(s, p, ws)[i] == ws[i - p],
{
}

/// A run of `s` that `t` repeats, and that ends in `t` where it ends in `s`,
/// is a run of `t`.
proof fn lemma_run_end_repeated(s: Seq<char>, t: Seq<char>, pos: int, class: CharClass)
    requires
        0 <= pos,
        forall|i: int|
            pos <= i < run_end(s, pos, class) ==> i < t.len() && #[trigger] t[i] == s[i],
        !member(class, char_at(t, run_end(s, pos, class))),
    ensures
        run_end(t, pos, class) == run_end(s, pos, class),
{
    lemma_run_end(s, pos, class);
    let end = run_end(s, pos, class);
    assert forall|i: int| pos <= i < end implies 0 <= i < t.len() && #[trigger] member(
        class,
        t[i],
    ) by {
        assert(member(class, s[i]));
        assert(t[i] == s[i]);
    }
    lemma_run_end_unique(t, pos, end, class);
}

/// A run of `s` behind `p` is a run of `t`, `k` places to the right.
proof fn lemma_run_end_moved(
    s: Seq<char>,
    t: Seq<char>,
    p: int,
    k: int,
    pos: int,
    class: CharClass,
)
    requires
        same_behind(s, t, p, k),
        p <= pos,
    ensures
        run_end(t, pos + k, class) == run_end(s, pos, class) + k,
{
    lemma_run_end(s, pos, class);
    let end = run_end(s, pos, class);
    assert forall|i: int| pos + k <= i < end + k implies 0 <= i < t.len() && #[trigger] member(
        class,
        t[i],
    ) by {
        assert(member(class, s[i - k]));
        assert(t[i] == s[i - k]);
    }
    if end < s.len() {
        assert(t[end + k] == s[end + k - k]);
    }
    lemma_run_end_unique(t, pos + k, end + k, class);
}

/// A part of `s` behind `p` is a part of `t`, `k` places to the right.
proof fn lemma_span_moved(s: Seq<char>, t: Seq<char>, p: int, k: int, start: int, end: int)
    requires
        same_behind(s, t, p, k),
        p <= start,
    ensures
        span(t, start + k, end + k) == span(s, start, end),
{
    let moved = span(t, start + k, end + k);
    let part = span(s, start, end);
    assert(moved.len() == part.len());
    assert forall|i: int| 0 <= i < part.len() implies moved[i] == part[i] by {
        assert(t[start + k + i] == s[start + k + i - k]);
    }
    assert(moved =~= part);
}

/// The token of `s` that begins at `start`, behind `p`, is the token of `t`
/// `k` places to the right.
proof fn lemma_token_moved(s: Seq<char>, t: Seq<char>, p: int, k: int, start: int)
    requires
        same_behind(s, t, p, k),
        p <= start,
    ensures
        token_at(t, start + k) == token_at(s, start),
        token_end(t, start + k) == token_end(s, start) + k,
{
    if start < s.len() {
        assert(t[start + k] == s[start + k - k]);
        lemma_run_end_moved(s, t, p, k, start, CharClass::Letter);
        lemma_run_end_moved(s, t, p, k, start, CharClass::Digit);
        lemma_run_end(s, start, CharClass::Letter);
        lemma_run_end(s, start, CharClass::Digit);
        let letters = run_end(s, start, CharClass::Letter);
        let digits = run_end(s, start, CharClass::Digit);
        lemma_span_moved(s, t, p, k, start, letters);
        lemma_span_moved(s, t, p, k, start, digits);
    }
}

/// Behind `p` the tokens of `t` are those of `s`.
proof fn lemma_tokens_moved(s: Seq<char>, t: Seq<char>, p: int, k: int, pos: int)
    requires
        same_behind(s, t, p, k),
        p <= pos,
    ensures
        tokens_from(t, pos + k) == tokens_from(s, pos),
    decreases s.len() - pos,
{
    lemma_run_end_moved(s, t, p, k, pos, CharClass::Blank);
    lemma_end_of_input(s, pos);
    lemma_end_of_input(t, pos + k);
    let start = token_start(s, pos);
    lemma_token_moved(s, t, p, k, start);
    if next_token_spec(s, pos).token_type != TokenType::EOF {
        lemma_tokens_moved(s, t, p, k, next_position(s, pos));
    }
}

/// The scan for a token begins behind the blanks, wherever among them it
/// sets out.
proof fn lemma_tokens_from_gap(s: Seq<char>, pos: int, mid: int)
    requires
        pos <= mid <= token_start(s, pos),
    ensures
        tokens_from(s, mid) == tokens_from(s, pos),
{
    lemma_run_end(s, pos, CharClass::Blank);
    lemma_run_end_unique(s, mid, token_start(s, pos), CharClass::Blank);
}

/// A token of `s` that ends at or before `p` is a token of `t`, where `t`
/// repeats `s` up to `p` and goes on with a character that continues no
/// run of `s`.
proof fn lemma_token_repeated(s: Seq<char>, t: Seq<char>, p: int, pos: int)
    requires
        same_before(s, t, p),
        blank(char_at(t, p)),
        0 <= pos,
        next_token_spec(s, pos).token_type != TokenType::EOF,
        next_position(s, pos) <= p,
    ensures
        next_token_spec(t, pos) == next_token_spec(s, pos),
        next_position(t, pos) == next_position(s, pos),
{
    lemma_end_of_input(s, pos);
    lemma_run_end(s, pos, CharClass::Blank);
    let start = token_start(s, pos);
    assert(t[start] == s[start]);
    lemma_run_end_repeated(s, t, pos, CharClass::Blank);
    lemma_run_end(s, start, CharClass::Letter);
    lemma_run_end(s, start, CharClass::Digit);
    if letter_or_digit_run(s, start, CharClass::Letter) {
        let end = run_end(s, start, CharClass::Letter);
        if end < p {
            assert(t[end] == s[end]);
        }
        lemma_run_end_repeated(s, t, start, CharClass::Letter);
        assert(span(t, start, end) =~= span(s, start, end));
    } else if letter_or_digit_run(s, start, CharClass::Digit) {
        let end = run_end(s, start, CharClass::Digit);
        if end < p {
            assert(t[end] == s[end]);
        }
        lemma_run_end_repeated(s, t, start, CharClass::Digit);
        assert(span(t, start, end) =~= span(s, start, end));
    }
}

/// Whether the token at `start` is a run of `class`.
spec fn letter_or_digit_run(s: Seq<char>, start: int, class: CharClass) -> bool {
    0 <= start < s.len() && member(class, s[start]) && token_end(s, start) == run_end(
        s,
        start,
        class,
    )
}

proof fn lemma_blanks_in_gap(
    s: Seq<char>,
    t: Seq<char>,
    p: int,
    ws: Seq<char>,
    pos: int,
    n: nat,
)
    requires
        t == with_inserted(s, p, ws),
        all_blank(ws),
        ws.len() > 0,
        0 <= pos <= s.len(),
        in_gap_after(s, pos, n, p),
    ensures
        tokens_from(t, pos) == tokens_from(s, pos),
    decreases n,
{
    let k = ws.len() as int;
    lemma_end_of_input(s, pos);
    lemma_run_end(s, pos, CharClass::Blank);
    lemma_positions_within(s, pos, n);
    lemma_run_end(s, position_after(s, pos, n), CharClass::Blank);
    let next = next_position(s, pos);
    if n > 0 && next_token_spec(s, pos).token_type != TokenType::EOF {
        lemma_position_after_grows(s, next, (n - 1) as nat);
        lemma_with_inserted(s, p, ws);
        assert(t[p] == ws[p - p]);
        lemma_token_repeated(s, t, p, pos);
        lemma_blanks_in_gap(s, t, p, ws, next, (n - 1) as nat);
    } else {
        // No token ends between `pos` and `p`: `p` is among the blanks
        // that the scan from `pos` skips.
        let start = token_start(s, pos);
        if n > 0 {
            lemma_rests_at_end(s, pos, n);
        }
        assert(pos <= p <= start);
        lemma_with_inserted(s, p, ws);
        assert forall|i: int| pos <= i < start + k implies 0 <= i < t.len() && #[trigger] member(
            CharClass::Blank,
            t[i],
        ) by {
            if i < p {
                assert(t[i] == s[i]);
                assert(member(CharClass::Blank, s[i]));
            } else if i < p + k {
                assert(t[i] == ws[i - p]);
            } else {
                assert(t[i] == s[i - k]);
                assert(member(CharClass::Blank, s[i - k]));
            }
        }
        if start < s.len() {
            assert(t[start + k] == s[start + k - k]);
        }
        lemma_run_end_unique(t, pos, start + k, CharClass::Blank);
        lemma_tokens_from_gap(t, pos, start + k);
        lemma_tokens_moved(s, t, p, k, start);
        lemma_tokens_from_gap(s, pos, start);
    }
}

/// From a position whose token is the end of input, the cursor goes to the
/// end of the blanks and no further.
proof fn lemma_rests_at_end(s: Seq<char>, pos: int, n: nat)
    requires
        next_token_spec(s, pos).token_type == TokenType::EOF,
        n > 0,
    ensures
        position_after(s, pos, n) == token_start(s, pos),
        token_start(s, position_after(s, pos, n)) == token_start(s, pos),
    decreases n,
{
    lemma_end_of_input(s, pos);
    let start = token_start(s, pos);
    lemma_run_end(s, pos, CharClass::Blank);
    lemma_run_end_unique(s, start, start, CharClass::Blank);
    if n > 1 {
        lemma_rests_at_end(s, start, (n - 1) as nat);
    } else {
        assert(position_after(s, start, 0) == start);
    }
}

/// Blanks between tokens do not count: a text with spaces and tabs put in
/// at a position between two of its tokens has the tokens of the text.
pub proof fn law_blanks_between_tokens(s: Seq<char>, p: int, ws: Seq<char>)
    requires
        between_tokens(s, p),
        all_blank(ws),
    ensures
        tokens(with_inserted(s, p, ws)) == tokens(s),
{
    let n = choose|n: nat| in_gap_after(s, 0, n, p);
    lemma_position_after_grows(s, 0, n);
    lemma_run_end(s, position_after(s, 0, n), CharClass::Blank);
    lemma_positions_within(s, 0, n);
    if ws.len() == 0 {
        assert(with_inserted(s, p, ws) =~= s);
    } else {
        lemma_blanks_in_gap(s, with_inserted(s, p, ws), p, ws, 0, n);
    }
}

/// The cursor stays within the text.
proof fn lemma_positions_within(s: Seq<char>, pos: int, n: nat)
    requires
        0 <= pos <= s.len(),
    ensures
        0 <= position_after(s, pos, n) <= s.len(),
    decreases n,
{
    if n > 0 {
        lemma_end_of_input(s, pos);
        lemma_run_end(s, pos, CharClass::Blank);
        lemma_positions_within(s, next_position(s, pos), (n - 1) as nat);
    }
}

} // verus!
