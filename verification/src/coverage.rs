//! Every code point of the input is accounted for.
//!
//! Two statements of it: by position, over the structural tokens and the
//! literal buffer of a scan, and by number, over the tokens that come out.

use vstd::prelude::*;
use crate::compactor::{compact, joined_value, lemma_compact_keeps_values};
use crate::laws::lemma_prefix_characters;
use crate::model::{holds_at, literal_buffer, pending_literal, scan, scan_prefix, ScanState};
use crate::token::{TokenType, TokenView};

verus! {

/// The structural token or literal unit `t` stands for the code point at
/// index `i`: a bold marker for its two asterisks, a literal unit for as many
/// code points as its value holds, any other structural token for the one
/// code point at which it starts. A `Text` token is not asked: it stands for
/// what the units folded into it stand for.
pub open spec fn stands_for(t: TokenView, i: int) -> bool {
    match t.token_type {
        TokenType::Bold => i == t.start || i == t.start + 1,
        TokenType::Character => t.start <= i < t.start + t.value.len(),
        TokenType::Text => false,
        _ => i == t.start,
    }
}

/// How many of `tokens` stand for the code point at index `i`.
pub open spec fn times_covered(tokens: Seq<TokenView>, i: int) -> nat
    decreases tokens.len(),
{
    if tokens.len() == 0 {
        0
    } else {
        times_covered(tokens.drop_last(), i) + if stands_for(tokens.last(), i) {
            1nat
        } else {
            0nat
        }
    }
}

/// How many code points one token accounts for: a bold marker for two, a
/// `Text` token or a literal unit for as many as its value holds, any other
/// token for one.
pub open spec fn accounts_for(t: TokenView) -> nat {
    match t.token_type {
        TokenType::Bold => 2,
        TokenType::Character => t.value.len(),
        TokenType::Text => t.value.len(),
        _ => 1,
    }
}

/// How many code points `tokens` account for, all together.
pub open spec fn total_accounted(tokens: Seq<TokenView>) -> nat
    decreases tokens.len(),
{
    if tokens.len() == 0 {
        0
    } else {
        total_accounted(tokens.drop_last()) + accounts_for(tokens.last())
    }
}

/// The number of newlines among the first `n` code points of `input`.
pub open spec fn newlines(input: Seq<char>, n: int) -> nat
    decreases n,
{
    if n <= 0 {
        0
    } else {
        newlines(input, n - 1) + if holds_at(input, n - 1, '\n') {
            1nat
        } else {
            0nat
        }
    }
}

/// Counting over two sequences, one behind the other, adds up.
proof fn lemma_times_covered_concat(a: Seq<TokenView>, b: Seq<TokenView>, i: int)
    ensures
        times_covered(a + b, i) == times_covered(a, i) + times_covered(b, i),
    decreases b.len(),
{
    if b.len() > 0 {
        lemma_times_covered_concat(a, b.drop_last(), i);
        assert((a + b).drop_last() =~= a + b.drop_last());
    }
}

/// One token counts if it stands for the index; no token counts nothing.
proof fn lemma_times_covered_one(t: TokenView, i: int)
    ensures
        times_covered(seq![t], i) == if stands_for(t, i) {
            1nat
        } else {
            0nat
        },
        times_covered(Seq::empty(), i) == 0,
{
    let one = seq![t];
    assert(times_covered(one.drop_last(), i) == 0);
}

/// A token pushed behind the others counts if it stands for the index.
proof fn lemma_times_covered_push(tokens: Seq<TokenView>, t: TokenView, i: int)
    ensures
        times_covered(tokens.push(t), i) == times_covered(tokens, i) + if stands_for(t, i) {
            1nat
        } else {
            0nat
        },
{
    assert(tokens.push(t).drop_last() =~= tokens);
}

/// Two tokens added behind the others count each for itself.
proof fn lemma_times_covered_two(tokens: Seq<TokenView>, s: TokenView, t: TokenView, i: int)
    ensures
        times_covered(tokens + seq![s, t], i) == times_covered(tokens, i) + times_covered(
            seq![s],
            i,
        ) + times_covered(seq![t], i),
{
    assert(tokens + seq![s, t] =~= tokens.push(s).push(t));
    lemma_times_covered_push(tokens, s, i);
    lemma_times_covered_push(tokens.push(s), t, i);
    lemma_times_covered_one(s, i);
    lemma_times_covered_one(t, i);
}

/// What stands for index `i` in a state: structural tokens, buffered units
/// and the pending delimiters as the literals that they would become.
spec fn cover(st: ScanState, i: int) -> nat {
    times_covered(st.tokens, i) + times_covered(st.characters, i) + times_covered(
        pending_literal(TokenType::Bold, st.bold_open),
        i,
    ) + times_covered(pending_literal(TokenType::Italic, st.italic_open), i)
}

/// The number of code points that a state has consumed: those passed, and
/// the second asterisk of a bold marker that is still to be passed over.
spec fn reach(st: ScanState, n: int) -> int {
    if st.skip_next {
        n + 1
    } else {
        n
    }
}

/// After the first `n` code points, exactly one of what a state holds stands
/// for each code point that it has consumed, two for a newline, and nothing
/// for any other index.
proof fn lemma_prefix_cover(input: Seq<char>, n: int, i: int)
    requires
        0 <= n <= input.len(),
    ensures
        cover(scan_prefix(input, n), i) == if 0 <= i < reach(scan_prefix(input, n), n) {
            if input[i] == '\n' {
                2nat
            } else {
                1nat
            }
        } else {
            0nat
        },
    decreases n,
{
    let after = scan_prefix(input, n);
    if n > 0 {
        let at = n - 1;
        let before = scan_prefix(input, at);
        lemma_prefix_cover(input, at, i);
        let c = input[at];
        if before.skip_next {
        } else if c == ' ' || (c == '#' && at == 0) {
            lemma_times_covered_push(before.tokens, after.tokens.last(), i);
        } else if c == '*' {
            let kind = if holds_at(input, at + 1, '*') {
                TokenType::Bold
            } else {
                TokenType::Italic
            };
            let open = if holds_at(input, at + 1, '*') {
                before.bold_open
            } else {
                before.italic_open
            };
            match open {
                Some(p) => {
                    let closing = after.tokens[after.tokens.len() - 2];
                    let opening = after.tokens[after.tokens.len() - 1];
                    lemma_times_covered_two(before.tokens, closing, opening, i);
                    lemma_times_covered_one(closing, i);
                    lemma_times_covered_one(opening, i);
                    lemma_times_covered_one(pending_literal(kind, open)[0], i);
                },
                None => {
                    let now = pending_literal(kind, Some(at));
                    lemma_times_covered_one(now[0], i);
                },
            }
        } else {
            lemma_times_covered_push(before.characters, after.characters.last(), i);
            if c == '\n' {
                lemma_times_covered_push(before.tokens, after.tokens.last(), i);
            }
        }
    }
}

/// Coverage by position. Of the structural tokens and the literal buffer of a
/// scan, exactly one stands for each code point of the input, and nothing
/// stands for an index outside it. The one exception is a newline, for which
/// two stand: its `NewLine` token and the literal unit that it is buffered as.
pub proof fn lemma_covered_once(input: Seq<char>, i: int)
    ensures
        ({
            let end = scan_prefix(input, input.len() as int);
            times_covered(end.tokens, i) + times_covered(literal_buffer(end), i) == if holds_at(
                input,
                i,
                '\n',
            ) {
                2nat
            } else if 0 <= i < input.len() {
                1nat
            } else {
                0nat
            }
        }),
{
    let end = scan_prefix(input, input.len() as int);
    lemma_prefix_cover(input, input.len() as int, i);
    let bold = pending_literal(TokenType::Bold, end.bold_open);
    let italic = pending_literal(TokenType::Italic, end.italic_open);
    lemma_times_covered_concat(end.characters, bold, i);
    lemma_times_covered_concat(end.characters + bold, italic, i);
}

/// What two sequences account for, one behind the other, adds up.
proof fn lemma_total_accounted_concat(a: Seq<TokenView>, b: Seq<TokenView>)
    ensures
        total_accounted(a + b) == total_accounted(a) + total_accounted(b),
    decreases b.len(),
{
    if b.len() > 0 {
        lemma_total_accounted_concat(a, b.drop_last());
        assert((a + b).drop_last() =~= a + b.drop_last());
    }
}

/// One token accounts for what it accounts for; no token for nothing.
proof fn lemma_total_accounted_one(t: TokenView)
    ensures
        total_accounted(seq![t]) == accounts_for(t),
        total_accounted(Seq::empty()) == 0,
{
    let one = seq![t];
    assert(total_accounted(one.drop_last()) == 0);
}

/// A token pushed behind the others adds what it accounts for.
proof fn lemma_total_accounted_push(tokens: Seq<TokenView>, t: TokenView)
    ensures
        total_accounted(tokens.push(t)) == total_accounted(tokens) + accounts_for(t),
{
    assert(tokens.push(t).drop_last() =~= tokens);
}

/// Literal units and `Text` tokens account for as many code points as their
/// values hold, joined.
proof fn lemma_total_accounted_of_text(units: Seq<TokenView>)
    requires
        forall|j: int|
            0 <= j < units.len() ==> (#[trigger] units[j]).token_type == TokenType::Character
                || units[j].token_type == TokenType::Text,
    ensures
        total_accounted(units) == joined_value(units).len(),
    decreases units.len(),
{
    if units.len() > 0 {
        lemma_total_accounted_of_text(units.drop_last());
    }
}

/// What a state accounts for: structural tokens, buffered units and the
/// pending delimiters as the literals that they would become.
spec fn held(st: ScanState) -> nat {
    total_accounted(st.tokens) + total_accounted(st.characters) + total_accounted(
        pending_literal(TokenType::Bold, st.bold_open),
    ) + total_accounted(pending_literal(TokenType::Italic, st.italic_open))
}

/// After the first `n` code points a state accounts for every code point
/// that it has consumed, and for every newline among them once more.
proof fn lemma_prefix_held(input: Seq<char>, n: int)
    requires
        0 <= n <= input.len(),
    ensures
        held(scan_prefix(input, n)) == reach(scan_prefix(input, n), n) + newlines(input, n),
    decreases n,
{
    let after = scan_prefix(input, n);
    if n > 0 {
        let at = n - 1;
        let before = scan_prefix(input, at);
        lemma_prefix_held(input, at);
        let c = input[at];
        if before.skip_next {
        } else if c == ' ' || (c == '#' && at == 0) {
            lemma_total_accounted_push(before.tokens, after.tokens.last());
        } else if c == '*' {
            let kind = if holds_at(input, at + 1, '*') {
                TokenType::Bold
            } else {
                TokenType::Italic
            };
            let open = if holds_at(input, at + 1, '*') {
                before.bold_open
            } else {
                before.italic_open
            };
            match open {
                Some(p) => {
                    let closing = after.tokens[after.tokens.len() - 2];
                    let opening = after.tokens[after.tokens.len() - 1];
                    assert(after.tokens =~= before.tokens.push(closing).push(opening));
                    lemma_total_accounted_push(before.tokens, closing);
                    lemma_total_accounted_push(before.tokens.push(closing), opening);
                    lemma_total_accounted_one(pending_literal(kind, open)[0]);
                },
                None => {
                    let now = pending_literal(kind, Some(at));
                    lemma_total_accounted_one(now[0]);
                },
            }
        } else {
            lemma_total_accounted_push(before.characters, after.characters.last());
            if c == '\n' {
                lemma_total_accounted_push(before.tokens, after.tokens.last());
            }
        }
    }
}

/// Coverage by number. The tokens of a scan account for every code point of
/// the input once, and for every newline once more: a newline is a `NewLine`
/// token and part of a `Text` token as well.
pub proof fn lemma_total_coverage(input: Seq<char>)
    ensures
        total_accounted(scan(input)) == input.len() + newlines(input, input.len() as int),
{
    let len = input.len() as int;
    let end = scan_prefix(input, len);
    let buffer = literal_buffer(end);
    let bold = pending_literal(TokenType::Bold, end.bold_open);
    let italic = pending_literal(TokenType::Italic, end.italic_open);
    lemma_prefix_held(input, len);
    lemma_prefix_characters(input, len);
    lemma_total_accounted_concat(end.characters, bold);
    lemma_total_accounted_concat(end.characters + bold, italic);
    lemma_total_accounted_of_text(buffer);
    lemma_compact_keeps_values(buffer);
    lemma_total_accounted_of_text(compact(buffer));
    lemma_total_accounted_concat(end.tokens, compact(buffer));
}

} // verus!
