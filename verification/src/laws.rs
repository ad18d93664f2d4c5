//! What holds of every scan.

use vstd::prelude::*;
use crate::compactor::lemma_compact_keeps_values;
use crate::model::{
    heading_kind, holds_at, literal, literal_buffer, marker, marker_value, scan, scan_prefix,
};
use crate::token::{Token, TokenType, TokenView, token_views};

verus! {

/// A heading of any level.
pub open spec fn is_heading(kind: TokenType) -> bool {
    kind == TokenType::H1 || kind == TokenType::H2 || kind == TokenType::H3
}

/// The shape of a structural token: a kind other than `Text` and
/// `Character`, the fixed value of that kind, and bounds one apart for
/// whitespace and newline, equal for every other kind.
pub open spec fn marker_shape(t: TokenView) -> bool {
    &&& t.token_type != TokenType::Text
    &&& t.token_type != TokenType::Character
    &&& t.value == marker_value(t.token_type)
    &&& t.end == if t.token_type == TokenType::WhiteSpace || t.token_type == TokenType::NewLine {
        t.start + 1
    } else {
        t.start
    }
}

/// After the first `n` code points: the scanner is about to pass over a code
/// point only if that code point is there and is an asterisk, and a pending
/// delimiter stands at an index before `n`.
pub proof fn lemma_prefix_pending(input: Seq<char>, n: int)
    requires
        0 <= n <= input.len(),
    ensures
        scan_prefix(input, n).skip_next ==> holds_at(input, n, '*'),
        scan_prefix(input, n).bold_open matches Some(p) ==> 0 <= p < n,
        scan_prefix(input, n).italic_open matches Some(p) ==> 0 <= p < n,
    decreases n,
{
    if n > 0 {
        lemma_prefix_pending(input, n - 1);
    }
}

/// Of the structural tokens emitted over the first `n` code points: each has
/// the shape of a structural token and starts inside the input; a heading is
/// there if and only if the input begins with `#`, and then it is the first
/// token, at index 0, of the level that the lookahead gives.
pub proof fn lemma_prefix_tokens(input: Seq<char>, n: int)
    requires
        0 <= n <= input.len(),
    ensures
        forall|j: int|
            0 <= j < scan_prefix(input, n).tokens.len() ==> {
                let t = #[trigger] scan_prefix(input, n).tokens[j];
                &&& marker_shape(t)
                &&& 0 <= t.start < n
                &&& is_heading(t.token_type) <==> j == 0 && holds_at(input, 0, '#')
            },
        n >= 1 && holds_at(input, 0, '#') ==> scan_prefix(input, n).tokens.len() >= 1
            && scan_prefix(input, n).tokens[0] == marker(heading_kind(input), 0, 0),
    decreases n,
{
    if n > 0 {
        lemma_prefix_tokens(input, n - 1);
        lemma_prefix_pending(input, n - 1);
    }
}

/// Of the literal units buffered over the first `n` code points: each is a
/// `Character` with the one code point of the input that stands at its index
/// as its value, and with both bounds at that index; they stand in the order
/// of their indices.
pub proof fn lemma_prefix_characters(input: Seq<char>, n: int)
    requires
        0 <= n <= input.len(),
    ensures
        forall|j: int|
            0 <= j < scan_prefix(input, n).characters.len() ==> {
                let u = #[trigger] scan_prefix(input, n).characters[j];
                &&& 0 <= u.start < n
                &&& u == literal(seq![input[u.start]], u.start)
            },
        forall|j: int, k: int|
            0 <= j < k < scan_prefix(input, n).characters.len() ==> (#[trigger] scan_prefix(
                input,
                n,
            ).characters[j]).start < (#[trigger] scan_prefix(input, n).characters[k]).start,
    decreases n,
{
    if n > 0 {
        lemma_prefix_characters(input, n - 1);
    }
}

/// The number of structural tokens that a scan of `input` emits.
pub open spec fn structural_len(input: Seq<char>) -> int {
    scan_prefix(input, input.len() as int).tokens.len() as int
}

/// The result of a scan is made of two blocks: the structural tokens, then
/// the `Text` tokens. Every structural token has the shape of one and starts
/// inside the input. No `Character` is left in the result.
pub proof fn lemma_scan_blocks(input: Seq<char>)
    ensures
        0 <= structural_len(input) <= scan(input).len(),
        forall|j: int|
            0 <= j < scan(input).len() ==> {
                let t = #[trigger] scan(input)[j];
                &&& t.token_type != TokenType::Character
                &&& t.token_type == TokenType::Text <==> j >= structural_len(input)
                &&& j < structural_len(input) ==> marker_shape(t) && 0 <= t.start < input.len()
            },
{
    let end = scan_prefix(input, input.len() as int);
    lemma_prefix_tokens(input, input.len() as int);
    lemma_compact_keeps_values(literal_buffer(end));
}

/// Every whitespace token and every newline token of a scan ends one behind
/// its start.
pub proof fn lemma_whitespace_and_newline_width(input: Seq<char>)
    ensures
        forall|j: int|
            0 <= j < scan(input).len() && ((#[trigger] scan(input)[j]).token_type
                == TokenType::WhiteSpace || scan(input)[j].token_type == TokenType::NewLine)
                ==> scan(input)[j].end == scan(input)[j].start + 1,
{
    lemma_scan_blocks(input);
}

/// A scan emits a heading if and only if the input begins with `#`. It then
/// emits exactly one, as its first token: zero-width at index 0, of the level
/// that the two code points behind the `#` give.
pub proof fn lemma_heading_exclusive(input: Seq<char>)
    ensures
        holds_at(input, 0, '#') ==> scan(input).len() >= 1 && scan(input)[0] == marker(
            heading_kind(input),
            0,
            0,
        ),
        forall|j: int|
            0 <= j < scan(input).len() ==> (is_heading((#[trigger] scan(input)[j]).token_type)
                <==> j == 0 && holds_at(input, 0, '#')),
{
    let end = scan_prefix(input, input.len() as int);
    lemma_prefix_tokens(input, input.len() as int);
    lemma_compact_keeps_values(literal_buffer(end));
}

/// Scanning is a function of the input: two results for the same input have
/// the same length and agree token by token in kind, value and bounds.
pub proof fn lemma_rescan_equal(input: Seq<char>, first: Seq<Token>, second: Seq<Token>)
    requires
        token_views(first) == scan(input),
        token_views(second) == scan(input),
    ensures
        first.len() == second.len(),
        forall|j: int| 0 <= j < first.len() ==> (#[trigger] first[j])@ == second[j]@,
{
    assert(token_views(first).len() == first.len());
    assert forall|j: int| 0 <= j < first.len() implies (#[trigger] first[j])@ == second[j]@ by {
        assert(token_views(first)[j] == first[j]@);
    }
}

} // verus!
