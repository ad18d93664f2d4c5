//! The scanner.

use vstd::prelude::*;
use crate::compactor::characters_to_texts;
use crate::coverage::{lemma_total_coverage, newlines, total_accounted};
use crate::laws::{is_heading, lemma_heading_exclusive, lemma_scan_blocks};
use crate::model::{
    heading_kind, holds_at, marker, marker_value, meet, pending_literal, scan, scan_prefix,
    ScanState,
};
use crate::token::{Token, TokenType, TokenView, token_views, lemma_token_views_push};

verus! {

/// The delimiter that a stack of at most one index holds.
spec fn pending(stack: Seq<u32>) -> Option<int> {
    if stack.len() == 0 {
        None
    } else {
        Some(stack.last() as int)
    }
}

/// `char::to_string` of std: the string that holds `c` and nothing else.
#[verifier::external_body]
fn char_to_string(c: char) -> (s: String)
    ensures
        s@ == seq![c],
{
    c.to_string()
}

/// The code points of `raw`, in order.
fn code_points(raw: &str) -> (chars: Vec<char>)
    ensures
        chars@ == raw@,
{
    let mut chars: Vec<char> = Vec::new();
    for c in it: raw.chars()
        invariant
            it.seq() == raw@,
            chars@ == it.seq().take(it.index() as int),
    {
        chars.push(c);
    }
    chars
}

/// Looks at index `i`, which may lie behind the end.
fn has_at(chars: &Vec<char>, i: usize, c: char) -> (found: bool)
    ensures
        found == holds_at(chars@, i as int, c),
{
    i < chars.len() && chars[i] == c
}

/// The fixed value of a structural token of the given kind.
fn marker_string(kind: TokenType) -> (value: String)
    ensures
        value@ == marker_value(kind),
{
    proof {
        reveal_strlit(" ");
        reveal_strlit("\n");
        reveal_strlit("h1");
        reveal_strlit("h2");
        reveal_strlit("h3");
        reveal_strlit("**");
        reveal_strlit("*");
    }
    match kind {
        TokenType::WhiteSpace => " ".to_string(),
        TokenType::NewLine => "\n".to_string(),
        TokenType::H1 => "h1".to_string(),
        TokenType::H2 => "h2".to_string(),
        TokenType::H3 => "h3".to_string(),
        TokenType::Bold => "**".to_string(),
        TokenType::Italic => "*".to_string(),
        TokenType::Character => String::new(),
        TokenType::Text => String::new(),
    }
}

/// A structural token.
fn marker_token(kind: TokenType, start: u32, end: u32) -> (token: Token)
    ensures
        token@ == marker(kind, start as int, end as int),
{
    Token { token_type: kind, value: marker_string(kind), start, end }
}

/// The level of the heading that `chars` opens with, by the two code points
/// behind its first.
fn heading_at_start(chars: &Vec<char>) -> (kind: TokenType)
    ensures
        kind == heading_kind(chars@),
{
    if has_at(chars, 1, '#') && has_at(chars, 2, '#') {
        TokenType::H3
    } else if has_at(chars, 1, '#') {
        TokenType::H2
    } else {
        TokenType::H1
    }
}

/// A delimiter of the given kind stands at `index`. With an empty stack it
/// is pushed and waits; else it closes the pair with the index on the stack,
/// and both markers are emitted, the closing one first.
fn meet_delimiter(kind: TokenType, stack: &mut Vec<u32>, tokens: &mut Vec<Token>, index: u32)
    requires
        old(stack)@.len() <= 1,
    ensures
        final(stack)@.len() <= 1,
        pending(final(stack)@) == meet(kind, pending(old(stack)@), index as int).0,
        token_views(final(tokens)@) == token_views(old(tokens)@) + meet(
            kind,
            pending(old(stack)@),
            index as int,
        ).1,
{
    if !stack.is_empty() {
        let closing = marker_token(kind, index, index);
        tokens.push(closing);
        let popped_index = stack.pop().unwrap();
        let opening = marker_token(kind, popped_index, popped_index);
        tokens.push(opening);
    } else {
        stack.push(index);
    }
}

/// Buffers every delimiter that still waits on the stack as a literal unit.
fn flush_pending(kind: TokenType, stack: &Vec<u32>, char_tokens: &mut Vec<Token>)
    requires
        stack@.len() <= 1,
    ensures
        token_views(final(char_tokens)@) == token_views(old(char_tokens)@) + pending_literal(
            kind,
            pending(stack@),
        ),
{
    let ghost before = token_views(char_tokens@);
    let mut j: usize = 0;
    while j < stack.len()
        invariant
            stack@.len() <= 1,
            0 <= j <= stack@.len(),
            j == 0 ==> token_views(char_tokens@) == before,
            j == 1 ==> token_views(char_tokens@) == before + pending_literal(kind, pending(stack@)),
        decreases stack@.len() - j,
    {
        let current = stack[j];
        let unit = Token {
            token_type: TokenType::Character,
            value: marker_string(kind),
            start: current,
            end: current,
        };
        char_tokens.push(unit);
        j += 1;
    }
}

/// Scans `raw` into tokens.
///
/// The result holds the structural tokens first, in the order in which the
/// pass emitted them, and behind them the `Text` tokens; it is not sorted by
/// position. Bounds count code points, so the input may hold `u32::MAX` of
/// them at most.
pub fn start(raw: String) -> (out: Vec<Token>)
    requires
        raw@.len() <= u32::MAX,
    ensures
        token_views(out@) == scan(raw@),
        holds_at(raw@, 0, '#') ==> out@.len() >= 1,
        forall|j: int|
            0 <= j < out@.len() ==> (is_heading((#[trigger] out@[j]).token_type) <==> j == 0
                && holds_at(raw@, 0, '#')),
        forall|j: int|
            0 <= j < out@.len() && ((#[trigger] out@[j]).token_type == TokenType::WhiteSpace
                || out@[j].token_type == TokenType::NewLine) ==> out@[j].end == out@[j].start + 1,
        forall|j: int|
            0 <= j < out@.len() ==> (#[trigger] out@[j]).token_type != TokenType::Character,
        total_accounted(token_views(out@)) == raw@.len() + newlines(raw@, raw@.len() as int),
{
    let chars: Vec<char> = code_points(raw.as_str());
    let mut tokens: Vec<Token> = Vec::new();
    let mut char_tokens: Vec<Token> = Vec::new();
    let mut skip_next = false;
    let mut bold_stack: Vec<u32> = Vec::new();
    let mut italic_stack: Vec<u32> = Vec::new();
    let n: usize = chars.len();
    let mut i: usize = 0;
    assert(token_views(tokens@) =~= Seq::<TokenView>::empty());
    while i < n
        invariant
            n == chars@.len(),
            n <= u32::MAX,
            0 <= i <= n,
            bold_stack@.len() <= 1,
            italic_stack@.len() <= 1,
            scan_prefix(chars@, i as int) == (ScanState {
                skip_next,
                bold_open: pending(bold_stack@),
                italic_open: pending(italic_stack@),
                tokens: token_views(tokens@),
                characters: token_views(char_tokens@),
            }),
        decreases n - i,
    {
        let c = chars[i];
        let index: u32 = i as u32;
        if skip_next {
            skip_next = false;
        } else if c == ' ' {
            let token = marker_token(TokenType::WhiteSpace, index, index + 1);
            proof {
                lemma_token_views_push(tokens@, token);
            }
            tokens.push(token);
        } else if c == '#' && i == 0 {
            let token = marker_token(heading_at_start(&chars), index, index);
            proof {
                lemma_token_views_push(tokens@, token);
            }
            tokens.push(token);
        } else if c == '*' {
            if has_at(&chars, i + 1, '*') {
                meet_delimiter(TokenType::Bold, &mut bold_stack, &mut tokens, index);
                skip_next = true;
            } else {
                meet_delimiter(TokenType::Italic, &mut italic_stack, &mut tokens, index);
            }
        } else {
            if c == '\n' {
                let token = marker_token(TokenType::NewLine, index, index + 1);
                proof {
                    lemma_token_views_push(tokens@, token);
                }
                tokens.push(token);
            }
            let unit = Token {
                token_type: TokenType::Character,
                value: char_to_string(c),
                start: index,
                end: index,
            };
            proof {
                lemma_token_views_push(char_tokens@, unit);
            }
            char_tokens.push(unit);
        }
        i += 1;
    }
    flush_pending(TokenType::Bold, &bold_stack, &mut char_tokens);
    flush_pending(TokenType::Italic, &italic_stack, &mut char_tokens);
    let mut text_tokens = characters_to_texts(char_tokens);
    tokens.append(&mut text_tokens);
    proof {
        lemma_scan_blocks(raw@);
        lemma_heading_exclusive(raw@);
        lemma_total_coverage(raw@);
        assert forall|j: int| 0 <= j < tokens@.len() implies (#[trigger] tokens@[j])@ == scan(
            raw@,
        )[j] by {
        }
    }
    tokens
}

} // verus!
