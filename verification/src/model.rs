//! The model of a scan: what the tokens of an input are.
//!
//! A scan is one pass over the code points of the input, with one code point
//! of lookahead. It emits structural tokens as it meets them and buffers one
//! literal unit per plain code point. A delimiter waits for its partner; a
//! second delimiter of the same kind closes the pair. What still waits at the
//! end of the input joins the literal buffer as plain text, and the buffer is
//! folded into `Text` tokens.

use vstd::prelude::*;
use crate::compactor::compact;
use crate::token::{TokenType, TokenView};

verus! {

/// The fixed value of a structural token of the given kind.
pub open spec fn marker_value(kind: TokenType) -> Seq<char> {
    match kind {
        TokenType::WhiteSpace => seq![' '],
        TokenType::NewLine => seq!['\n'],
        TokenType::H1 => seq!['h', '1'],
        TokenType::H2 => seq!['h', '2'],
        TokenType::H3 => seq!['h', '3'],
        TokenType::Bold => seq!['*', '*'],
        TokenType::Italic => seq!['*'],
        TokenType::Character => Seq::empty(),
        TokenType::Text => Seq::empty(),
    }
}

/// A structural token.
pub open spec fn marker(kind: TokenType, start: int, end: int) -> TokenView {
    TokenView { token_type: kind, value: marker_value(kind), start, end }
}

/// A literal unit: zero-width bounds at the index where its value stands.
pub open spec fn literal(value: Seq<char>, at: int) -> TokenView {
    TokenView { token_type: TokenType::Character, value, start: at, end: at }
}

/// The input holds `c` at index `i`. An index outside the input holds nothing.
pub open spec fn holds_at(input: Seq<char>, i: int, c: char) -> bool {
    0 <= i < input.len() && input[i] == c
}

/// The heading that an input beginning with `#` opens with: its level is the
/// number of `#` at the very beginning, three at most.
pub open spec fn heading_kind(input: Seq<char>) -> TokenType {
    if holds_at(input, 1, '#') && holds_at(input, 2, '#') {
        TokenType::H3
    } else if holds_at(input, 1, '#') {
        TokenType::H2
    } else {
        TokenType::H1
    }
}

/// What the scanner carries from one code point to the next.
pub struct ScanState {
    /// The next code point is the second asterisk of a bold marker and is
    /// passed over.
    pub skip_next: bool,
    /// Where the bold marker stands that still waits for its partner.
    pub bold_open: Option<int>,
    /// Where the italic marker stands that still waits for its partner.
    pub italic_open: Option<int>,
    /// The structural tokens emitted so far.
    pub tokens: Seq<TokenView>,
    /// The literal units buffered so far.
    pub characters: Seq<TokenView>,
}

/// The state before the first code point.
pub open spec fn initial_state() -> ScanState {
    ScanState {
        skip_next: false,
        bold_open: None,
        italic_open: None,
        tokens: Seq::empty(),
        characters: Seq::empty(),
    }
}

/// A delimiter of the given kind is met at `i` while `open` is pending: with
/// nothing pending it becomes the pending one and nothing is emitted; else the
/// pair is emitted, the closing marker before the opening one, and nothing is
/// pending any more.
pub open spec fn meet(kind: TokenType, open: Option<int>, i: int) -> (Option<int>, Seq<TokenView>) {
    match open {
        Some(p) => (None, seq![marker(kind, i, i), marker(kind, p, p)]),
        None => (Some(i), Seq::empty()),
    }
}

/// The state after the code point at `i`, from the state before it.
pub open spec fn scan_step(input: Seq<char>, st: ScanState, i: int) -> ScanState {
    let c = input[i];
    if st.skip_next {
        ScanState { skip_next: false, ..st }
    } else if c == ' ' {
        ScanState { tokens: st.tokens.push(marker(TokenType::WhiteSpace, i, i + 1)), ..st }
    } else if c == '#' && i == 0 {
        ScanState { tokens: st.tokens.push(marker(heading_kind(input), i, i)), ..st }
    } else if c == '*' && holds_at(input, i + 1, '*') {
        let (open, emitted) = meet(TokenType::Bold, st.bold_open, i);
        ScanState { skip_next: true, bold_open: open, tokens: st.tokens + emitted, ..st }
    } else if c == '*' {
        let (open, emitted) = meet(TokenType::Italic, st.italic_open, i);
        ScanState { italic_open: open, tokens: st.tokens + emitted, ..st }
    } else if c == '\n' {
        // a newline is a token and a literal unit as well
        ScanState {
            tokens: st.tokens.push(marker(TokenType::NewLine, i, i + 1)),
            characters: st.characters.push(literal(seq![c], i)),
            ..st
        }
    } else {
        ScanState { characters: st.characters.push(literal(seq![c], i)), ..st }
    }
}

/// The state after the first `n` code points.
pub open spec fn scan_prefix(input: Seq<char>, n: int) -> ScanState
    decreases n,
{
    if n <= 0 {
        initial_state()
    } else {
        scan_step(input, scan_prefix(input, n - 1), n - 1)
    }
}

/// The literal unit that a delimiter left pending at the end of the input
/// becomes: its marker as plain text, at the index where it stands.
pub open spec fn pending_literal(kind: TokenType, open: Option<int>) -> Seq<TokenView> {
    match open {
        Some(p) => seq![literal(marker_value(kind), p)],
        None => Seq::empty(),
    }
}

/// The whole literal buffer of a scan that ended in `st`: the units of the
/// pass, then the pending bold marker, then the pending italic marker.
pub open spec fn literal_buffer(st: ScanState) -> Seq<TokenView> {
    st.characters + pending_literal(TokenType::Bold, st.bold_open) + pending_literal(
        TokenType::Italic,
        st.italic_open,
    )
}

/// The tokens of `input`: the structural tokens in the order of their
/// emission, then the `Text` tokens that the literal buffer folds into.
pub open spec fn scan(input: Seq<char>) -> Seq<TokenView> {
    let end = scan_prefix(input, input.len() as int);
    end.tokens + compact(literal_buffer(end))
}

} // verus!
