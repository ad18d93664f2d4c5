//! Tokens and their mathematical views.

use vstd::prelude::*;

verus! {

/// What a token stands for.
#[derive(Clone, Copy, PartialEq, Eq, Debug, Structural)]
pub enum TokenType {
    WhiteSpace,
    NewLine,
    H1,
    H2,
    H3,
    Bold,
    Italic,
    /// A single literal unit. Only the scanner's literal buffer holds these;
    /// a finished scan has folded them into `Text` tokens.
    Character,
    /// A run of consecutive literal units.
    Text,
}

/// One lexical unit: its kind, its text and its bounds, counted in code points.
#[derive(Debug)]
pub struct Token {
    pub token_type: TokenType,
    pub value: String,
    pub start: u32,
    pub end: u32,
}

/// The mathematical value of a [`Token`].
pub struct TokenView {
    pub token_type: TokenType,
    pub value: Seq<char>,
    pub start: int,
    pub end: int,
}

impl View for Token {
    type V = TokenView;

    open spec fn view(&self) -> TokenView {
        TokenView {
            token_type: self.token_type,
            value: self.value@,
            start: self.start as int,
            end: self.end as int,
        }
    }
}

impl Clone for Token {
    fn clone(&self) -> (copy: Self)
        ensures
            copy == *self,
    {
        Token {
            token_type: self.token_type,
            value: self.value.clone(),
            start: self.start,
            end: self.end,
        }
    }
}

/// The views of a sequence of tokens, in order.
pub open spec fn token_views(tokens: Seq<Token>) -> Seq<TokenView> {
    tokens.map_values(|t: Token| t@)
}

/// Pushing a token pushes its view.
pub proof fn lemma_token_views_push(tokens: Seq<Token>, t: Token)
    ensures
        token_views(tokens.push(t)) == token_views(tokens).push(t@),
{
}

} // verus!
