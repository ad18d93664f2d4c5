//! Folding literal units into runs of text.
//!
//! The scanner buffers one literal unit per plain code point. The compactor
//! cuts that buffer into runs and turns every run into one `Text` token.

use vstd::prelude::*;
use vstd::string::StringExecFns;
use crate::token::{Token, TokenType, TokenView, token_views};

verus! {

/// The values of `units`, joined in order.
pub open spec fn joined_value(units: Seq<TokenView>) -> Seq<char>
    decreases units.len(),
{
    if units.len() == 0 {
        Seq::empty()
    } else {
        joined_value(units.drop_last()) + units.last().value
    }
}

/// Unit `i` lies directly behind unit `i - 1`.
pub open spec fn follows(units: Seq<TokenView>, i: int) -> bool {
    units[i].end - 1 == units[i - 1].end
}

/// Unit `i` seals the run before it and opens the next one: it does not lie
/// directly behind its predecessor. The first unit has no run to seal, and the
/// last unit always joins the run before it.
pub open spec fn seals(units: Seq<TokenView>, i: int) -> bool {
    0 < i < units.len() - 1 && !follows(units, i)
}

/// The first sealing unit at or behind `i`, or the number of units if there is
/// none.
pub open spec fn next_seal(units: Seq<TokenView>, i: int) -> int
    decreases units.len() - i,
{
    if i >= units.len() {
        units.len() as int
    } else if seals(units, i) {
        i
    } else {
        next_seal(units, i + 1)
    }
}

/// The `Text` token of the run of units from `a` up to, not including, `b`.
/// It starts where the run's first unit starts. It ends where the unit that
/// sealed it ends, or, for the run that reaches the end of the buffer, where
/// the last unit ends.
pub open spec fn run_token(units: Seq<TokenView>, a: int, b: int) -> TokenView {
    TokenView {
        token_type: TokenType::Text,
        value: joined_value(units.subrange(a, b)),
        start: units[a].start,
        end: if b < units.len() {
            units[b].end
        } else {
            units.last().end
        },
    }
}

/// The `Text` tokens of the runs that begin at unit `a` and behind it.
pub open spec fn compact_from(units: Seq<TokenView>, a: int) -> Seq<TokenView>
    decreases units.len() - a,
{
    if a < 0 || a >= units.len() {
        Seq::empty()
    } else {
        let b = next_seal(units, a + 1);
        proof {
            lemma_next_seal_bounds(units, a + 1);
        }
        seq![run_token(units, a, b)] + compact_from(units, b)
    }
}

/// The `Text` tokens that a buffer of literal units folds into.
pub open spec fn compact(units: Seq<TokenView>) -> Seq<TokenView> {
    compact_from(units, 0)
}

/// The search for a sealing unit moves forward and stops at the end of the
/// buffer.
pub proof fn lemma_next_seal_bounds(units: Seq<TokenView>, i: int)
    requires
        i <= units.len(),
    ensures
        i <= next_seal(units, i) <= units.len(),
    decreases units.len() - i,
{
    if i < units.len() && !seals(units, i) {
        lemma_next_seal_bounds(units, i + 1);
    }
}

/// Joining one more unit to a run appends that unit's value.
pub proof fn lemma_joined_value_extend(units: Seq<TokenView>, a: int, b: int)
    requires
        0 <= a <= b < units.len(),
    ensures
        joined_value(units.subrange(a, b + 1)) == joined_value(units.subrange(a, b))
            + units[b].value,
{
    let longer = units.subrange(a, b + 1);
    assert(longer.drop_last() =~= units.subrange(a, b));
}

/// A single unit joins to its own value.
pub proof fn lemma_joined_value_single(unit: TokenView)
    ensures
        joined_value(seq![unit]) == unit.value,
{
    let one = seq![unit];
    assert(joined_value(one.drop_last()) =~= Seq::<char>::empty());
}

/// The joined value of two buffers, one behind the other, is the joined value
/// of the first followed by that of the second.
pub proof fn lemma_joined_value_concat(a: Seq<TokenView>, b: Seq<TokenView>)
    ensures
        joined_value(a + b) == joined_value(a) + joined_value(b),
    decreases b.len(),
{
    if b.len() == 0 {
    } else {
        lemma_joined_value_concat(a, b.drop_last());
        assert((a + b).drop_last() =~= a + b.drop_last());
    }
}

/// The runs from unit `a` on are all `Text` tokens, and their values, joined,
/// are the values of the units from `a` on, joined.
pub proof fn lemma_compact_from_keeps_values(units: Seq<TokenView>, a: int)
    requires
        0 <= a <= units.len(),
    ensures
        joined_value(compact_from(units, a)) == joined_value(
            units.subrange(a, units.len() as int),
        ),
        forall|j: int|
            0 <= j < compact_from(units, a).len() ==> (#[trigger] compact_from(
                units,
                a,
            )[j]).token_type == TokenType::Text,
    decreases units.len() - a,
{
    let len = units.len() as int;
    if a >= len {
    } else {
        let b = next_seal(units, a + 1);
        lemma_next_seal_bounds(units, a + 1);
        lemma_compact_from_keeps_values(units, b);
        let head = seq![run_token(units, a, b)];
        let rest = compact_from(units, b);
        lemma_joined_value_concat(head, rest);
        lemma_joined_value_single(run_token(units, a, b));
        lemma_joined_value_concat(units.subrange(a, b), units.subrange(b, len));
        assert(units.subrange(a, b) + units.subrange(b, len) =~= units.subrange(a, len));
    }
}

/// Compaction keeps the text: the values of the `Text` tokens, joined in
/// order, are the values of the units, joined in order. Nothing but `Text`
/// tokens comes out.
pub proof fn lemma_compact_keeps_values(units: Seq<TokenView>)
    ensures
        joined_value(compact(units)) == joined_value(units),
        forall|j: int|
            0 <= j < compact(units).len() ==> (#[trigger] compact(units)[j]).token_type
                == TokenType::Text,
{
    lemma_compact_from_keeps_values(units, 0);
    assert(units.subrange(0, units.len() as int) =~= units);
}

/// Folds a buffer of literal units into `Text` tokens.
///
/// A unit joins the current run when its `end` is one more than the `end` of
/// the unit before it. Any other unit seals the run into one `Text` token,
/// which takes that unit's `end`, and opens the next run. The last unit joins
/// the run before it whatever its bounds are, and seals it.
pub fn characters_to_texts(char_tokens: Vec<Token>) -> (text_tokens: Vec<Token>)
    ensures
        token_views(text_tokens@) == compact(token_views(char_tokens@)),
        char_tokens@.len() == 0 ==> text_tokens@.len() == 0,
        forall|j: int|
            0 <= j < text_tokens@.len() ==> (#[trigger] text_tokens@[j]).token_type
                == TokenType::Text,
        joined_value(token_views(text_tokens@)) == joined_value(token_views(char_tokens@)),
{
    let mut text_tokens: Vec<Token> = Vec::new();
    let mut run: String = String::new();
    let mut run_start: u32 = 0;
    let mut previous_end: u32 = 0;
    let ghost units = token_views(char_tokens@);
    let ghost mut first: int = 0;
    let n: usize = char_tokens.len();
    let mut i: usize = 0;
    while i < n
        invariant
            n == char_tokens@.len(),
            units == token_views(char_tokens@),
            0 <= i <= n,
            i == 0 ==> first == 0 && run@ == Seq::<char>::empty(),
            0 < i < n ==> {
                &&& 0 <= first < i
                &&& next_seal(units, first + 1) == next_seal(units, i as int)
                &&& run@ == joined_value(units.subrange(first, i as int))
                &&& run_start == units[first].start
                &&& previous_end == units[i - 1].end
            },
            i < n ==> token_views(text_tokens@) + compact_from(units, first) == compact(units),
            i == n ==> token_views(text_tokens@) == compact(units),
        decreases n - i,
    {
        let ch = &char_tokens[i];
        let is_last = i == n - 1;
        // only before the first unit is there no run to join
        let joins = i == 0 || (ch.end >= 1 && ch.end - 1 == previous_end);
        proof {
            lemma_joined_value_extend(units, first, i as int);
        }
        if joins && !is_last {
            if i == 0 {
                run_start = ch.start;
            }
            run.append(ch.value.as_str());
        } else {
            if is_last {
                if i == 0 {
                    run_start = ch.start;
                }
                run.append(ch.value.as_str());
            }
            proof {
                // behind the last unit no run begins
                assert(compact_from(units, n as int) =~= Seq::<TokenView>::empty());
            }
            text_tokens.push(
                Token { token_type: TokenType::Text, value: run, start: run_start, end: ch.end },
            );
            run = ch.value.clone();
            run_start = ch.start;
            proof {
                first = i as int;
                lemma_joined_value_extend(units, i as int, i as int);
            }
        }
        previous_end = ch.end;
        i += 1;
    }
    proof {
        lemma_compact_keeps_values(units);
        assert forall|j: int| 0 <= j < text_tokens@.len() implies (#[trigger] text_tokens@[j]).token_type
            == TokenType::Text by {
            assert(token_views(text_tokens@)[j] == text_tokens@[j]@);
        }
    }
    text_tokens
}

} // verus!
