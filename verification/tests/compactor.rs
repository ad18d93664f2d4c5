use markdown_lexer::{characters_to_texts, Token, TokenType};

fn unit(value: &str, start: u32, end: u32) -> Token {
    Token { token_type: TokenType::Character, value: value.to_string(), start, end }
}

fn texts(units: Vec<Token>) -> Vec<(TokenType, String, u32, u32)> {
    characters_to_texts(units)
        .into_iter()
        .map(|t| (t.token_type, t.value, t.start, t.end))
        .collect()
}

fn text(value: &str, start: u32, end: u32) -> (TokenType, String, u32, u32) {
    (TokenType::Text, value.to_string(), start, end)
}

#[test]
fn empty_buffer_gives_no_text() {
    assert_eq!(texts(vec![]), vec![]);
}

#[test]
fn single_unit_is_one_text() {
    assert_eq!(texts(vec![unit("x", 5, 5)]), vec![text("x", 5, 5)]);
}

#[test]
fn adjacent_units_merge() {
    assert_eq!(
        texts(vec![unit("a", 0, 0), unit("b", 1, 1), unit("c", 2, 2)]),
        vec![text("abc", 0, 2)]
    );
}

#[test]
fn sealed_run_ends_where_the_sealing_unit_ends() {
    assert_eq!(
        texts(vec![
            unit("a", 0, 0),
            unit("b", 1, 1),
            unit("c", 3, 3),
            unit("d", 4, 4),
            unit("e", 5, 5),
        ]),
        vec![text("ab", 0, 3), text("cde", 3, 5)]
    );
}

#[test]
fn last_unit_joins_the_run_before_it() {
    assert_eq!(texts(vec![unit("a", 0, 0), unit("b", 7, 7)]), vec![text("ab", 0, 7)]);
    assert_eq!(
        texts(vec![unit("a", 0, 0), unit("b", 5, 5), unit("c", 9, 9)]),
        vec![text("a", 0, 5), text("bc", 5, 9)]
    );
}

#[test]
fn every_gap_seals_a_run() {
    assert_eq!(
        texts(vec![unit("a", 0, 0), unit("b", 2, 2), unit("c", 4, 4), unit("d", 6, 6)]),
        vec![text("a", 0, 2), text("b", 2, 4), text("cd", 4, 6)]
    );
}

#[test]
fn adjacency_goes_by_end_alone() {
    assert_eq!(
        texts(vec![unit("a", 10, 3), unit("b", 0, 4), unit("c", 7, 9)]),
        vec![text("abc", 10, 9)]
    );
    assert_eq!(
        texts(vec![unit("a", 0, 3), unit("b", 4, 3), unit("c", 5, 4)]),
        vec![text("a", 0, 3), text("bc", 4, 4)]
    );
}

#[test]
fn unit_ending_at_zero_follows_nothing() {
    assert_eq!(
        texts(vec![unit("a", 1, 1), unit("*", 0, 0), unit("b", 1, 1)]),
        vec![text("a", 1, 0), text("*b", 0, 1)]
    );
    assert_eq!(
        texts(vec![unit("a", 9, u32::MAX), unit("b", 0, 0), unit("c", 1, 1)]),
        vec![text("a", 9, 0), text("bc", 0, 1)]
    );
}

#[test]
fn values_of_any_length_are_joined() {
    assert_eq!(
        texts(vec![unit("", 0, 0), unit("**", 1, 1), unit("xyz", 2, 2)]),
        vec![text("**xyz", 0, 2)]
    );
}

#[test]
fn kind_of_the_units_is_not_read() {
    let units = vec![
        Token { token_type: TokenType::Bold, value: "**".to_string(), start: 0, end: 0 },
        Token { token_type: TokenType::Text, value: "t".to_string(), start: 1, end: 1 },
    ];
    assert_eq!(texts(units), vec![text("**t", 0, 1)]);
}

#[test]
fn token_clone_keeps_the_fields() {
    let t = unit("ab", 3, 4);
    let c = t.clone();
    assert_eq!(c.token_type, TokenType::Character);
    assert_eq!(c.value, "ab");
    assert_eq!((c.start, c.end), (3, 4));
}
