use syma_lsp::protocol::{Position, Range, SemanticToken};
use syma_lsp::semantic::{encode_semantic_tokens, semantic_token_legend, type_of_token};
use syma_lsp::syntax::{
    find_token_span, span_to_range_with_length, syma_span_to_lsp_position, syma_span_to_lsp_range,
    token_display_length, FixedToken, Span, SpannedToken, Token,
};

fn placed(token: Token, line: usize, col: usize) -> SpannedToken {
    SpannedToken { token, span: Span { line, col } }
}

fn name(s: &str) -> Token {
    Token::Ident(s.to_string())
}

fn mark(delta_line: u32, delta_start: u32, length: u32, token_type: u32) -> SemanticToken {
    SemanticToken { delta_line, delta_start, length, token_type, token_modifiers_bitset: 0 }
}

#[test]
fn tokens_are_encoded_relative_to_each_other() {
    let tokens = vec![
        placed(name("Sin"), 1, 1),
        placed(Token::Fixed(FixedToken::LBracket), 1, 4),
        placed(name("x"), 1, 5),
        placed(Token::Fixed(FixedToken::RBracket), 1, 6),
        placed(Token::Integer("12".to_string()), 2, 3),
        placed(Token::Str("hi".to_string()), 2, 7),
        placed(Token::Fixed(FixedToken::If), 4, 1),
        placed(Token::Real("1.5".to_string()), 4, 4),
        placed(Token::Fixed(FixedToken::Eof), 4, 7),
    ];
    assert_eq!(
        encode_semantic_tokens(&tokens),
        Some(vec![
            mark(0, 0, 3, 0),
            mark(0, 4, 1, 4),
            mark(1, 2, 2, 2),
            mark(0, 4, 2, 3),
            mark(2, 0, 2, 1),
            mark(0, 3, 3, 2),
        ])
    );
}

#[test]
fn tokens_are_put_in_order_first() {
    let tokens = vec![
        placed(name("c"), 2, 1),
        placed(name("b"), 1, 5),
        placed(name("A"), 1, 1),
        placed(Token::Integer("1".to_string()), 1, 5),
    ];
    assert_eq!(
        encode_semantic_tokens(&tokens),
        Some(vec![mark(0, 0, 1, 0), mark(0, 4, 1, 4), mark(0, 0, 1, 2), mark(1, 0, 1, 4)])
    );
}

#[test]
fn encoded_tokens_are_read_back() {
    let places = [(1, 1), (1, 7), (3, 2), (3, 2), (3, 9), (10, 1)];
    let tokens: Vec<SpannedToken> =
        places.iter().map(|&(line, col)| placed(name("x"), line, col)).collect();
    let (mut line, mut start) = (0, 0);
    let mut read = Vec::new();
    for t in encode_semantic_tokens(&tokens).unwrap() {
        start = if t.delta_line == 0 { start + t.delta_start } else { t.delta_start };
        line += t.delta_line;
        read.push((line as usize + 1, start as usize + 1));
    }
    assert_eq!(read, places);
    assert!(encode_semantic_tokens(&tokens).unwrap().iter().all(|t| t.token_modifiers_bitset == 0));
}

#[test]
fn nothing_to_highlight() {
    assert_eq!(encode_semantic_tokens(&vec![]), None);
    let tokens = vec![
        placed(Token::Fixed(FixedToken::Plus), 1, 1),
        placed(Token::Fixed(FixedToken::True), 1, 3),
        placed(Token::SlotN(1), 1, 8),
        placed(Token::Operator("<>".to_string()), 1, 11),
    ];
    assert_eq!(encode_semantic_tokens(&tokens), None);
}

#[test]
fn token_types_are_indices_of_the_legend() {
    assert_eq!(semantic_token_legend(), vec!["function", "keyword", "number", "string", "variable"]);
    assert_eq!(type_of_token(&name("Sin")), Some(0));
    assert_eq!(type_of_token(&Token::Fixed(FixedToken::Def)), Some(1));
    assert_eq!(type_of_token(&Token::Integer("1".to_string())), Some(2));
    assert_eq!(type_of_token(&Token::Real("1.0".to_string())), Some(2));
    assert_eq!(type_of_token(&Token::Str("s".to_string())), Some(3));
    assert_eq!(type_of_token(&name("sin")), Some(4));
    assert_eq!(type_of_token(&name("_Sin")), Some(4));
    assert_eq!(type_of_token(&name("")), Some(4));
    assert_eq!(type_of_token(&Token::Fixed(FixedToken::Null)), None);
    assert_eq!(type_of_token(&Token::SlotSequenceN(2)), None);
}

#[test]
fn uppercase_letters_beyond_ascii_start_functions() {
    assert_eq!(type_of_token(&name("Éa")), Some(0));
    assert_eq!(type_of_token(&name("éA")), Some(4));
}

#[test]
fn lengths_count_characters() {
    assert_eq!(token_display_length(&name("été")), 3);
    assert_eq!(token_display_length(&Token::Str("".to_string())), 0);
    assert_eq!(token_display_length(&Token::Operator("<>".to_string())), 2);
    assert_eq!(token_display_length(&Token::SlotN(0)), 2);
    assert_eq!(token_display_length(&Token::SlotN(9)), 2);
    assert_eq!(token_display_length(&Token::SlotN(10)), 3);
    assert_eq!(token_display_length(&Token::SlotSequenceN(7)), 3);
    assert_eq!(token_display_length(&Token::SlotSequenceN(u64::MAX)), 22);
}

#[test]
fn lengths_of_fixed_tokens() {
    let table = [
        (FixedToken::LParen, 1),
        (FixedToken::Unset, 1),
        (FixedToken::LAssoc, 2),
        (FixedToken::DelayedAssign, 2),
        (FixedToken::ColonSlashSemicolon, 2),
        (FixedToken::ReplaceRepeated, 3),
        (FixedToken::Assign, 1),
        (FixedToken::True, 4),
        (FixedToken::False, 5),
        (FixedToken::Null, 4),
        (FixedToken::Newline, 0),
        (FixedToken::Eof, 0),
    ];
    for (token, length) in table {
        assert_eq!(token_display_length(&Token::Fixed(token)), length);
    }
}

#[test]
fn lengths_of_keywords_are_those_of_their_letters() {
    let table = [
        (FixedToken::If, "If"),
        (FixedToken::Which, "Which"),
        (FixedToken::Switch, "Switch"),
        (FixedToken::Match, "Match"),
        (FixedToken::For, "For"),
        (FixedToken::While, "While"),
        (FixedToken::Do, "Do"),
        (FixedToken::Try, "Try"),
        (FixedToken::Catch, "Catch"),
        (FixedToken::Finally, "Finally"),
        (FixedToken::Throw, "Throw"),
        (FixedToken::Function, "Function"),
        (FixedToken::Class, "Class"),
        (FixedToken::Extends, "Extends"),
        (FixedToken::With, "With"),
        (FixedToken::Method, "Method"),
        (FixedToken::Field, "Field"),
        (FixedToken::Constructor, "Constructor"),
        (FixedToken::Module, "Module"),
        (FixedToken::Import, "Import"),
        (FixedToken::Export, "Export"),
        (FixedToken::As, "As"),
        (FixedToken::RuleKw, "Rule"),
        (FixedToken::Hold, "Hold"),
        (FixedToken::HoldComplete, "HoldComplete"),
        (FixedToken::ReleaseHold, "ReleaseHold"),
        (FixedToken::Mixin, "Mixin"),
        (FixedToken::Else, "Else"),
        (FixedToken::Def, "Def"),
    ];
    for (token, spelling) in table {
        assert!(token.is_keyword());
        assert_eq!(token_display_length(&Token::Fixed(token)), spelling.len());
    }
}

#[test]
fn spans_are_counted_from_zero() {
    let origin = Position { line: 0, character: 0 };
    assert_eq!(syma_span_to_lsp_position(&Span { line: 1, col: 1 }), origin);
    assert_eq!(syma_span_to_lsp_position(&Span { line: 0, col: 0 }), origin);
    let place = Span { line: 3, col: 5 };
    let start = Position { line: 2, character: 4 };
    assert_eq!(syma_span_to_lsp_position(&place), start);
    assert_eq!(
        syma_span_to_lsp_range(&place),
        Range { start, end: Position { line: 2, character: 5 } }
    );
    assert_eq!(
        span_to_range_with_length(&place, 7),
        Range { start, end: Position { line: 2, character: 11 } }
    );
    assert_eq!(
        span_to_range_with_length(&Span { line: 0, col: 0 }, 2),
        Range { start: origin, end: Position { line: 0, character: 2 } }
    );
}

#[test]
fn the_first_equal_token_is_found() {
    let tokens = vec![
        placed(name("x"), 1, 1),
        placed(name("y"), 1, 3),
        placed(Token::Str("y".to_string()), 2, 1),
        placed(name("y"), 4, 1),
        placed(Token::SlotN(2), 5, 1),
        placed(Token::SlotSequenceN(2), 6, 1),
        placed(Token::Fixed(FixedToken::Plus), 7, 1),
    ];
    assert_eq!(find_token_span(&tokens, &name("y")), Some(Span { line: 1, col: 3 }));
    assert_eq!(
        find_token_span(&tokens, &Token::Str("y".to_string())),
        Some(Span { line: 2, col: 1 })
    );
    assert_eq!(
        find_token_span(&tokens, &Token::SlotSequenceN(2)),
        Some(Span { line: 6, col: 1 })
    );
    assert_eq!(
        find_token_span(&tokens, &Token::Fixed(FixedToken::Plus)),
        Some(Span { line: 7, col: 1 })
    );
    assert_eq!(find_token_span(&tokens, &name("z")), None);
    assert_eq!(find_token_span(&tokens, &Token::Integer("y".to_string())), None);
}
