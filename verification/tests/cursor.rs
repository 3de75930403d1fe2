use syma_lsp::cursor::{
    is_word_prefix_at, position_to_byte_offset, token_at_position, word_prefix_at_position,
};
use syma_lsp::protocol::Position;
use syma_lsp::strings::space;
use syma_lsp::text::{line_bounds, split_lines, width_of};

fn at(line: u32, character: u32) -> Position {
    Position { line, character }
}

fn word(text: &str, line: u32, character: u32) -> Option<String> {
    token_at_position(text, at(line, character))
}

#[test]
fn the_word_around_the_cursor_is_found() {
    assert_eq!(word("foo = bar + 1\n", 0, 6).as_deref(), Some("bar"));
    assert_eq!(word("foo = bar + 1\n", 0, 0).as_deref(), Some("foo"));
    assert_eq!(word("foo = bar + 1\n", 0, 1).as_deref(), Some("foo"));
    assert_eq!(word("foo = bar + 1\n", 0, 8).as_deref(), Some("bar"));
    assert_eq!(word("foo+1", 0, 1).as_deref(), Some("foo"));
    assert_eq!(word("été+1", 0, 3).as_deref(), Some("été"));
    assert_eq!(word("a$b_1 c", 0, 0).as_deref(), Some("a$b_1"));
}

#[test]
fn no_word_at_the_cursor() {
    assert_eq!(word("foo = bar", 0, 3), None);
    assert_eq!(word("foo", 0, 3), None);
    assert_eq!(word("foo", 0, 4), None);
    assert_eq!(word("foo", 1, 0), None);
    assert_eq!(word("", 0, 0), None);
}

#[test]
fn columns_count_bytes() {
    assert_eq!(word("é x", 0, 3).as_deref(), Some("x"));
    assert_eq!(word("é x", 0, 1), None);
    assert_eq!(word("😀x", 0, 4).as_deref(), Some("x"));
}

#[test]
fn words_hold_letters_beyond_ascii() {
    assert_eq!(word("été+1", 0, 0).as_deref(), Some("été"));
    assert_eq!(word("😀x", 0, 0), None);
    assert_eq!(word("x¾y", 0, 0).as_deref(), Some("x¾y"));
    assert_eq!(word("x«y", 0, 0).as_deref(), Some("x"));
}

#[test]
fn carriage_returns_before_line_feeds_are_not_part_of_lines() {
    assert_eq!(word("ab\r\ncd", 0, 0).as_deref(), Some("ab"));
    assert_eq!(word("ab\r\ncd", 1, 0).as_deref(), Some("cd"));
    let chars: Vec<char> = "a\r\n\nb\r".chars().collect();
    let lines: Vec<String> = split_lines(&chars).iter().map(|l| l.iter().collect()).collect();
    assert_eq!(lines, vec!["a".to_string(), "".to_string(), "b\r".to_string()]);
}

#[test]
fn lines_are_found_in_the_text() {
    let text = "ab\r\ncde\n\nf\n";
    let chars: Vec<char> = text.chars().collect();
    let lines = split_lines(&chars);
    assert_eq!(lines.len(), text.lines().count());
    for (n, line) in text.lines().enumerate() {
        let (start, end) = line_bounds(&chars, n).unwrap();
        let found: String = chars[start..end].iter().collect();
        assert_eq!(found, line);
        assert!(!found.contains('\n'));
        assert_eq!(lines[n].iter().collect::<String>(), line);
    }
    assert_eq!(line_bounds(&chars, lines.len()), None);
    assert_eq!(line_bounds(&Vec::new(), 0), None);
}

#[test]
fn prefix_is_cut_before_the_cursor() {
    assert_eq!(word_prefix_at_position("foo.ba", at(0, 6)), "ba");
    assert_eq!(word_prefix_at_position("foo.bar", at(0, 6)), "ba");
    assert_eq!(word_prefix_at_position("foo.ba", at(0, 99)), "ba");
    assert_eq!(word_prefix_at_position("foo.ba", at(0, 4)), "");
    assert_eq!(word_prefix_at_position("foo", at(7, 1)), "");
    assert_eq!(word_prefix_at_position("a$b", at(0, 3)), "b");
    assert_eq!(word_prefix_at_position("été", at(0, 5)), "été");
    assert_eq!(word_prefix_at_position("x\ny_1", at(1, 3)), "y_1");
}

#[test]
fn prefix_cannot_be_cut_within_a_character() {
    assert!(!is_word_prefix_at("é", at(0, 1)));
    assert!(is_word_prefix_at("é", at(0, 2)));
    assert!(is_word_prefix_at("é", at(0, 0)));
}

#[test]
fn prefix_cannot_be_cut_behind_a_wide_separator() {
    assert!(!is_word_prefix_at("«a", at(0, 3)));
    assert!(is_word_prefix_at("« a", at(0, 4)));
    assert!(!is_word_prefix_at("«", at(0, 2)));
}

#[test]
fn prefix_can_always_be_cut_in_ascii_text() {
    let text = "f[x_] := x + 1;\r\n\n  g[f, ";
    for line in 0..5 {
        for character in 0..20 {
            assert!(is_word_prefix_at(text, at(line, character)));
        }
    }
}

#[test]
fn byte_offset_counts_from_the_start_of_the_text() {
    assert_eq!(position_to_byte_offset("ab\ncd", at(0, 0)), Some(0));
    assert_eq!(position_to_byte_offset("ab\ncd", at(0, 2)), Some(2));
    assert_eq!(position_to_byte_offset("ab\ncd", at(1, 1)), Some(4));
    assert_eq!(position_to_byte_offset("ab\ncd", at(1, 2)), Some(5));
    assert_eq!(position_to_byte_offset("a\r\n\nb", at(1, 0)), Some(3));
    assert_eq!(position_to_byte_offset("é\nx", at(1, 0)), Some(3));
}

#[test]
fn byte_offset_of_a_missing_column_is_that_of_the_last_character() {
    assert_eq!(position_to_byte_offset("ab\ncd", at(1, 9)), Some(4));
    assert_eq!(position_to_byte_offset("a\n\nb", at(1, 5)), Some(2));
    assert_eq!(position_to_byte_offset("xé\nx", at(0, 2)), Some(1));
}

#[test]
fn byte_offset_of_a_missing_line() {
    assert_eq!(position_to_byte_offset("ab\n", at(1, 0)), None);
    assert_eq!(position_to_byte_offset("", at(0, 0)), None);
}

#[test]
fn byte_offset_is_line_start_and_column() {
    let text = "α = 1\nß_β[x] := 2\n";
    let start = text.find('ß').unwrap();
    for (column, _) in "ß_β[x] := 2".char_indices() {
        let offset = position_to_byte_offset(text, at(1, column as u32));
        assert_eq!(offset, Some(start + column));
    }
}

#[test]
fn white_space_is_that_of_unicode() {
    for c in '\0'..=char::MAX {
        let listed = matches!(
            c,
            '\t'..='\r' | ' ' | '\u{85}' | '\u{a0}' | '\u{1680}' | '\u{2000}'..='\u{200a}'
                | '\u{2028}' | '\u{2029}' | '\u{202f}' | '\u{205f}' | '\u{3000}'
        );
        assert_eq!(space(c), listed);
    }
}

#[test]
fn widths_are_those_of_utf8() {
    for c in ['a', '\u{7f}', '\u{80}', '\u{7ff}', '\u{800}', '\u{ffff}', '\u{10000}', '😀'] {
        assert_eq!(width_of(c), c.len_utf8());
    }
}
