use syma_lsp::cursor::token_at_position;
use syma_lsp::protocol::{Position, Range, TextEdit};
use syma_lsp::rename::compute_rename_edits;

fn spot(line: u32, from: u32, to: u32) -> Range {
    Range {
        start: Position { line, character: from },
        end: Position { line, character: to },
    }
}

fn spots(text: &str, name: &str) -> Vec<Range> {
    compute_rename_edits(text, name, "new").iter().map(|e| e.range).collect()
}

fn edited(line: &str, edits: &[TextEdit]) -> String {
    let mut chars: Vec<char> = line.chars().collect();
    for edit in edits.iter().rev() {
        let from = edit.range.start.character as usize;
        let to = edit.range.end.character as usize;
        chars.splice(from..to, edit.new_text.chars());
    }
    chars.into_iter().collect()
}

#[test]
fn whole_words_are_renamed() {
    let text = "foo foobar foo_ foo\nx$foo foo.";
    assert_eq!(spots(text, "foo"), vec![spot(0, 0, 3), spot(0, 16, 19), spot(1, 6, 9)]);
    for edit in compute_rename_edits(text, "foo", "bar") {
        assert_eq!(edit.new_text, "bar");
    }
}

#[test]
fn rename_columns_count_characters() {
    assert_eq!(spots("é foo", "foo"), vec![spot(0, 2, 5)]);
    assert_eq!(spots("+ été", "été"), vec![spot(0, 2, 5)]);
}

#[test]
fn letters_beyond_ascii_belong_to_words() {
    assert_eq!(spots("éfoo fooé", "foo"), vec![]);
    assert_eq!(spots("«foo» fooé", "foo"), vec![spot(0, 1, 4)]);
}

#[test]
fn occurrences_do_not_overlap() {
    assert_eq!(spots("aa aa aaa", "aa"), vec![spot(0, 0, 2), spot(0, 3, 5)]);
    assert_eq!(spots("a.a.a", "a.a"), vec![spot(0, 0, 3)]);
    assert_eq!(spots("xa-a-a", "a-a"), vec![]);
}

#[test]
fn nothing_is_found_in_nothing() {
    assert_eq!(spots("", "foo"), vec![]);
    assert_eq!(spots("fo", "foo"), vec![]);
    assert_eq!(spots("a b", ""), vec![]);
    assert_eq!(spots(" ", ""), vec![spot(0, 0, 0), spot(0, 1, 1)]);
}

#[test]
fn lines_with_carriage_returns_are_renamed() {
    assert_eq!(spots("x\r\ny = x\r\n", "x"), vec![spot(0, 0, 1), spot(1, 4, 5)]);
}

#[test]
fn applied_edits_rename_the_words_of_a_line() {
    let line = "x + max[x, x_, x$, y] - (x)";
    let edits = compute_rename_edits(line, "x", "value");
    assert_eq!(edited(line, &edits), "value + max[value, x_, x$, y] - (value)");
}

#[test]
fn rename_back_undoes_rename() {
    let line = "x + max[x, x_, x$, y] - (x)";
    let once = edited(line, &compute_rename_edits(line, "x", "value"));
    assert!(compute_rename_edits(&once, "x", "other").is_empty());
    let back = edited(&once, &compute_rename_edits(&once, "value", "x"));
    assert_eq!(back, line);
}

fn edited_text(text: &str, edits: &[TextEdit]) -> String {
    let mut starts = vec![0];
    for (i, c) in text.chars().enumerate() {
        if c == '\n' {
            starts.push(i + 1);
        }
    }
    let mut chars: Vec<char> = text.chars().collect();
    for edit in edits.iter().rev() {
        let start = starts[edit.range.start.line as usize] + edit.range.start.character as usize;
        let end = starts[edit.range.end.line as usize] + edit.range.end.character as usize;
        chars.splice(start..end, edit.new_text.chars());
    }
    chars.into_iter().collect()
}

#[test]
fn a_text_is_renamed_and_back() {
    let text = "x = é + x\r\n\n\tf[x, xs]\n(* x *)\r";
    assert!(compute_rename_edits(text, "value", "value").is_empty());
    let once = edited_text(text, &compute_rename_edits(text, "x", "value"));
    assert_eq!(once, "value = é + value\r\n\n\tf[value, xs]\n(* value *)\r");
    assert!(compute_rename_edits(&once, "x", "value").is_empty());
    assert_eq!(edited_text(&once, &compute_rename_edits(&once, "value", "x")), text);
}

#[test]
fn the_word_at_an_edit_is_the_renamed_word() {
    let text = "x + (x - y$x)\nmax[x]\n x";
    let edits = compute_rename_edits(text, "x", "z");
    assert_eq!(edits.len(), 4);
    for edit in edits {
        assert_eq!(token_at_position(text, edit.range.start).as_deref(), Some("x"));
    }
}

#[test]
fn rename_to_a_word_of_the_line_is_not_undone() {
    let line = "x + y";
    let once = edited(line, &compute_rename_edits(line, "x", "y"));
    let back = edited(&once, &compute_rename_edits(&once, "y", "x"));
    assert_eq!(back, "x + x");
}
