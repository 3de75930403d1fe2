use syma_lsp::folding::{add_bracket_folding, char_index_to_line_offset, get_folding_ranges};
use syma_lsp::protocol::{FoldingRange, FoldingRangeKind, Position};

fn fold(from: (u32, u32), to: (u32, u32), kind: FoldingRangeKind) -> FoldingRange {
    FoldingRange {
        start_line: from.0,
        start_character: from.1,
        end_line: to.0,
        end_character: to.1,
        kind,
    }
}

#[test]
fn regions_over_lines_are_folded() {
    assert_eq!(
        get_folding_ranges("f[\n x\n]"),
        vec![fold((0, 1), (2, 0), FoldingRangeKind::Region)]
    );
    assert_eq!(
        get_folding_ranges("{\n}"),
        vec![fold((0, 0), (1, 0), FoldingRangeKind::Region)]
    );
}

#[test]
fn short_regions_on_a_line_are_not_folded() {
    assert_eq!(get_folding_ranges("(abc)"), vec![]);
    assert_eq!(
        get_folding_ranges("(abcd)"),
        vec![fold((0, 0), (0, 5), FoldingRangeKind::Region)]
    );
}

#[test]
fn comments_are_folded() {
    assert_eq!(
        get_folding_ranges("(* c *)"),
        vec![fold((0, 0), (0, 7), FoldingRangeKind::Comment)]
    );
    assert_eq!(
        get_folding_ranges("x (*\n*) y"),
        vec![fold((0, 2), (1, 2), FoldingRangeKind::Comment)]
    );
    assert_eq!(get_folding_ranges("(**)"), vec![]);
    assert_eq!(
        get_folding_ranges("(* *)"),
        vec![fold((0, 0), (0, 5), FoldingRangeKind::Comment)]
    );
}

#[test]
fn comments_nest() {
    assert_eq!(
        get_folding_ranges("(* (* *) *)"),
        vec![fold((0, 0), (0, 11), FoldingRangeKind::Comment)]
    );
}

#[test]
fn brackets_in_comments_are_not_folded() {
    assert_eq!(
        get_folding_ranges("(* [abcdefg] *)"),
        vec![fold((0, 0), (0, 15), FoldingRangeKind::Comment)]
    );
}

#[test]
fn unclosed_comments_are_no_comments() {
    assert_eq!(get_folding_ranges("(* ab"), vec![]);
    assert_eq!(
        get_folding_ranges("(* [abcde]"),
        vec![fold((0, 3), (0, 9), FoldingRangeKind::Region)]
    );
    assert_eq!(get_folding_ranges("(* (* abcdef *)"), vec![fold(
        (0, 3),
        (0, 15),
        FoldingRangeKind::Comment
    )]);
}

#[test]
fn brackets_of_any_shape_match() {
    assert_eq!(
        get_folding_ranges("(abcd]"),
        vec![fold((0, 0), (0, 5), FoldingRangeKind::Region)]
    );
    assert_eq!(get_folding_ranges(")]}"), vec![]);
    assert_eq!(get_folding_ranges("((([[["), vec![]);
}

#[test]
fn inner_folds_come_first_and_nest() {
    let ranges = get_folding_ranges("[[abcde]fghi] {\n}");
    assert_eq!(
        ranges,
        vec![
            fold((0, 1), (0, 7), FoldingRangeKind::Region),
            fold((0, 0), (0, 12), FoldingRangeKind::Region),
            fold((0, 14), (1, 0), FoldingRangeKind::Region),
        ]
    );
}

#[test]
fn every_long_fold_is_offered() {
    let text = "f[{1, 2, 3}, (4)]";
    let ranges = get_folding_ranges(text);
    assert_eq!(
        ranges,
        vec![
            fold((0, 2), (0, 10), FoldingRangeKind::Region),
            fold((0, 1), (0, 16), FoldingRangeKind::Region),
        ]
    );
}

#[test]
fn an_empty_line_in_front_lowers_all_ranges() {
    let text = "f[\n x, {1, 2, 3}] (* c\n *)";
    let ranges = get_folding_ranges(text);
    assert_eq!(ranges.len(), 3);
    let lowered: Vec<FoldingRange> = ranges
        .iter()
        .map(|r| FoldingRange { start_line: r.start_line + 1, end_line: r.end_line + 1, ..*r })
        .collect();
    assert_eq!(get_folding_ranges(&format!("\n{}", text)), lowered);
}

#[test]
fn indices_are_turned_into_positions() {
    assert_eq!(char_index_to_line_offset("ab\ncd", 0), Position { line: 0, character: 0 });
    assert_eq!(char_index_to_line_offset("ab\ncd", 2), Position { line: 0, character: 2 });
    assert_eq!(char_index_to_line_offset("ab\ncd", 4), Position { line: 1, character: 1 });
    assert_eq!(char_index_to_line_offset("ab\ncd", 99), Position { line: 1, character: 2 });
    assert_eq!(char_index_to_line_offset("é\né", 3), Position { line: 1, character: 1 });
}

#[test]
fn a_region_is_added_if_it_is_long_enough() {
    let mut ranges = Vec::new();
    add_bracket_folding(&mut ranges, "(abcd)", 0, 4, FoldingRangeKind::Region);
    assert!(ranges.is_empty());
    add_bracket_folding(&mut ranges, "(abcd)", 0, 5, FoldingRangeKind::Region);
    add_bracket_folding(&mut ranges, "(\n)", 0, 2, FoldingRangeKind::Comment);
    assert_eq!(
        ranges,
        vec![
            fold((0, 0), (0, 5), FoldingRangeKind::Region),
            fold((0, 0), (1, 0), FoldingRangeKind::Comment),
        ]
    );
}
