//! Folding ranges: nested `(* .. *)` comments and bracketed regions.

use crate::protocol::{FoldingRange, FoldingRangeKind, Position};
use crate::strings::chars_of;
use crate::text::{run_back, run_back_in, CharClass};
use vstd::prelude::*;

verus! {

/// How often `c` occurs in `s`.
pub open spec fn count_char(s: Seq<char>, c: char) -> nat
    decreases s.len(),
{
    if s.len() == 0 {
        0
    } else {
        count_char(s.drop_last(), c) + (if s.last() == c {
            1nat
        } else {
            0nat
        })
    }
}

/// The position of the character with index `idx`: the line feeds before it
/// and the characters since the last of them.
pub open spec fn line_offset(text: Seq<char>, idx: int) -> Position {
    let before = if idx <= text.len() {
        text.take(idx)
    } else {
        text
    };
    Position {
        line: count_char(before, '\n') as u32,
        character: run_back(before, CharClass::Not('\n')) as u32,
    }
}

/// A part of a text that can be collapsed. A region ends at its closing
/// bracket, a comment behind its closing `*)`.
pub struct Fold {
    pub open: int,
    pub close: int,
    pub kind: FoldingRangeKind,
}

/// The index of the `*)` that closes a comment, where the comment is `depth`
/// levels deep at index `j`.
pub open spec fn comment_end(s: Seq<char>, j: int, depth: nat) -> Option<int>
    decreases s.len() - j,
{
    if j + 1 >= s.len() || depth == 0 {
        None
    } else if s[j] == '(' && s[j + 1] == '*' {
        comment_end(s, j + 2, depth + 1)
    } else if s[j] == '*' && s[j + 1] == ')' {
        if depth == 1 {
            Some(j)
        } else {
            comment_end(s, j + 2, (depth - 1) as nat)
        }
    } else {
        comment_end(s, j + 1, depth)
    }
}

/// Whether a comment opens at index `i`.
pub open spec fn opens_comment(s: Seq<char>, i: int) -> bool {
    i + 1 < s.len() && s[i] == '(' && s[i + 1] == '*'
}

/// Whether `c` is an opening bracket.
pub open spec fn is_opening(c: char) -> bool {
    c == '(' || c == '[' || c == '{'
}

/// Whether `c` is a closing bracket.
pub open spec fn is_closing(c: char) -> bool {
    c == ')' || c == ']' || c == '}'
}

/// The folds that end at or after index `i`, in the order of their ends,
/// where the brackets at the indices in `stack` are open at `i`. A closing
/// bracket of any shape closes the innermost open bracket. A `(*` without its
/// `*)` opens nothing.
pub open spec fn folds_from(s: Seq<char>, i: int, stack: Seq<int>) -> Seq<Fold>
    decreases s.len() - i,
    via folds_from_decreases
{
    if i >= s.len() {
        Seq::empty()
    } else if opens_comment(s, i) {
        match comment_end(s, i + 2, 1) {
            Some(end) => seq![
                Fold { open: i, close: end + 2, kind: FoldingRangeKind::Comment },
            ] + folds_from(s, end + 2, stack),
            None => folds_from(s, i + 1, stack),
        }
    } else if is_opening(s[i]) {
        folds_from(s, i + 1, stack.push(i))
    } else if is_closing(s[i]) && stack.len() > 0 {
        seq![Fold { open: stack.last(), close: i, kind: FoldingRangeKind::Region }] + folds_from(
            s,
            i + 1,
            stack.drop_last(),
        )
    } else {
        folds_from(s, i + 1, stack)
    }
}

#[via_fn]
proof fn folds_from_decreases(s: Seq<char>, i: int, stack: Seq<int>) {
    lemma_comment_end(s, i + 2, 1);
}

/// The folds of a text.
pub open spec fn folds(text: Seq<char>) -> Seq<Fold> {
    folds_from(text, 0, Seq::empty())
}

/// Whether a fold is worth offering: it spans lines, or it is long enough on
/// its line.
pub open spec fn is_offered(text: Seq<char>, fold: Fold) -> bool {
    let start = line_offset(text, fold.open);
    let end = line_offset(text, fold.close);
    end.line > start.line || (end.line == start.line && fold.close - fold.open > 4)
}

/// The folding range of a fold.
pub open spec fn fold_range(text: Seq<char>, fold: Fold) -> FoldingRange {
    let start = line_offset(text, fold.open);
    let end = line_offset(text, fold.close);
    FoldingRange {
        start_line: start.line,
        start_character: start.character,
        end_line: end.line,
        end_character: end.character,
        kind: fold.kind,
    }
}

/// The folding ranges of those folds that are offered.
pub open spec fn offered_ranges(text: Seq<char>, all: Seq<Fold>) -> Seq<FoldingRange>
    decreases all.len(),
{
    if all.len() == 0 {
        Seq::empty()
    } else {
        let before = offered_ranges(text, all.drop_last());
        if is_offered(text, all.last()) {
            before.push(fold_range(text, all.last()))
        } else {
            before
        }
    }
}

/// The folding ranges of a text.
pub open spec fn folding_ranges(text: Seq<char>) -> Seq<FoldingRange> {
    offered_ranges(text, folds(text))
}

/// A comment's end lies behind its start, at a `*)`.
pub proof fn lemma_comment_end(s: Seq<char>, j: int, depth: nat)
    ensures
        comment_end(s, j, depth) matches Some(end) ==> j <= end && end + 2 <= s.len() && s[end]
            == '*' && s[end + 1] == ')',
    decreases s.len() - j,
{
    if j + 1 >= s.len() || depth == 0 {
    } else if s[j] == '(' && s[j + 1] == '*' {
        lemma_comment_end(s, j + 2, depth + 1);
    } else if s[j] == '*' && s[j + 1] == ')' {
        if depth != 1 {
            lemma_comment_end(s, j + 2, (depth - 1) as nat);
        }
    } else {
        lemma_comment_end(s, j + 1, depth);
    }
}

/// What the open brackets are at index `i`: opening brackets before `i`, from
/// the outside in.
pub open spec fn is_bracket_stack(s: Seq<char>, i: int, stack: Seq<int>) -> bool {
    &&& forall|a: int|
        0 <= a < stack.len() ==> 0 <= #[trigger] stack[a] < i && stack[a] < s.len() && is_opening(
            s[stack[a]],
        )
    &&& forall|a: int, b: int|
        0 <= a < b < stack.len() ==> #[trigger] stack[a] < #[trigger] stack[b]
}

/// A fold starts and ends at its delimiters.
pub open spec fn is_delimited(s: Seq<char>, fold: Fold) -> bool {
    match fold.kind {
        FoldingRangeKind::Region => {
            &&& 0 <= fold.open < fold.close < s.len()
            &&& is_opening(s[fold.open])
            &&& is_closing(s[fold.close])
        },
        FoldingRangeKind::Comment => {
            &&& 0 <= fold.open
            &&& fold.open + 4 <= fold.close <= s.len()
            &&& s[fold.open] == '(' && s[fold.open + 1] == '*'
            &&& s[fold.close - 2] == '*' && s[fold.close - 1] == ')'
        },
    }
}

/// Of two folds, the one that ends later encloses the other or starts behind
/// it.
pub open spec fn is_nested(earlier: Fold, later: Fold) -> bool {
    later.open < earlier.open || earlier.close <= later.open
}

/// Folds stand between their delimiters, end at or behind the start of the scan
/// in the order of their ends, and do not cross.
pub proof fn lemma_folds_from(s: Seq<char>, i: int, stack: Seq<int>)
    requires
        0 <= i,
        is_bracket_stack(s, i, stack),
    ensures
        forall|a: int|
            0 <= a < folds_from(s, i, stack).len() ==> is_delimited(
                s,
                #[trigger] folds_from(s, i, stack)[a],
            ) && i <= folds_from(s, i, stack)[a].close,
        forall|a: int|
            0 <= a < folds_from(s, i, stack).len() ==> (i <= (
            #[trigger] folds_from(s, i, stack)[a]).open || stack.contains(
                folds_from(s, i, stack)[a].open,
            )),
        forall|a: int, b: int|
            0 <= a < b < folds_from(s, i, stack).len() ==> is_nested(
                #[trigger] folds_from(s, i, stack)[a],
                #[trigger] folds_from(s, i, stack)[b],
            ),
        forall|a: int, b: int|
            0 <= a < b < folds_from(s, i, stack).len() ==> (#[trigger] folds_from(
                s,
                i,
                stack,
            )[a]).close <= (#[trigger] folds_from(s, i, stack)[b]).close,
    decreases s.len() - i,
{
    if i >= s.len() {
    } else if opens_comment(s, i) {
        lemma_comment_end(s, i + 2, 1);
        match comment_end(s, i + 2, 1) {
            Some(end) => {
                lemma_folds_from(s, end + 2, stack);
                let rest = folds_from(s, end + 2, stack);
                let all = folds_from(s, i, stack);
                assert(all[0] == Fold { open: i, close: end + 2, kind: FoldingRangeKind::Comment });
                assert(forall|a: int| 0 < a < all.len() ==> #[trigger] all[a] == rest[a - 1]);
            },
            None => {
                lemma_folds_from(s, i + 1, stack);
            },
        }
    } else if is_opening(s[i]) {
        lemma_folds_from(s, i + 1, stack.push(i));
        let all = folds_from(s, i, stack);
        assert forall|a: int| 0 <= a < all.len() implies i <= (#[trigger] all[a]).open
            || stack.contains(all[a].open) by {
            if stack.push(i).contains(all[a].open) {
                let k = choose|k: int| 0 <= k < stack.push(i).len() && stack.push(i)[k] == all[a].open;
                if k < stack.len() {
                    assert(stack[k] == all[a].open);
                }
            }
        }
    } else if is_closing(s[i]) && stack.len() > 0 {
        let inner = stack.drop_last();
        lemma_folds_from(s, i + 1, inner);
        let rest = folds_from(s, i + 1, inner);
        let all = folds_from(s, i, stack);
        assert(all[0] == Fold { open: stack.last(), close: i, kind: FoldingRangeKind::Region });
        assert(forall|a: int| 0 < a < all.len() ==> #[trigger] all[a] == rest[a - 1]);
        assert(stack[stack.len() - 1] == stack.last());
        assert forall|a: int| 0 < a < all.len() implies (i <= (#[trigger] all[a]).open
            || stack.contains(all[a].open)) && is_nested(all[0], all[a]) by {
            if inner.contains(rest[a - 1].open) {
                let k = choose|k: int| 0 <= k < inner.len() && inner[k] == rest[a - 1].open;
                assert(stack[k] == rest[a - 1].open);
            }
        }
    } else {
        lemma_folds_from(s, i + 1, stack);
    }
}

/// Every fold of a text stands between its delimiters, the folds come in the
/// order of their ends, and no two folds cross.
pub proof fn law_folds_are_delimited_and_nested(text: Seq<char>)
    ensures
        forall|a: int|
            0 <= a < folds(text).len() ==> is_delimited(text, #[trigger] folds(text)[a]),
        forall|a: int, b: int|
            0 <= a < b < folds(text).len() ==> is_nested(
                #[trigger] folds(text)[a],
                #[trigger] folds(text)[b],
            ),
        forall|a: int, b: int|
            0 <= a < b < folds(text).len() ==> (#[trigger] folds(text)[a]).close <= (
            #[trigger] folds(text)[b]).close,
{
    lemma_folds_from(text, 0, Seq::empty());
}

/// The folding ranges of a text are those of its offered folds, no more and
/// no less.
pub proof fn law_folding_ranges_are_the_offered_folds(text: Seq<char>, r: FoldingRange)
    ensures
        folding_ranges(text).contains(r) <==> exists|a: int|
            0 <= a < folds(text).len() && is_offered(text, #[trigger] folds(text)[a])
                && fold_range(text, folds(text)[a]) == r,
{
    lemma_offered_ranges(text, folds(text), r);
}

proof fn lemma_offered_ranges(text: Seq<char>, all: Seq<Fold>, r: FoldingRange)
    ensures
        offered_ranges(text, all).contains(r) <==> exists|a: int|
            0 <= a < all.len() && is_offered(text, #[trigger] all[a]) && fold_range(text, all[a])
                == r,
    decreases all.len(),
{
    if all.len() > 0 {
        let init = all.drop_last();
        let before = offered_ranges(text, init);
        let after = offered_ranges(text, all);
        lemma_offered_ranges(text, init, r);
        if after.contains(r) {
            let k = choose|k: int| 0 <= k < after.len() && after[k] == r;
            if k < before.len() {
                assert(before[k] == r);
                let a = choose|a: int|
                    0 <= a < init.len() && is_offered(text, #[trigger] init[a]) && fold_range(
                        text,
                        init[a],
                    ) == r;
                assert(is_offered(text, all[a]));
            } else {
                assert(is_offered(text, all[all.len() - 1]));
            }
        }
        if exists|a: int|
            0 <= a < all.len() && is_offered(text, #[trigger] all[a]) && fold_range(text, all[a])
                == r {
            let a = choose|a: int|
                0 <= a < all.len() && is_offered(text, #[trigger] all[a]) && fold_range(
                    text,
                    all[a],
                ) == r;
            if a < init.len() {
                assert(is_offered(text, init[a]));
                let k = choose|k: int| 0 <= k < before.len() && before[k] == r;
                assert(after[k] == r);
            } else {
                assert(after[before.len() as int] == r);
            }
        }
    }
}

/// The text with an empty line in front of it.
pub open spec fn below_empty_line(text: Seq<char>) -> Seq<char> {
    seq!['\n'] + text
}

/// A fold, one character further on.
spec fn moved(fold: Fold) -> Fold {
    Fold { open: fold.open + 1, close: fold.close + 1, kind: fold.kind }
}

/// A folding range, one line further down.
pub open spec fn lowered(r: FoldingRange) -> FoldingRange {
    FoldingRange {
        start_line: (r.start_line + 1) as u32,
        start_character: r.start_character,
        end_line: (r.end_line + 1) as u32,
        end_character: r.end_character,
        kind: r.kind,
    }
}

proof fn lemma_moved_comment_end(s: Seq<char>, j: int, depth: nat)
    requires
        0 <= j,
    ensures
        comment_end(below_empty_line(s), j + 1, depth) == (match comment_end(s, j, depth) {
            Some(end) => Some(end + 1),
            None => None::<int>,
        }),
    decreases s.len() - j,
{
    let t = below_empty_line(s);
    if j + 1 >= s.len() || depth == 0 {
    } else {
        assert(t[j + 1] == s[j] && t[j + 2] == s[j + 1]);
        if s[j] == '(' && s[j + 1] == '*' {
            lemma_moved_comment_end(s, j + 2, depth + 1);
        } else if s[j] == '*' && s[j + 1] == ')' {
            if depth != 1 {
                lemma_moved_comment_end(s, j + 2, (depth - 1) as nat);
            }
        } else {
            lemma_moved_comment_end(s, j + 1, depth);
        }
    }
}

proof fn lemma_moved_folds(s: Seq<char>, i: int, stack: Seq<int>, moved_stack: Seq<int>)
    requires
        0 <= i,
        moved_stack.len() == stack.len(),
        forall|a: int| 0 <= a < stack.len() ==> #[trigger] moved_stack[a] == stack[a] + 1,
    ensures
        folds_from(below_empty_line(s), i + 1, moved_stack) == folds_from(s, i, stack).map_values(
            |fold: Fold| moved(fold),
        ),
    decreases s.len() - i,
{
    let t = below_empty_line(s);
    let f = |fold: Fold| moved(fold);
    let all = folds_from(s, i, stack);
    let after = folds_from(t, i + 1, moved_stack);
    if i >= s.len() {
        assert(after =~= all.map_values(f));
    } else {
        assert(t[i + 1] == s[i]);
        if i + 1 < s.len() {
            assert(t[i + 2] == s[i + 1]);
        }
        if opens_comment(s, i) {
            lemma_comment_end(s, i + 2, 1);
            lemma_moved_comment_end(s, i + 2, 1);
            match comment_end(s, i + 2, 1) {
                Some(end) => {
                    lemma_moved_folds(s, end + 2, stack, moved_stack);
                    let fold = Fold { open: i, close: end + 2, kind: FoldingRangeKind::Comment };
                    assert(all == seq![fold] + folds_from(s, end + 2, stack));
                    assert(after =~= all.map_values(f));
                },
                None => {
                    lemma_moved_folds(s, i + 1, stack, moved_stack);
                },
            }
        } else if is_opening(s[i]) {
            lemma_moved_folds(s, i + 1, stack.push(i), moved_stack.push(i + 1));
        } else if is_closing(s[i]) && stack.len() > 0 {
            lemma_moved_folds(s, i + 1, stack.drop_last(), moved_stack.drop_last());
            assert(moved_stack[stack.len() - 1] == stack[stack.len() - 1] + 1);
            let fold = Fold { open: stack.last(), close: i, kind: FoldingRangeKind::Region };
            assert(all == seq![fold] + folds_from(s, i + 1, stack.drop_last()));
            assert(after =~= all.map_values(f));
        } else {
            lemma_moved_folds(s, i + 1, stack, moved_stack);
        }
    }
}

proof fn lemma_count_below_empty_line(s: Seq<char>)
    ensures
        count_char(below_empty_line(s), '\n') == count_char(s, '\n') + 1,
        run_back(below_empty_line(s), CharClass::Not('\n')) == run_back(s, CharClass::Not('\n')),
    decreases s.len(),
{
    let t = below_empty_line(s);
    if s.len() == 0 {
        assert(t.drop_last() =~= s);
        assert(t.last() == '\n');
    } else {
        lemma_count_below_empty_line(s.drop_last());
        assert(t.drop_last() =~= below_empty_line(s.drop_last()));
        assert(t.last() == s.last());
    }
}

proof fn lemma_count_prefix(s: Seq<char>, k: int, c: char)
    requires
        0 <= k <= s.len(),
    ensures
        count_char(s.take(k), c) <= count_char(s, c),
    decreases s.len(),
{
    if k == s.len() {
        assert(s.take(k) =~= s);
    } else {
        lemma_count_prefix(s.drop_last(), k, c);
        assert(s.drop_last().take(k) =~= s.take(k));
    }
}

proof fn lemma_moved_offset(text: Seq<char>, idx: int)
    requires
        0 <= idx <= text.len(),
        count_char(text, '\n') < u32::MAX,
    ensures
        line_offset(text, idx).line < u32::MAX,
        line_offset(below_empty_line(text), idx + 1) == (Position {
            line: (line_offset(text, idx).line + 1) as u32,
            character: line_offset(text, idx).character,
        }),
{
    lemma_count_prefix(text, idx, '\n');
    lemma_count_below_empty_line(text.take(idx));
    assert(below_empty_line(text).take(idx + 1) =~= below_empty_line(text.take(idx)));
}

proof fn lemma_moved_ranges(text: Seq<char>, all: Seq<Fold>)
    requires
        count_char(text, '\n') < u32::MAX,
        forall|a: int| 0 <= a < all.len() ==> is_delimited(text, #[trigger] all[a]),
    ensures
        offered_ranges(below_empty_line(text), all.map_values(|fold: Fold| moved(fold)))
            == offered_ranges(text, all).map_values(|r: FoldingRange| lowered(r)),
    decreases all.len(),
{
    let t = below_empty_line(text);
    let f = |fold: Fold| moved(fold);
    let g = |r: FoldingRange| lowered(r);
    let next = all.map_values(f);
    if all.len() > 0 {
        let init = all.drop_last();
        assert(forall|a: int| 0 <= a < init.len() ==> #[trigger] init[a] == all[a]);
        lemma_moved_ranges(text, init);
        assert(next.drop_last() =~= init.map_values(f));
        assert(all[all.len() - 1] == all.last());
        assert(next.last() == moved(all.last()));
        lemma_moved_offset(text, all.last().open);
        lemma_moved_offset(text, all.last().close);
        assert(is_offered(t, moved(all.last())) == is_offered(text, all.last()));
        assert(fold_range(t, moved(all.last())) == lowered(fold_range(text, all.last())));
        assert(offered_ranges(t, next) =~= offered_ranges(text, all).map_values(g));
    } else {
        assert(offered_ranges(t, next) =~= offered_ranges(text, all).map_values(g));
    }
}

/// An empty line in front of a text moves all its folding ranges down by one
/// line and changes nothing else about them.
pub proof fn law_empty_line_lowers_folding_ranges(text: Seq<char>)
    requires
        count_char(text, '\n') < u32::MAX,
    ensures
        folding_ranges(below_empty_line(text)) == folding_ranges(text).map_values(
            |r: FoldingRange| lowered(r),
        ),
{
    let t = below_empty_line(text);
    assert(t[0] == '\n');
    assert(folds(t) == folds_from(t, 1, Seq::empty()));
    lemma_moved_folds(text, 0, Seq::empty(), Seq::empty());
    law_folds_are_delimited_and_nested(text);
    lemma_moved_ranges(text, folds(text));
}

/// The position of the character with index `char_idx`.
pub fn char_index_to_line_offset(text: &str, char_idx: usize) -> (r: Position)
    ensures
        r == line_offset(text@, char_idx as int),
{
    let chars: Vec<char> = chars_of(text);
    offset_in(&chars, char_idx)
}

fn offset_in(chars: &Vec<char>, char_idx: usize) -> (r: Position)
    ensures
        r == line_offset(chars@, char_idx as int),
{
    let end: usize = if char_idx <= chars.len() {
        char_idx
    } else {
        chars.len()
    };
    let ghost before = chars@.take(end as int);
    assert(chars@.take(chars@.len() as int) =~= chars@);
    let mut line: usize = 0;
    let mut i: usize = 0;
    while i < end
        invariant
            i <= end <= chars@.len(),
            line <= i,
            line == count_char(chars@.take(i as int), '\n'),
        decreases end - i,
    {
        assert(chars@.take(i + 1).drop_last() =~= chars@.take(i as int));
        if chars[i] == '\n' {
            line += 1;
        }
        i += 1;
    }
    assert(before =~= chars@.subrange(0, end as int));
    let character: usize = run_back_in(chars, 0, end, CharClass::Not('\n'));
    Position { line: line as u32, character: character as u32 }
}

fn find_comment_end(chars: &Vec<char>, from: usize) -> (r: Option<usize>)
    requires
        from <= chars@.len(),
    ensures
        match r {
            Some(end) => comment_end(chars@, from as int, 1) == Some(end as int) && from <= end
                && end + 2 <= chars@.len(),
            None => comment_end(chars@, from as int, 1) is None,
        },
{
    let mut depth: usize = 1;
    let mut j: usize = from;
    proof {
        lemma_comment_end(chars@, from as int, 1);
    }
    while j < chars.len() && chars.len() - j > 1
        invariant
            from <= j,
            1 <= depth <= j - from + 1,
            j <= chars@.len(),
            comment_end(chars@, from as int, 1) == comment_end(chars@, j as int, depth as nat),
            comment_end(chars@, from as int, 1) matches Some(end) ==> from <= end && end + 2
                <= chars@.len(),
        decreases chars@.len() - j,
    {
        if chars[j] == '(' && chars[j + 1] == '*' {
            depth += 1;
            j += 2;
        } else if chars[j] == '*' && chars[j + 1] == ')' {
            if depth == 1 {
                return Some(j);
            }
            depth -= 1;
            j += 2;
        } else {
            j += 1;
        }
    }
    None
}

/// Adds the folding range of a region, if it is offered.
pub fn add_bracket_folding(
    ranges: &mut Vec<FoldingRange>,
    text: &str,
    open_idx: usize,
    close_idx: usize,
    kind: FoldingRangeKind,
)
    requires
        open_idx <= close_idx || line_offset(text@, open_idx as int).line != line_offset(
            text@,
            close_idx as int,
        ).line,
    ensures
        ({
            let fold = Fold { open: open_idx as int, close: close_idx as int, kind };
            final(ranges)@ == (if is_offered(text@, fold) {
                old(ranges)@.push(fold_range(text@, fold))
            } else {
                old(ranges)@
            })
        }),
{
    let chars: Vec<char> = chars_of(text);
    add_folding(ranges, &chars, open_idx, close_idx, kind);
}

fn add_folding(
    ranges: &mut Vec<FoldingRange>,
    chars: &Vec<char>,
    open: usize,
    close: usize,
    kind: FoldingRangeKind,
)
    requires
        open <= close || line_offset(chars@, open as int).line != line_offset(
            chars@,
            close as int,
        ).line,
    ensures
        ({
            let fold = Fold { open: open as int, close: close as int, kind };
            final(ranges)@ == (if is_offered(chars@, fold) {
                old(ranges)@.push(fold_range(chars@, fold))
            } else {
                old(ranges)@
            })
        }),
{
    let start: Position = offset_in(chars, open);
    let end: Position = offset_in(chars, close);
    if end.line > start.line || (end.line == start.line && close - open > 4) {
        ranges.push(
            FoldingRange {
                start_line: start.line,
                start_character: start.character,
                end_line: end.line,
                end_character: end.character,
                kind,
            },
        );
    }
}

/// The folding ranges of a document.
pub fn get_folding_ranges(text: &str) -> (r: Vec<FoldingRange>)
    ensures
        r@ == folding_ranges(text@),
{
    let chars: Vec<char> = chars_of(text);
    let ghost s = chars@;
    let mut ranges: Vec<FoldingRange> = Vec::new();
    let mut stack: Vec<usize> = Vec::new();
    let ghost mut done: Seq<Fold> = Seq::empty();
    let ghost mut open: Seq<int> = Seq::empty();
    let len: usize = chars.len();
    let mut i: usize = 0;
    assert(done + folds(s) =~= folds(s));
    while i < len
        invariant
            s == chars@,
            len == chars@.len(),
            i <= len,
            open.len() == stack@.len(),
            forall|a: int| 0 <= a < stack@.len() ==> open[a] == #[trigger] stack@[a] && stack@[a] < i,
            folds(s) == done + folds_from(s, i as int, open),
            ranges@ == offered_ranges(s, done),
        decreases len - i,
    {
        let ghost before = done;
        if len - i > 1 && chars[i] == '(' && chars[i + 1] == '*' {
            match find_comment_end(&chars, i + 2) {
                Some(end) => {
                    let ghost fold = Fold {
                        open: i as int,
                        close: end + 2,
                        kind: FoldingRangeKind::Comment,
                    };
                    add_folding(&mut ranges, &chars, i, end + 2, FoldingRangeKind::Comment);
                    proof {
                        done = before.push(fold);
                        assert(done.drop_last() =~= before);
                        assert(before + (seq![fold] + folds_from(s, end + 2, open)) =~= done
                            + folds_from(s, end + 2, open));
                    }
                    i = end + 2;
                },
                None => {
                    i += 1;
                },
            }
        } else {
            let c: char = chars[i];
            if c == '(' || c == '[' || c == '{' {
                stack.push(i);
                proof {
                    open = open.push(i as int);
                }
            } else if c == ')' || c == ']' || c == '}' {
                if let Some(open_idx) = stack.pop() {
                    let ghost fold = Fold {
                        open: open_idx as int,
                        close: i as int,
                        kind: FoldingRangeKind::Region,
                    };
                    add_folding(&mut ranges, &chars, open_idx, i, FoldingRangeKind::Region);
                    proof {
                        assert(open.last() == open_idx);
                        open = open.drop_last();
                        done = before.push(fold);
                        assert(done.drop_last() =~= before);
                        assert(before + (seq![fold] + folds_from(s, i + 1, open)) =~= done
                            + folds_from(s, i + 1, open));
                    }
                }
            }
            i += 1;
        }
    }
    assert(done + Seq::<Fold>::empty() =~= done);
    ranges
}

} // verus!
