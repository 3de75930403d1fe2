//! Which parts of a text can be folded.

use crate::folding::{
    comment_end, count_char, fold_range, folding_ranges, folds, folds_from, is_bracket_stack,
    is_closing, is_delimited, is_offered, is_opening, law_folds_are_delimited_and_nested,
    lemma_comment_end, lemma_folds_from, line_offset, offered_ranges, opens_comment, Fold,
};
use crate::laws::sequences::{lemma_pick_last, lemma_pick_nothing};
use crate::protocol::{FoldingRange, FoldingRangeKind};
use crate::text::{lemma_run_back_is, CharClass};
use vstd::prelude::*;

verus! {

// ---------------------------------------------------------------------
// Regions
// ---------------------------------------------------------------------

/// Whether a character lies in one of the comments among some folds.
pub open spec fn in_comment(all: Seq<Fold>, p: int) -> bool {
    exists|a: int|
        0 <= a < all.len() && (#[trigger] all[a]).kind == FoldingRangeKind::Comment && all[a].open
            <= p < all[a].close
}

/// Whether a parenthesis and a star follow each other at index `p`.
pub open spec fn has_comment_sign(text: Seq<char>, p: int) -> bool {
    p + 1 < text.len() && text[p] == '(' && text[p + 1] == '*'
}

/// By how much the character at index `p` changes the number of open brackets:
/// up for an opening bracket, down for a closing one. What lies in a comment
/// does not count, nor does the sign of a comment that is never closed.
pub open spec fn weight(text: Seq<char>, p: int) -> int {
    if in_comment(folds(text), p) || has_comment_sign(text, p) {
        0
    } else if text[p] == '(' || text[p] == '[' || text[p] == '{' {
        1
    } else if text[p] == ')' || text[p] == ']' || text[p] == '}' {
        -1
    } else {
        0
    }
}

/// By how much the characters from `a` to before `b` change the number of open
/// brackets.
pub open spec fn balance(text: Seq<char>, a: int, b: int) -> int
    decreases b - a,
{
    if a >= b {
        0
    } else {
        balance(text, a, b - 1) + weight(text, b - 1)
    }
}

/// Whether the closing bracket at `p` closes the opening bracket at `o`: as many
/// brackets are closed as opened between them, and at no point more.
pub open spec fn is_pair(text: Seq<char>, o: int, p: int) -> bool {
    &&& 0 <= o < p < text.len()
    &&& weight(text, o) == 1
    &&& weight(text, p) == -1
    &&& balance(text, o + 1, p) == 0
    &&& forall|q: int| o < q <= p ==> #[trigger] balance(text, o + 1, q) >= 0
}

/// Whether a scan that starts at index `i` passes over the character at `q` in a
/// comment.
spec fn passes(s: Seq<char>, i: int, q: int) -> bool
    decreases s.len() - i,
    via passes_decreases
{
    if i >= s.len() {
        false
    } else if opens_comment(s, i) {
        match comment_end(s, i + 2, 1) {
            Some(end) => i <= q < end + 2 || passes(s, end + 2, q),
            None => passes(s, i + 1, q),
        }
    } else {
        passes(s, i + 1, q)
    }
}

#[via_fn]
proof fn passes_decreases(s: Seq<char>, i: int, q: int) {
    lemma_comment_end(s, i + 2, 1);
}

proof fn lemma_passes(s: Seq<char>, i: int, stack: Seq<int>, q: int)
    ensures
        in_comment(folds_from(s, i, stack), q) <==> passes(s, i, q),
    decreases s.len() - i,
{
    let all = folds_from(s, i, stack);
    if i >= s.len() {
    } else if opens_comment(s, i) {
        lemma_comment_end(s, i + 2, 1);
        match comment_end(s, i + 2, 1) {
            Some(end) => {
                lemma_passes(s, end + 2, stack, q);
                let rest = folds_from(s, end + 2, stack);
                assert(all[0] == Fold { open: i, close: end + 2, kind: FoldingRangeKind::Comment });
                lemma_in_comment_push(all[0], rest, q);
                assert(all == seq![all[0]] + rest);
            },
            None => {
                lemma_passes(s, i + 1, stack, q);
            },
        }
    } else if is_opening(s[i]) {
        lemma_passes(s, i + 1, stack.push(i), q);
    } else if is_closing(s[i]) && stack.len() > 0 {
        lemma_passes(s, i + 1, stack.drop_last(), q);
        let rest = folds_from(s, i + 1, stack.drop_last());
        lemma_in_comment_push(all[0], rest, q);
        assert(all == seq![all[0]] + rest);
    } else {
        lemma_passes(s, i + 1, stack, q);
    }
}

proof fn lemma_in_comment_push(first: Fold, rest: Seq<Fold>, q: int)
    ensures
        in_comment(seq![first] + rest, q) <==> (first.kind == FoldingRangeKind::Comment
            && first.open <= q < first.close) || in_comment(rest, q),
{
    let all = seq![first] + rest;
    assert(all[0] == first);
    assert(forall|a: int| 0 <= a < rest.len() ==> #[trigger] rest[a] == all[a + 1]);
    if in_comment(all, q) {
        let a = choose|a: int|
            0 <= a < all.len() && (#[trigger] all[a]).kind == FoldingRangeKind::Comment
                && all[a].open <= q < all[a].close;
        if a > 0 {
            assert(rest[a - 1] == all[a]);
        }
    }
    if in_comment(rest, q) {
        let a = choose|a: int|
            0 <= a < rest.len() && (#[trigger] rest[a]).kind == FoldingRangeKind::Comment
                && rest[a].open <= q < rest[a].close;
        assert(all[a + 1] == rest[a]);
    }
}

/// The weight of a character in a scan that starts at index `i`.
spec fn weight_from(s: Seq<char>, i: int, q: int) -> int {
    if passes(s, i, q) || has_comment_sign(s, q) {
        0
    } else if is_opening(s[q]) {
        1
    } else if is_closing(s[q]) {
        -1
    } else {
        0
    }
}

spec fn balance_from(s: Seq<char>, i: int, a: int, b: int) -> int
    decreases b - a,
{
    if a >= b {
        0
    } else {
        balance_from(s, i, a, b - 1) + weight_from(s, i, b - 1)
    }
}

/// The index at which a scan goes on behind index `i`.
spec fn next_index(s: Seq<char>, i: int) -> int {
    if opens_comment(s, i) {
        match comment_end(s, i + 2, 1) {
            Some(end) => end + 2,
            None => i + 1,
        }
    } else {
        i + 1
    }
}

proof fn lemma_next_index(s: Seq<char>, i: int)
    ensures
        i < next_index(s, i),
        i < s.len() ==> next_index(s, i) <= s.len(),
{
    lemma_comment_end(s, i + 2, 1);
}

proof fn lemma_passes_behind(s: Seq<char>, i: int, q: int)
    requires
        q < i,
    ensures
        !passes(s, i, q),
    decreases s.len() - i,
{
    if i < s.len() {
        lemma_next_index(s, i);
        lemma_passes_behind(s, next_index(s, i), q);
    }
}

proof fn lemma_weights(s: Seq<char>, i: int, q: int)
    requires
        0 <= i < s.len(),
        i <= q < s.len(),
    ensures
        q >= next_index(s, i) ==> weight_from(s, i, q) == weight_from(s, next_index(s, i), q),
        q < next_index(s, i) ==> weight_from(s, i, q) == (if opens_comment(s, i) {
            0int
        } else if is_opening(s[i]) {
            1
        } else if is_closing(s[i]) {
            -1
        } else {
            0
        }),
{
    lemma_next_index(s, i);
    if q < next_index(s, i) {
        lemma_passes_behind(s, next_index(s, i), q);
    }
}

proof fn lemma_balances(s: Seq<char>, i: int, a: int, b: int)
    requires
        0 <= i < s.len(),
        next_index(s, i) <= a,
        b <= s.len(),
    ensures
        balance_from(s, i, a, b) == balance_from(s, next_index(s, i), a, b),
    decreases b - a,
{
    if a < b {
        lemma_next_index(s, i);
        lemma_weights(s, i, b - 1);
        lemma_balances(s, i, a, b - 1);
    }
}

/// The balance from `i` on is the weight of what a scan passes over in one step,
/// and the balance from there on.
proof fn lemma_balance_step(s: Seq<char>, i: int, q: int)
    requires
        0 <= i < s.len(),
        i <= q <= s.len(),
    ensures
        q >= next_index(s, i) ==> balance_from(s, i, i, q) == weight_from(s, i, i) + balance_from(
            s,
            next_index(s, i),
            next_index(s, i),
            q,
        ),
        i < q < next_index(s, i) ==> balance_from(s, i, i, q) == 0,
    decreases q,
{
    let next = next_index(s, i);
    lemma_next_index(s, i);
    if q > i {
        lemma_weights(s, i, q - 1);
        lemma_weights(s, i, i);
        lemma_balance_step(s, i, q - 1);
        if q - 1 == i {
            assert(balance_from(s, i, i, i) == 0);
        }
        if q == next {
            assert(balance_from(s, next, next, q) == 0);
        }
    }
}

/// Whether the bracket with `above` open brackets above it at index `i` is
/// closed at `p`.
spec fn closes_from(s: Seq<char>, i: int, p: int, above: int) -> bool {
    &&& i <= p < s.len()
    &&& weight_from(s, i, p) == -1
    &&& balance_from(s, i, i, p) == -above
    &&& forall|q: int| i <= q <= p ==> #[trigger] balance_from(s, i, i, q) >= -above
}

spec fn pairs_from(s: Seq<char>, i: int, o: int, p: int) -> bool {
    &&& i <= o < p < s.len()
    &&& weight_from(s, i, o) == 1
    &&& weight_from(s, i, p) == -1
    &&& balance_from(s, i, o + 1, p) == 0
    &&& forall|q: int| o < q <= p ==> #[trigger] balance_from(s, i, o + 1, q) >= 0
}

spec fn has_region(all: Seq<Fold>, o: int, p: int) -> bool {
    all.contains(Fold { open: o, close: p, kind: FoldingRangeKind::Region })
}

proof fn lemma_has_region_push(first: Fold, rest: Seq<Fold>, o: int, p: int)
    ensures
        has_region(seq![first] + rest, o, p) <==> (first == Fold {
            open: o,
            close: p,
            kind: FoldingRangeKind::Region,
        }) || has_region(rest, o, p),
{
    let all = seq![first] + rest;
    let fold = Fold { open: o, close: p, kind: FoldingRangeKind::Region };
    assert(all[0] == first);
    if has_region(all, o, p) {
        let a = choose|a: int| 0 <= a < all.len() && all[a] == fold;
        if a > 0 {
            assert(rest[a - 1] == fold);
        }
    }
    if has_region(rest, o, p) {
        let a = choose|a: int| 0 <= a < rest.len() && rest[a] == fold;
        assert(all[a + 1] == fold);
    }
}

/// Behind a step of the scan that opens and closes nothing, the pairs are those
/// from there on.
proof fn lemma_pairs_step(s: Seq<char>, i: int, o: int, p: int)
    requires
        0 <= i < s.len(),
    ensures
        o >= next_index(s, i) ==> (pairs_from(s, i, o, p) <==> pairs_from(
            s,
            next_index(s, i),
            o,
            p,
        )),
{
    let next = next_index(s, i);
    lemma_next_index(s, i);
    if o >= next && o < p < s.len() {
        lemma_weights(s, i, o);
        lemma_weights(s, i, p);
        lemma_balances(s, i, o + 1, p);
        assert forall|q: int| o < q <= p implies #[trigger] balance_from(s, i, o + 1, q)
            == balance_from(s, next, o + 1, q) by {
            lemma_balances(s, i, o + 1, q);
        }
        if pairs_from(s, next, o, p) {
            assert forall|q: int| o < q <= p implies #[trigger] balance_from(s, i, o + 1, q)
                >= 0 by {
                assert(balance_from(s, next, o + 1, q) >= 0);
            }
        }
        if pairs_from(s, i, o, p) {
            assert forall|q: int| o < q <= p implies #[trigger] balance_from(s, next, o + 1, q)
                >= 0 by {
                assert(balance_from(s, i, o + 1, q) >= 0);
            }
        }
    }
}

/// Behind a step of the scan, an open bracket has one more above it, or one
/// less, or as many as before.
proof fn lemma_closes_step(s: Seq<char>, i: int, p: int, above: int)
    requires
        0 <= i < s.len(),
        above >= 0,
        above + weight_from(s, i, i) >= 0,
        weight_from(s, i, i) == 0 || next_index(s, i) == i + 1,
    ensures
        p >= next_index(s, i) ==> (closes_from(s, i, p, above) <==> closes_from(
            s,
            next_index(s, i),
            p,
            above + weight_from(s, i, i),
        )),
        p < next_index(s, i) && !(weight_from(s, i, i) == -1 && above == 0) ==> !closes_from(
            s,
            i,
            p,
            above,
        ),
{
    let next = next_index(s, i);
    let w = weight_from(s, i, i);
    lemma_next_index(s, i);
    if next <= p < s.len() {
        lemma_weights(s, i, p);
        lemma_balance_step(s, i, p);
        if closes_from(s, i, p, above) {
            assert forall|q: int| next <= q <= p implies #[trigger] balance_from(s, next, next, q)
                >= -(above + w) by {
                lemma_balance_step(s, i, q);
                assert(balance_from(s, i, i, q) >= -above);
            }
        }
        if closes_from(s, next, p, above + w) {
            assert forall|q: int| i <= q <= p implies #[trigger] balance_from(s, i, i, q)
                >= -above by {
                lemma_balance_step(s, i, q);
                if q >= next {
                    assert(balance_from(s, next, next, q) >= -(above + w));
                } else if q == i {
                    assert(balance_from(s, i, i, i) == 0);
                }
            }
        }
    }
    if i <= p < next && p < s.len() {
        lemma_weights(s, i, p);
        lemma_weights(s, i, i);
        if p == i {
            assert(balance_from(s, i, i, i) == 0);
        }
    }
}

proof fn lemma_regions(s: Seq<char>, i: int, stack: Seq<int>, o: int, p: int, k: int)
    requires
        0 <= i,
        is_bracket_stack(s, i, stack),
        o >= i || (0 <= k < stack.len() && stack[k] == o),
    ensures
        has_region(folds_from(s, i, stack), o, p) <==> (if o >= i {
            pairs_from(s, i, o, p)
        } else {
            closes_from(s, i, p, stack.len() - 1 - k)
        }),
    decreases s.len() - i,
{
    let all = folds_from(s, i, stack);
    if i >= s.len() {
        assert(!has_region(all, o, p));
    } else {
        let next = next_index(s, i);
        lemma_next_index(s, i);
        lemma_weights(s, i, i);
        lemma_pairs_step(s, i, o, p);
        if opens_comment(s, i) || !(is_opening(s[i]) || (is_closing(s[i]) && stack.len() > 0)) {
            // Nothing is opened or closed here.
            assert(is_bracket_stack(s, next, stack));
            let rest = folds_from(s, next, stack);
            lemma_folds_from(s, next, stack);
            if opens_comment(s, i) && comment_end(s, i + 2, 1) is Some {
                lemma_has_region_push(all[0], rest, o, p);
                assert(all == seq![all[0]] + rest);
            } else {
                assert(all == rest);
            }
            if o >= next {
                lemma_regions(s, next, stack, o, p, k);
            } else if o >= i {
                lemma_weights(s, i, o);
                lemma_no_region(s, next, stack, o, p);
            } else {
                assert(weight_from(s, i, i) == 0);
                lemma_regions(s, next, stack, o, p, k);
                lemma_closes_step(s, i, p, stack.len() - 1 - k);
                lemma_closes_only_behind(s, next, p, stack.len() - 1 - k);
            }
        } else if is_opening(s[i]) {
            let more = stack.push(i);
            assert(is_bracket_stack(s, i + 1, more)) by {
                assert forall|a: int| 0 <= a < more.len() implies 0 <= #[trigger] more[a] < i + 1
                    && more[a] < s.len() && is_opening(s[more[a]]) by {
                    if a < stack.len() {
                        assert(more[a] == stack[a]);
                    }
                }
                assert forall|a: int, b: int| 0 <= a < b < more.len() implies #[trigger] more[a]
                    < #[trigger] more[b] by {
                    assert(more[a] == stack[a]);
                    if b < stack.len() {
                        assert(more[b] == stack[b]);
                    }
                }
            }
            assert(all == folds_from(s, i + 1, more));
            if o > i {
                lemma_regions(s, i + 1, more, o, p, k);
            } else if o == i {
                lemma_regions(s, i + 1, more, o, p, stack.len() as int);
                lemma_opened_here(s, i, p);
            } else {
                assert(more[k] == stack[k]);
                lemma_regions(s, i + 1, more, o, p, k);
                lemma_closes_step(s, i, p, stack.len() - 1 - k);
                lemma_closes_only_behind(s, i + 1, p, stack.len() - k);
            }
        } else {
            let less = stack.drop_last();
            assert(is_bracket_stack(s, i + 1, less)) by {
                assert(forall|a: int| 0 <= a < less.len() ==> #[trigger] less[a] == stack[a]);
            }
            let rest = folds_from(s, i + 1, less);
            assert(all == seq![all[0]] + rest);
            assert(all[0] == Fold {
                open: stack.last(),
                close: i,
                kind: FoldingRangeKind::Region,
            });
            lemma_has_region_push(all[0], rest, o, p);
            assert(stack[stack.len() - 1] == stack.last());
            if o > i {
                lemma_regions(s, i + 1, less, o, p, k);
            } else if o == i {
                lemma_no_region(s, i + 1, less, o, p);
            } else if k == stack.len() - 1 {
                lemma_no_region(s, i + 1, less, o, p);
                lemma_closed_here(s, i, p);
            } else {
                assert(less[k] == stack[k]);
                assert(stack[k] < stack[stack.len() - 1]);
                lemma_regions(s, i + 1, less, o, p, k);
                lemma_closes_step(s, i, p, stack.len() - 1 - k);
                lemma_closes_only_behind(s, i + 1, p, stack.len() - 2 - k);
            }
        }
    }
}

proof fn lemma_closes_only_behind(s: Seq<char>, i: int, p: int, above: int)
    ensures
        closes_from(s, i, p, above) ==> p >= i,
{
}

/// No region starts at a place that is passed and not open.
proof fn lemma_no_region(s: Seq<char>, i: int, stack: Seq<int>, o: int, p: int)
    requires
        0 <= i,
        is_bracket_stack(s, i, stack),
        o < i,
        !stack.contains(o),
    ensures
        !has_region(folds_from(s, i, stack), o, p),
{
    lemma_folds_from(s, i, stack);
    let all = folds_from(s, i, stack);
    if has_region(all, o, p) {
        let fold = Fold { open: o, close: p, kind: FoldingRangeKind::Region };
        let a = choose|a: int| 0 <= a < all.len() && all[a] == fold;
        assert(i <= all[a].open || stack.contains(all[a].open));
    }
}

proof fn lemma_opened_here(s: Seq<char>, i: int, p: int)
    requires
        0 <= i < s.len(),
        !opens_comment(s, i),
        is_opening(s[i]),
    ensures
        pairs_from(s, i, i, p) <==> closes_from(s, i + 1, p, 0),
{
    lemma_next_index(s, i);
    lemma_weights(s, i, i);
    if i < p < s.len() {
        lemma_weights(s, i, p);
        lemma_balances(s, i, i + 1, p);
        assert forall|q: int| i < q <= p implies #[trigger] balance_from(s, i, i + 1, q)
            == balance_from(s, i + 1, i + 1, q) by {
            lemma_balances(s, i, i + 1, q);
        }
        if pairs_from(s, i, i, p) {
            assert forall|q: int| i + 1 <= q <= p implies #[trigger] balance_from(
                s,
                i + 1,
                i + 1,
                q,
            ) >= 0 by {
                assert(balance_from(s, i, i + 1, q) >= 0);
            }
        }
        if closes_from(s, i + 1, p, 0) {
            assert forall|q: int| i < q <= p implies #[trigger] balance_from(s, i, i + 1, q)
                >= 0 by {
                assert(balance_from(s, i + 1, i + 1, q) >= 0);
            }
        }
    }
}

proof fn lemma_closed_here(s: Seq<char>, i: int, p: int)
    requires
        0 <= i < s.len(),
        !opens_comment(s, i),
        is_closing(s[i]),
    ensures
        closes_from(s, i, p, 0) <==> p == i,
{
    lemma_next_index(s, i);
    lemma_weights(s, i, i);
    assert(balance_from(s, i, i, i) == 0);
    assert(balance_from(s, i, i, i + 1) == -1);
    if p > i && closes_from(s, i, p, 0) {
        assert(balance_from(s, i, i, i + 1) >= 0);
    }
    if p == i {
        assert forall|q: int| i <= q <= p implies #[trigger] balance_from(s, i, i, q) >= 0 by {}
    }
}

proof fn lemma_weight(text: Seq<char>, p: int)
    ensures
        weight(text, p) == weight_from(text, 0, p),
{
    lemma_passes(text, 0, Seq::empty(), p);
}

proof fn lemma_balance(text: Seq<char>, a: int, b: int)
    ensures
        balance(text, a, b) == balance_from(text, 0, a, b),
    decreases b - a,
{
    if a < b {
        lemma_balance(text, a, b - 1);
        lemma_weight(text, b - 1);
    }
}

/// The regions of a text are its pairs of brackets outside comments: each
/// closing bracket is paired with the innermost bracket that is still open, of
/// whatever shape, and comments between them change nothing.
pub proof fn law_regions_are_the_pairs_of_brackets(text: Seq<char>, o: int, p: int)
    requires
        0 <= o,
    ensures
        folds(text).contains(Fold { open: o, close: p, kind: FoldingRangeKind::Region })
            <==> is_pair(text, o, p),
{
    lemma_regions(text, 0, Seq::empty(), o, p, 0);
    assert(has_region(folds(text), o, p) <==> pairs_from(text, 0, o, p));
    if o < p < text.len() {
        lemma_weight(text, o);
        lemma_weight(text, p);
        lemma_balance(text, o + 1, p);
        if is_pair(text, o, p) {
            assert forall|q: int| o < q <= p implies #[trigger] balance_from(text, 0, o + 1, q)
                >= 0 by {
                lemma_balance(text, o + 1, q);
                assert(balance(text, o + 1, q) >= 0);
            }
        }
        if pairs_from(text, 0, o, p) {
            assert forall|q: int| o < q <= p implies #[trigger] balance(text, o + 1, q) >= 0 by {
                lemma_balance(text, o + 1, q);
                assert(balance_from(text, 0, o + 1, q) >= 0);
            }
        }
    }
}

// ---------------------------------------------------------------------
// Comments
// ---------------------------------------------------------------------

/// Whether a star and a parenthesis follow each other at index `p`.
pub open spec fn has_end_sign(text: Seq<char>, p: int) -> bool {
    p + 1 < text.len() && text[p] == '*' && text[p + 1] == ')'
}

/// Whether no sign of a comment stands at the indices from `a` to before `b`.
pub open spec fn has_no_sign(text: Seq<char>, a: int, b: int) -> bool {
    forall|p: int|
        a <= p < b ==> !(#[trigger] has_comment_sign(text, p)) && !has_end_sign(text, p)
}

proof fn lemma_no_sign(s: Seq<char>, j: int, k: int, depth: nat)
    requires
        0 <= j <= k,
        depth > 0,
        has_no_sign(s, j, k),
    ensures
        comment_end(s, j, depth) == comment_end(s, k, depth),
    decreases k - j,
{
    if j < k {
        assert(!has_comment_sign(s, j) && !has_end_sign(s, j));
        lemma_no_sign(s, j + 1, k, depth);
    }
}

/// A comment that is one level deeper ends behind the end of that level.
proof fn lemma_comment_levels(s: Seq<char>, j: int, depth: nat)
    requires
        0 <= j,
        depth > 1,
    ensures
        comment_end(s, j, depth) == (match comment_end(s, j, 1) {
            Some(e) => comment_end(s, e + 2, (depth - 1) as nat),
            None => None::<int>,
        }),
    decreases s.len() - j, depth,
{
    lemma_comment_end(s, j, 1);
    if j + 1 >= s.len() {
    } else if has_comment_sign(s, j) {
        lemma_comment_levels(s, j + 2, depth + 1);
        lemma_comment_levels(s, j + 2, 2);
        lemma_comment_end(s, j + 2, 1);
        if let Some(e) = comment_end(s, j + 2, 1) {
            lemma_comment_levels(s, e + 2, depth);
        }
    } else if has_end_sign(s, j) {
    } else {
        lemma_comment_levels(s, j + 1, depth);
    }
}

/// A comment ends at the first end sign behind its start, with no other sign
/// between them. If another comment starts before, the end is looked for behind
/// the end of that one. A comment without a sign behind its start has no end.
pub proof fn law_comments_nest(s: Seq<char>, j: int, k: int)
    requires
        0 <= j <= k,
        has_no_sign(s, j, k),
    ensures
        has_end_sign(s, k) ==> comment_end(s, j, 1) == Some(k),
        has_comment_sign(s, k) ==> comment_end(s, j, 1) == (match comment_end(s, k + 2, 1) {
            Some(e) => comment_end(s, e + 2, 1),
            None => None::<int>,
        }),
        k >= s.len() ==> comment_end(s, j, 1) is None,
{
    lemma_no_sign(s, j, k, 1);
    if has_comment_sign(s, k) {
        lemma_comment_levels(s, k + 2, 2);
    }
}

/// Whether one of the comments among some folds starts before index `p` and ends
/// behind it.
pub open spec fn is_within_comment(all: Seq<Fold>, p: int) -> bool {
    exists|a: int|
        0 <= a < all.len() && (#[trigger] all[a]).kind == FoldingRangeKind::Comment && all[a].open
            < p < all[a].close
}

spec fn has_comment(all: Seq<Fold>, o: int, c: int) -> bool {
    all.contains(Fold { open: o, close: c, kind: FoldingRangeKind::Comment })
}

proof fn lemma_comment_push(first: Fold, rest: Seq<Fold>, o: int, c: int)
    ensures
        has_comment(seq![first] + rest, o, c) <==> (first == Fold {
            open: o,
            close: c,
            kind: FoldingRangeKind::Comment,
        }) || has_comment(rest, o, c),
        is_within_comment(seq![first] + rest, o) <==> (first.kind == FoldingRangeKind::Comment
            && first.open < o < first.close) || is_within_comment(rest, o),
{
    let all = seq![first] + rest;
    let fold = Fold { open: o, close: c, kind: FoldingRangeKind::Comment };
    assert(all[0] == first);
    assert(forall|a: int| 0 <= a < rest.len() ==> #[trigger] rest[a] == all[a + 1]);
    if has_comment(all, o, c) {
        let a = choose|a: int| 0 <= a < all.len() && all[a] == fold;
        if a > 0 {
            assert(rest[a - 1] == fold);
        }
    }
    if has_comment(rest, o, c) {
        let a = choose|a: int| 0 <= a < rest.len() && rest[a] == fold;
        assert(all[a + 1] == fold);
    }
    if is_within_comment(all, o) {
        let a = choose|a: int|
            0 <= a < all.len() && (#[trigger] all[a]).kind == FoldingRangeKind::Comment
                && all[a].open < o < all[a].close;
        if a > 0 {
            assert(rest[a - 1] == all[a]);
        }
    }
    if is_within_comment(rest, o) {
        let a = choose|a: int|
            0 <= a < rest.len() && (#[trigger] rest[a]).kind == FoldingRangeKind::Comment
                && rest[a].open < o < rest[a].close;
        assert(all[a + 1] == rest[a]);
    }
}

proof fn lemma_comments(s: Seq<char>, i: int, stack: Seq<int>, o: int, c: int)
    requires
        0 <= i,
    ensures
        o < i ==> !has_comment(folds_from(s, i, stack), o, c),
        o <= i ==> !is_within_comment(folds_from(s, i, stack), o),
        o >= i ==> (has_comment(folds_from(s, i, stack), o, c) <==> has_comment_sign(s, o)
            && comment_end(s, o + 2, 1) == Some(c - 2) && !is_within_comment(
            folds_from(s, i, stack),
            o,
        )),
    decreases s.len() - i,
{
    let all = folds_from(s, i, stack);
    if i >= s.len() {
    } else if opens_comment(s, i) {
        lemma_comment_end(s, i + 2, 1);
        match comment_end(s, i + 2, 1) {
            Some(end) => {
                lemma_comments(s, end + 2, stack, o, c);
                let rest = folds_from(s, end + 2, stack);
                assert(all[0] == Fold { open: i, close: end + 2, kind: FoldingRangeKind::Comment });
                assert(all == seq![all[0]] + rest);
                lemma_comment_push(all[0], rest, o, c);
            },
            None => {
                lemma_comments(s, i + 1, stack, o, c);
            },
        }
    } else if is_opening(s[i]) {
        lemma_comments(s, i + 1, stack.push(i), o, c);
    } else if is_closing(s[i]) && stack.len() > 0 {
        let rest = folds_from(s, i + 1, stack.drop_last());
        lemma_comments(s, i + 1, stack.drop_last(), o, c);
        assert(all == seq![all[0]] + rest);
        lemma_comment_push(all[0], rest, o, c);
    } else {
        lemma_comments(s, i + 1, stack, o, c);
    }
}

/// The comments of a text are those that start at a sign outside all others and
/// have an end: each is a fold from its first parenthesis to behind its last.
pub proof fn law_comments_start_outside_others(text: Seq<char>, o: int, c: int)
    requires
        0 <= o,
    ensures
        folds(text).contains(Fold { open: o, close: c, kind: FoldingRangeKind::Comment }) <==> (
        has_comment_sign(text, o) && comment_end(text, o + 2, 1) == Some(c - 2)
            && !is_within_comment(folds(text), o)),
{
    lemma_comments(text, 0, Seq::empty(), o, c);
}

/// Whether a fold comes before another: it ends before the other, or a comment
/// ends directly before the bracket that ends a region.
pub open spec fn comes_before(a: Fold, b: Fold) -> bool {
    a.close < b.close || (a.close == b.close && a.kind == FoldingRangeKind::Comment && b.kind
        == FoldingRangeKind::Region)
}

proof fn lemma_fold_order(s: Seq<char>, i: int, stack: Seq<int>)
    requires
        0 <= i,
    ensures
        forall|a: int|
            0 <= a < folds_from(s, i, stack).len() ==> i <= (#[trigger] folds_from(
                s,
                i,
                stack,
            )[a]).close && (folds_from(s, i, stack)[a].kind == FoldingRangeKind::Comment ==> i
                < folds_from(s, i, stack)[a].close),
        forall|a: int, b: int|
            0 <= a < b < folds_from(s, i, stack).len() ==> comes_before(
                #[trigger] folds_from(s, i, stack)[a],
                #[trigger] folds_from(s, i, stack)[b],
            ),
    decreases s.len() - i,
{
    let all = folds_from(s, i, stack);
    if i >= s.len() {
    } else if opens_comment(s, i) {
        lemma_comment_end(s, i + 2, 1);
        match comment_end(s, i + 2, 1) {
            Some(end) => {
                lemma_fold_order(s, end + 2, stack);
                let rest = folds_from(s, end + 2, stack);
                assert(all[0] == Fold { open: i, close: end + 2, kind: FoldingRangeKind::Comment });
                assert(forall|a: int| 0 < a < all.len() ==> #[trigger] all[a] == rest[a - 1]);
            },
            None => {
                lemma_fold_order(s, i + 1, stack);
            },
        }
    } else if is_opening(s[i]) {
        lemma_fold_order(s, i + 1, stack.push(i));
    } else if is_closing(s[i]) && stack.len() > 0 {
        lemma_fold_order(s, i + 1, stack.drop_last());
        let rest = folds_from(s, i + 1, stack.drop_last());
        assert(all[0].close == i && all[0].kind == FoldingRangeKind::Region);
        assert(forall|a: int| 0 < a < all.len() ==> #[trigger] all[a] == rest[a - 1]);
    } else {
        lemma_fold_order(s, i + 1, stack);
    }
}

/// The folds of a text come in the order of their ends, none of them twice.
pub proof fn law_folds_come_in_order(text: Seq<char>)
    ensures
        forall|a: int, b: int|
            0 <= a < b < folds(text).len() ==> comes_before(
                #[trigger] folds(text)[a],
                #[trigger] folds(text)[b],
            ),
{
    lemma_fold_order(text, 0, Seq::empty());
}

// ---------------------------------------------------------------------
// Ranges
// ---------------------------------------------------------------------

proof fn lemma_line_feeds(s: Seq<char>)
    ensures
        count_char(s, '\n') == s.filter(|c: char| c == '\n').len(),
    decreases s.len(),
{
    reveal(Seq::filter);
    if s.len() > 0 {
        lemma_line_feeds(s.drop_last());
    }
}

/// The position of a character is the number of line feeds before it and its
/// distance from the last of them. Behind the end it is that of the end.
pub proof fn law_positions_count_lines_and_characters(text: Seq<char>, idx: int, start: int)
    requires
        0 <= start <= idx <= text.len() <= u32::MAX,
        start > 0 ==> text[start - 1] == '\n',
        forall|p: int| start <= p < idx ==> #[trigger] text[p] != '\n',
    ensures
        line_offset(text, idx).line == text.take(idx).filter(|c: char| c == '\n').len(),
        line_offset(text, idx).character == idx - start,
        idx == text.len() ==> forall|beyond: int|
            beyond >= idx ==> #[trigger] line_offset(text, beyond) == line_offset(text, idx),
{
    let before = text.take(idx);
    lemma_line_feeds(before);
    before.lemma_filter_len(|c: char| c == '\n');
    assert forall|p: int| start <= p < idx implies CharClass::Not('\n').has_char(
        #[trigger] before[p],
    ) by {
        assert(before[p] == text[p]);
    }
    if start > 0 {
        assert(before[start - 1] == text[start - 1]);
    }
    lemma_run_back_is(before, CharClass::Not('\n'), (idx - start) as nat);
    if idx == text.len() {
        assert(before =~= text);
    }
}

/// Whether a line feed stands at the indices from `a` to before `b`.
pub open spec fn has_line_feed(text: Seq<char>, a: int, b: int) -> bool {
    exists|p: int| a <= p < b && #[trigger] text[p] == '\n'
}

proof fn lemma_later_lines(text: Seq<char>, a: int, b: int)
    requires
        0 <= a <= b <= text.len(),
    ensures
        count_char(text.take(a), '\n') <= count_char(text.take(b), '\n') <= b,
        count_char(text.take(a), '\n') < count_char(text.take(b), '\n') <==> has_line_feed(
            text,
            a,
            b,
        ),
    decreases b,
{
    if a == b {
        if b > 0 {
            lemma_later_lines(text, a - 1, b - 1);
            assert(text.take(b).drop_last() =~= text.take(b - 1));
        }
    } else {
        lemma_later_lines(text, a, b - 1);
        assert(text.take(b).drop_last() =~= text.take(b - 1));
        assert(text.take(b).last() == text[b - 1]);
        if has_line_feed(text, a, b - 1) {
            let p = choose|p: int| a <= p < b - 1 && #[trigger] text[p] == '\n';
            assert(a <= p < b && text[p] == '\n');
        }
        if has_line_feed(text, a, b) {
            let p = choose|p: int| a <= p < b && #[trigger] text[p] == '\n';
            if p < b - 1 {
                assert(has_line_feed(text, a, b - 1));
            }
        }
    }
}

/// Offered are the folds that span lines and those of more than four characters,
/// in their order, each from the position of its start to that of its end.
pub proof fn law_folds_over_lines_and_long_folds_are_offered(text: Seq<char>)
    requires
        text.len() <= u32::MAX,
    ensures
        folding_ranges(text) == folds(text).filter(
            |fold: Fold| has_line_feed(text, fold.open, fold.close) || fold.close - fold.open > 4,
        ).map_values(
            |fold: Fold|
                FoldingRange {
                    start_line: line_offset(text, fold.open).line,
                    start_character: line_offset(text, fold.open).character,
                    end_line: line_offset(text, fold.close).line,
                    end_character: line_offset(text, fold.close).character,
                    kind: fold.kind,
                },
        ),
{
    law_folds_are_delimited_and_nested(text);
    lemma_offered(text, folds(text));
}

/// Of any two places in a text, the later is the end of a fold that is offered
/// if a line feed or more than four characters lie from the one to the other, and no fold
/// goes back to an earlier line. Its range goes from the position of its start to
/// that of its end.
pub proof fn law_any_fold_is_offered_over_lines_or_if_long(text: Seq<char>, fold: Fold)
    requires
        text.len() <= u32::MAX,
        0 <= fold.open <= text.len(),
        0 <= fold.close <= text.len(),
    ensures
        fold.open <= fold.close ==> (is_offered(text, fold) <==> has_line_feed(
            text,
            fold.open,
            fold.close,
        ) || fold.close - fold.open > 4),
        fold.close < fold.open ==> !is_offered(text, fold),
        fold_range(text, fold) == (FoldingRange {
            start_line: line_offset(text, fold.open).line,
            start_character: line_offset(text, fold.open).character,
            end_line: line_offset(text, fold.close).line,
            end_character: line_offset(text, fold.close).character,
            kind: fold.kind,
        }),
{
    if fold.open <= fold.close {
        lemma_later_lines(text, fold.open, fold.close);
    } else {
        lemma_later_lines(text, fold.close, fold.open);
    }
}

proof fn lemma_offered(text: Seq<char>, all: Seq<Fold>)
    requires
        text.len() <= u32::MAX,
        forall|a: int| 0 <= a < all.len() ==> is_delimited(text, #[trigger] all[a]),
    ensures
        offered_ranges(text, all) == all.filter(
            |fold: Fold| has_line_feed(text, fold.open, fold.close) || fold.close - fold.open > 4,
        ).map_values(
            |fold: Fold|
                FoldingRange {
                    start_line: line_offset(text, fold.open).line,
                    start_character: line_offset(text, fold.open).character,
                    end_line: line_offset(text, fold.close).line,
                    end_character: line_offset(text, fold.close).character,
                    kind: fold.kind,
                },
        ),
    decreases all.len(),
{
    let keep = |fold: Fold|
        has_line_feed(text, fold.open, fold.close) || fold.close - fold.open > 4;
    let turn = |fold: Fold|
        FoldingRange {
            start_line: line_offset(text, fold.open).line,
            start_character: line_offset(text, fold.open).character,
            end_line: line_offset(text, fold.close).line,
            end_character: line_offset(text, fold.close).character,
            kind: fold.kind,
        };
    if all.len() == 0 {
        lemma_pick_nothing(all, keep, turn);
    } else {
        let init = all.drop_last();
        assert(forall|a: int| 0 <= a < init.len() ==> #[trigger] init[a] == all[a]);
        lemma_offered(text, init);
        lemma_pick_last(all, keep, turn);
        let fold = all.last();
        assert(all[all.len() - 1] == fold);
        law_any_fold_is_offered_over_lines_or_if_long(text, fold);
        assert(is_offered(text, fold) == keep(fold));
        assert(fold_range(text, fold) == turn(fold));
        assert(offered_ranges(text, all) =~= all.filter(keep).map_values(turn));
    }
}

} // verus!
