//! How a text falls into lines.

use crate::text::{
    law_line_stands_in_text, law_lines_hold_no_line_feed, lemma_run, line_start, lines, run,
    CharClass,
};
use vstd::prelude::*;

verus! {

/// Whether a line feed, with a carriage return before it or without, fills the
/// text from `end` to `next`, where the line before it is `line`. A carriage
/// return before a line feed is never part of the line.
pub open spec fn is_line_end(text: Seq<char>, line: Seq<char>, end: int, next: int) -> bool {
    ||| next == end + 1 && next <= text.len() && text[end] == '\n' && (line.len() > 0
        ==> line.last() != '\r')
    ||| next == end + 2 && next <= text.len() && text[end] == '\r' && text[end + 1] == '\n'
}

/// The lines cover the text: the first starts at its start, each is followed by
/// a line end and then by the next line, and the last one is followed by a line
/// end or nothing. What follows the last line end is a line only if there is
/// something.
pub proof fn law_lines_cover_the_text(text: Seq<char>, n: nat)
    ensures
        text.len() == 0 <==> lines(text).len() == 0,
        line_start(text, 0) == 0,
        n + 1 < lines(text).len() ==> is_line_end(
            text,
            lines(text)[n as int],
            line_start(text, n) + lines(text)[n as int].len() as int,
            line_start(text, n + 1) as int,
        ),
        n + 1 == lines(text).len() ==> {
            let end = line_start(text, n) + lines(text)[n as int].len() as int;
            ||| end == text.len() && lines(text)[n as int].len() > 0
            ||| is_line_end(text, lines(text)[n as int], end, text.len() as int)
        },
    decreases text.len(),
{
    lemma_run(text, CharClass::Not('\n'));
    let end = run(text, CharClass::Not('\n')) as int;
    if text.len() > 0 && end < text.len() {
        let rest = text.skip(end + 1);
        let head = text.take(end);
        if head.len() > 0 {
            assert(head.last() == text[end - 1]);
        }
        if n > 0 {
            let m = (n - 1) as nat;
            law_lines_cover_the_text(rest, m);
            if n < lines(text).len() {
                law_line_stands_in_text(rest, m);
                assert(lines(text)[n as int] == lines(rest)[m as int]);
                let a = line_start(rest, m) + lines(rest)[m as int].len();
                assert(a < rest.len() ==> rest[a as int] == text[end + 1 + a]);
                assert(a + 1 < rest.len() ==> rest[a as int + 1] == text[end + 2 + a]);
                assert(line_start(text, n) == end + 1 + line_start(rest, m));
                assert(line_start(text, n + 1) == end + 1 + line_start(rest, m + 1));
            }
        } else {
            law_lines_cover_the_text(rest, 0);
            assert(line_start(text, 1) == end + 1 + line_start(rest, 0));
        }
    } else if text.len() > 0 {
        assert(lines(text) =~= seq![text]);
    }
}

/// A line is the part of the text from its start on that is as long as it is,
/// and no line holds a line feed.
pub proof fn law_lines_are_parts_of_the_text(text: Seq<char>, n: nat, i: int)
    requires
        n < lines(text).len(),
        0 <= i < lines(text)[n as int].len(),
    ensures
        line_start(text, n) + i < text.len(),
        lines(text)[n as int][i] == text[line_start(text, n) + i],
        lines(text)[n as int][i] != '\n',
{
    law_line_stands_in_text(text, n);
    law_lines_hold_no_line_feed(text, n as int);
    assert(lines(text)[n as int].contains(lines(text)[n as int][i]));
}

} // verus!
