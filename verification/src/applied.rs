//! What a text reads once the edits of a rename have been applied to it.

use crate::protocol::{Position, TextEditView};
use crate::rename::{
    edits_in, is_addressable, is_whole_word_at, is_word, law_edits_come_in_order,
    law_every_edit_is_a_whole_word, law_every_whole_word_is_renamed,
    law_word_starts_are_the_whole_words, lemma_word_starts, line_edits, occurs_at, rename_edits,
    replacement, stands_alone, word_starts,
};
use crate::text::{
    law_line_stands_in_text, lemma_line_edges, lemma_line_starts_apart, lemma_run, lemma_run_is,
    line_start, lines, run, CharClass,
};
use vstd::prelude::*;

verus! {

/// A line after one edit of it.
pub open spec fn apply_edit(line: Seq<char>, edit: TextEditView) -> Seq<char> {
    line.take(edit.range.start.character as int) + edit.new_text + line.skip(
        edit.range.end.character as int,
    )
}

/// A line after edits of it. The last edit is applied first, so that the others
/// still find their place.
pub open spec fn apply_edits(line: Seq<char>, edits: Seq<TextEditView>) -> Seq<char>
    decreases edits.len(),
{
    if edits.len() == 0 {
        line
    } else {
        apply_edits(apply_edit(line, edits.last()), edits.drop_last())
    }
}

/// A line in which every word that is `name` reads `new_name`. The words of a
/// line are its longest runs of word characters.
pub open spec fn renamed(line: Seq<char>, name: Seq<char>, new_name: Seq<char>) -> Seq<char>
    decreases line.len(),
    via renamed_decreases
{
    let n = run(line, CharClass::Word) as int;
    if line.len() == 0 {
        line
    } else if n == 0 {
        line.take(1) + renamed(line.skip(1), name, new_name)
    } else {
        renamed_word(line.take(n), name, new_name) + renamed(line.skip(n), name, new_name)
    }
}

#[via_fn]
proof fn renamed_decreases(line: Seq<char>, name: Seq<char>, new_name: Seq<char>) {
    lemma_run(line, CharClass::Word);
}

/// A word that reads `new_name` if it is `name`.
pub open spec fn renamed_word(word: Seq<char>, name: Seq<char>, new_name: Seq<char>) -> Seq<char> {
    if word == name {
        new_name
    } else {
        word
    }
}

/// Whether one of the words of a line is `name`.
pub open spec fn has_word(line: Seq<char>, name: Seq<char>) -> bool {
    exists|i: int| #[trigger] is_whole_word_at(line, name, i)
}

// ---------------------------------------------------------------------
// Edits, front to back
// ---------------------------------------------------------------------

/// The line from index `from` on, with `n` characters at each of `starts`
/// replaced.
spec fn spliced(
    line: Seq<char>,
    starts: Seq<int>,
    n: nat,
    new_name: Seq<char>,
    from: int,
) -> Seq<char>
    decreases starts.len(),
{
    if starts.len() == 0 {
        line.skip(from)
    } else {
        line.subrange(from, starts[0]) + new_name + spliced(
            line,
            starts.drop_first(),
            n,
            new_name,
            starts[0] + n,
        )
    }
}

/// Whether replacements of `n` characters at `starts` lie side by side within
/// the line, from left to right.
spec fn lie_apart(line: Seq<char>, starts: Seq<int>, n: nat, from: int) -> bool {
    &&& forall|k: int| 0 <= k < starts.len() ==> from <= #[trigger] starts[k] && starts[k] + n <= line.len()
    &&& forall|a: int, b: int|
        0 <= a < b < starts.len() ==> #[trigger] starts[a] + n <= #[trigger] starts[b]
}

proof fn lemma_spliced_prefix(
    line: Seq<char>,
    other: Seq<char>,
    starts: Seq<int>,
    n: nat,
    new_name: Seq<char>,
    from: int,
    cut: int,
)
    requires
        0 <= from <= cut <= line.len(),
        cut <= other.len(),
        line.take(cut) == other.take(cut),
        lie_apart(line.take(cut), starts, n, from),
    ensures
        spliced(other, starts, n, new_name, from) == spliced(
            line.take(cut),
            starts,
            n,
            new_name,
            from,
        ) + other.skip(cut),
    decreases starts.len(),
{
    let head = line.take(cut);
    if starts.len() == 0 {
        assert(other.skip(from) =~= head.skip(from) + other.skip(cut)) by {
            assert forall|i: int| 0 <= i < other.len() - from implies other.skip(from)[i] == (
            head.skip(from) + other.skip(cut))[i] by {
                if from + i < cut {
                    assert(head[from + i] == other.take(cut)[from + i]);
                }
            }
        }
    } else {
        let first = starts[0];
        let rest = starts.drop_first();
        assert(lie_apart(head, rest, n, first + n)) by {
            assert forall|k: int| 0 <= k < rest.len() implies first + n <= #[trigger] rest[k]
                && rest[k] + n <= head.len() by {
                assert(rest[k] == starts[k + 1]);
            }
            assert forall|a: int, b: int| 0 <= a < b < rest.len() implies #[trigger] rest[a] + n
                <= #[trigger] rest[b] by {
                assert(rest[a] == starts[a + 1] && rest[b] == starts[b + 1]);
            }
        }
        lemma_spliced_prefix(line, other, rest, n, new_name, first + n, cut);
        assert(other.subrange(from, first) =~= head.subrange(from, first)) by {
            assert forall|i: int| 0 <= i < first - from implies other.subrange(from, first)[i]
                == head.subrange(from, first)[i] by {
                assert(head[from + i] == other.take(cut)[from + i]);
            }
        }
        assert(spliced(other, starts, n, new_name, from) =~= spliced(
            head,
            starts,
            n,
            new_name,
            from,
        ) + other.skip(cut));
    }
}

/// Replacing the last of some places and then the others comes to the same as
/// replacing all, front to back.
proof fn lemma_spliced_last(
    line: Seq<char>,
    starts: Seq<int>,
    n: nat,
    new_name: Seq<char>,
    from: int,
)
    requires
        0 <= from <= line.len(),
        starts.len() > 0,
        lie_apart(line, starts, n, from),
    ensures
        spliced(line, starts, n, new_name, from) == spliced(
            line.take(starts.last()),
            starts.drop_last(),
            n,
            new_name,
            from,
        ) + new_name + line.skip(starts.last() + n),
    decreases starts.len(),
{
    let first = starts[0];
    let last = starts.last();
    assert(starts[starts.len() - 1] == last);
    let head = line.take(last);
    if starts.len() == 1 {
        reveal_with_fuel(spliced, 2);
        assert(starts.drop_first() =~= Seq::<int>::empty());
        assert(starts.drop_last() =~= Seq::<int>::empty());
        assert(head.skip(from) =~= line.subrange(from, first));
    } else {
        let rest = starts.drop_first();
        assert(lie_apart(line, rest, n, first + n)) by {
            assert forall|k: int| 0 <= k < rest.len() implies first + n <= #[trigger] rest[k]
                && rest[k] + n <= line.len() by {
                assert(rest[k] == starts[k + 1]);
            }
            assert forall|a: int, b: int| 0 <= a < b < rest.len() implies #[trigger] rest[a] + n
                <= #[trigger] rest[b] by {
                assert(rest[a] == starts[a + 1] && rest[b] == starts[b + 1]);
            }
        }
        assert(rest.last() == last);
        lemma_spliced_last(line, rest, n, new_name, first + n);
        assert(starts.drop_last().drop_first() =~= rest.drop_last());
        assert(first + n <= last) by {
            assert(starts[0] + n <= starts[starts.len() - 1]);
        }
        assert(head.subrange(from, first) =~= line.subrange(from, first));
        assert(spliced(line, starts, n, new_name, from) =~= spliced(
            head,
            starts.drop_last(),
            n,
            new_name,
            from,
        ) + new_name + line.skip(last + n));
    }
}

proof fn lemma_apply_edits(
    line: Seq<char>,
    starts: Seq<int>,
    n: nat,
    new_name: Seq<char>,
    edits: Seq<TextEditView>,
)
    requires
        lie_apart(line, starts, n, 0),
        edits.len() == starts.len(),
        forall|k: int|
            0 <= k < edits.len() ==> (#[trigger] edits[k]).range.start.character == starts[k]
                && edits[k].range.end.character == starts[k] + n && edits[k].new_text == new_name,
    ensures
        apply_edits(line, edits) == spliced(line, starts, n, new_name, 0),
    decreases edits.len(),
{
    if edits.len() == 0 {
        assert(line.skip(0) =~= line);
    } else {
        let last = starts.last();
        let init = starts.drop_last();
        assert(edits.last() == edits[edits.len() - 1]);
        assert(starts[starts.len() - 1] == last);
        let next = apply_edit(line, edits.last());
        assert(next == line.take(last) + new_name + line.skip(last + n));
        assert(next.take(last) =~= line.take(last));
        assert(forall|k: int| 0 <= k < init.len() ==> #[trigger] init[k] == starts[k]);
        assert forall|k: int| 0 <= k < init.len() implies #[trigger] init[k] + n <= last by {
            assert(starts[k] + n <= starts[starts.len() - 1]);
        }
        assert(lie_apart(line.take(last), init, n, 0));
        assert(lie_apart(next, init, n, 0));
        lemma_apply_edits(next, init, n, new_name, edits.drop_last());
        lemma_spliced_prefix(line, next, init, n, new_name, 0, last);
        lemma_spliced_last(line, starts, n, new_name, 0);
        assert(next.skip(last) =~= new_name + line.skip(last + n));
        assert(spliced(line.take(last), init, n, new_name, 0) + next.skip(last) =~= spliced(
            line.take(last),
            init,
            n,
            new_name,
            0,
        ) + new_name + line.skip(last + n));
    }
}

// ---------------------------------------------------------------------
// Words, front to back
// ---------------------------------------------------------------------

/// No whole-word occurrence of `name` starts in a word that is not `name`.
proof fn lemma_word_starts_skip(
    line: Seq<char>,
    name: Seq<char>,
    from: int,
    to: int,
    i: int,
)
    requires
        is_word(name),
        name.len() > 0,
        0 <= from <= i <= to <= line.len(),
        forall|k: int| from <= k < to ==> CharClass::Word.has_char(#[trigger] line[k]),
        to < line.len() ==> !CharClass::Word.has_char(line[to]),
        line.subrange(from, to) != name,
    ensures
        word_starts(line, name, i) == word_starts(line, name, to),
    decreases to - i,
{
    if i == to {
    } else if i + name.len() > line.len() {
        assert(word_starts(line, name, to) =~= Seq::<int>::empty());
    } else if !occurs_at(line, name, i) {
        lemma_word_starts_skip(line, name, from, to, i + 1);
    } else {
        let end = i + name.len();
        if end > to {
            assert(line.subrange(i, end)[to - i] == name[to - i]);
            assert(CharClass::Word.has_char(name[to - i]));
            assert(false);
        }
        if stands_alone(line, i, name.len()) {
            if i > from {
                assert(CharClass::Word.has_char(line[i - 1]));
            }
            if end < to {
                assert(CharClass::Word.has_char(line[end]));
            }
            assert(false);
        }
        lemma_word_starts_skip(line, name, from, to, end);
    }
}

proof fn lemma_spliced_step(
    line: Seq<char>,
    name: Seq<char>,
    new_name: Seq<char>,
    from: int,
    to: int,
)
    requires
        0 <= from <= to <= line.len(),
    ensures
        spliced(line, word_starts(line, name, to), name.len(), new_name, from) == line.subrange(
            from,
            to,
        ) + spliced(line, word_starts(line, name, to), name.len(), new_name, to),
{
    let starts = word_starts(line, name, to);
    if starts.len() == 0 {
        assert(line.skip(from) =~= line.subrange(from, to) + line.skip(to));
    } else {
        lemma_word_starts(line, name, to);
        assert(to <= starts[0]);
        assert(line.subrange(from, starts[0]) =~= line.subrange(from, to) + line.subrange(
            to,
            starts[0],
        ));
        assert(spliced(line, starts, name.len(), new_name, from) =~= line.subrange(from, to)
            + spliced(line, starts, name.len(), new_name, to));
    }
}

proof fn lemma_spliced_is_renamed(
    line: Seq<char>,
    name: Seq<char>,
    new_name: Seq<char>,
    from: int,
)
    requires
        is_word(name),
        name.len() > 0,
        0 <= from <= line.len(),
        from == 0 || from == line.len() || !CharClass::Word.has_char(line[from - 1])
            || !CharClass::Word.has_char(line[from]),
    ensures
        spliced(line, word_starts(line, name, from), name.len(), new_name, from) == renamed(
            line.skip(from),
            name,
            new_name,
        ),
    decreases line.len() - from,
{
    let rest = line.skip(from);
    let n = run(rest, CharClass::Word) as int;
    lemma_run(rest, CharClass::Word);
    if from == line.len() {
        assert(word_starts(line, name, from) =~= Seq::<int>::empty());
    } else if n == 0 {
        assert(rest[0] == line[from]);
        if occurs_at(line, name, from) {
            assert(line.subrange(from, from + name.len())[0] == name[0]);
            assert(CharClass::Word.has_char(name[0]));
        }
        if from + name.len() > line.len() {
            assert(word_starts(line, name, from + 1) =~= word_starts(line, name, from));
        }
        lemma_spliced_is_renamed(line, name, new_name, from + 1);
        lemma_spliced_step(line, name, new_name, from, from + 1);
        assert(line.subrange(from, from + 1) =~= rest.take(1));
        assert(rest.skip(1) =~= line.skip(from + 1));
    } else {
        let to = from + n;
        assert forall|k: int| from <= k < to implies CharClass::Word.has_char(
            #[trigger] line[k],
        ) by {
            assert(rest[k - from] == line[k]);
        }
        if to < line.len() {
            assert(rest[n] == line[to]);
        }
        assert(rest.take(n) =~= line.subrange(from, to));
        assert(rest.skip(n) =~= line.skip(to));
        lemma_spliced_is_renamed(line, name, new_name, to);
        assert(rest[0] == line[from]);
        if line.subrange(from, to) == name {
            assert(occurs_at(line, name, from));
            assert(stands_alone(line, from, name.len()));
            let starts = word_starts(line, name, from);
            assert(starts == seq![from] + word_starts(line, name, to));
            assert(starts.drop_first() =~= word_starts(line, name, to));
            assert(line.subrange(from, from) =~= Seq::<char>::empty());
            assert(spliced(line, starts, name.len(), new_name, from) =~= new_name + spliced(
                line,
                word_starts(line, name, to),
                name.len(),
                new_name,
                to,
            ));
        } else {
            lemma_word_starts_skip(line, name, from, to, from);
            lemma_spliced_step(line, name, new_name, from, to);
        }
    }
}

// ---------------------------------------------------------------------
// Laws
// ---------------------------------------------------------------------

proof fn lemma_applied_edits(
    line: Seq<char>,
    number: int,
    name: Seq<char>,
    new_name: Seq<char>,
)
    requires
        is_word(name),
        name.len() > 0,
        line.len() <= u32::MAX,
    ensures
        apply_edits(line, line_edits(line, number, name, new_name)) == renamed(
            line,
            name,
            new_name,
        ),
{
    let starts = word_starts(line, name, 0);
    let edits = line_edits(line, number, name, new_name);
    lemma_word_starts(line, name, 0);
    lemma_apply_edits(line, starts, name.len(), new_name, edits);
    lemma_spliced_is_renamed(line, name, new_name, 0);
    assert(line.skip(0) =~= line);
}

/// Those of some edits that start on line `number`.
pub open spec fn edits_on(edits: Seq<TextEditView>, number: int) -> Seq<TextEditView>
    decreases edits.len(),
{
    if edits.len() == 0 {
        edits
    } else {
        let before = edits_on(edits.drop_last(), number);
        if edits.last().range.start.line == number {
            before.push(edits.last())
        } else {
            before
        }
    }
}

proof fn lemma_edits_on_add(a: Seq<TextEditView>, b: Seq<TextEditView>, number: int)
    ensures
        edits_on(a + b, number) == edits_on(a, number) + edits_on(b, number),
    decreases b.len(),
{
    if b.len() == 0 {
        assert(a + b =~= a);
        assert(edits_on(a, number) + b =~= edits_on(a, number));
    } else {
        lemma_edits_on_add(a, b.drop_last(), number);
        assert((a + b).drop_last() =~= a + b.drop_last());
        assert(edits_on(a + b, number) =~= edits_on(a, number) + edits_on(b, number));
    }
}

proof fn lemma_edits_on_one_line(edits: Seq<TextEditView>, line: int, number: int)
    requires
        forall|k: int| 0 <= k < edits.len() ==> (#[trigger] edits[k]).range.start.line == line,
    ensures
        edits_on(edits, number) == (if line == number {
            edits
        } else {
            Seq::empty()
        }),
    decreases edits.len(),
{
    if edits.len() > 0 {
        let init = edits.drop_last();
        assert(forall|k: int| 0 <= k < init.len() ==> #[trigger] init[k] == edits[k]);
        lemma_edits_on_one_line(init, line, number);
        assert(edits[edits.len() - 1] == edits.last());
        assert(init.push(edits.last()) =~= edits);
    } else {
        assert(edits =~= Seq::<TextEditView>::empty());
    }
}

proof fn lemma_edits_of_a_line(
    all: Seq<Seq<char>>,
    count: nat,
    name: Seq<char>,
    new_name: Seq<char>,
    number: int,
)
    requires
        count <= all.len(),
        count <= u32::MAX + 1,
        0 <= number,
    ensures
        edits_on(edits_in(all, count, name, new_name), number) == (if number < count {
            line_edits(all[number], number, name, new_name)
        } else {
            Seq::empty()
        }),
    decreases count,
{
    if count > 0 {
        let before = edits_in(all, (count - 1) as nat, name, new_name);
        let here = line_edits(all[count - 1], count - 1, name, new_name);
        lemma_edits_of_a_line(all, (count - 1) as nat, name, new_name, number);
        lemma_edits_on_add(before, here, number);
        lemma_edits_on_one_line(here, count - 1, number);
        assert(edits_on(before, number) + edits_on(here, number) =~= (if number < count {
            line_edits(all[number], number, name, new_name)
        } else {
            Seq::empty()
        }));
    }
}

/// The edits of a rename, applied to the lines of a text, rename every word
/// that is `name` and leave everything else as it stands.
pub proof fn law_applied_edits_rename_the_text(
    text: Seq<char>,
    name: Seq<char>,
    new_name: Seq<char>,
    number: int,
)
    requires
        is_word(name),
        name.len() > 0,
        is_addressable(text),
        0 <= number < lines(text).len(),
    ensures
        apply_edits(lines(text)[number], edits_on(rename_edits(text, name, new_name), number))
            == renamed(lines(text)[number], name, new_name),
{
    lemma_edits_of_a_line(lines(text), lines(text).len(), name, new_name, number);
    lemma_applied_edits(lines(text)[number], number, name, new_name);
}

/// A line that starts with no word character still does so after a rename, and
/// an empty line stays empty.
proof fn lemma_renamed_start(line: Seq<char>, name: Seq<char>, new_name: Seq<char>)
    ensures
        line.len() == 0 ==> renamed(line, name, new_name).len() == 0,
        line.len() > 0 && !CharClass::Word.has_char(line[0]) ==> renamed(
            line,
            name,
            new_name,
        ).len() > 0 && renamed(line, name, new_name)[0] == line[0],
{
    lemma_run(line, CharClass::Word);
}

/// A line that starts with a whole word, once renamed, starts with that word
/// renamed.
proof fn lemma_renamed_run(line: Seq<char>, name: Seq<char>, new_name: Seq<char>)
    requires
        is_word(new_name),
        new_name.len() > 0,
    ensures
        ({
            let n = run(line, CharClass::Word) as int;
            let head = renamed_word(line.take(n), name, new_name);
            let result = renamed(line, name, new_name);
            n > 0 ==> {
                &&& result == head + renamed(line.skip(n), name, new_name)
                &&& run(result, CharClass::Word) == head.len()
                &&& result.take(head.len() as int) == head
                &&& result.skip(head.len() as int) == renamed(line.skip(n), name, new_name)
            }
        }),
{
    let n = run(line, CharClass::Word) as int;
    lemma_run(line, CharClass::Word);
    if n > 0 {
        let head = renamed_word(line.take(n), name, new_name);
        let tail = renamed(line.skip(n), name, new_name);
        let result = renamed(line, name, new_name);
        lemma_renamed_start(line.skip(n), name, new_name);
        assert(result == head + tail);
        assert forall|i: int| 0 <= i < head.len() implies CharClass::Word.has_char(
            #[trigger] result[i],
        ) by {
            assert(result[i] == head[i]);
            if line.take(n) != name {
                assert(head[i] == line[i]);
            }
        }
        if head.len() < result.len() {
            assert(result[head.len() as int] == tail[0]);
            if line.skip(n).len() > 0 {
                assert(line.skip(n)[0] == line[n]);
            }
        }
        lemma_run_is(result, CharClass::Word, head.len());
        assert(result.take(head.len() as int) =~= head);
        assert(result.skip(head.len() as int) =~= tail);
    }
}

/// After a rename to another word nothing is left to rename.
pub proof fn law_nothing_is_left_to_rename(
    line: Seq<char>,
    name: Seq<char>,
    new_name: Seq<char>,
    other: Seq<char>,
)
    requires
        is_word(new_name),
        new_name.len() > 0,
        new_name != name,
    ensures
        renamed(renamed(line, name, new_name), name, other) == renamed(line, name, new_name),
    decreases line.len(),
{
    let n = run(line, CharClass::Word) as int;
    lemma_run(line, CharClass::Word);
    let result = renamed(line, name, new_name);
    if line.len() == 0 {
    } else if n == 0 {
        law_nothing_is_left_to_rename(line.skip(1), name, new_name, other);
        lemma_renamed_start(line, name, new_name);
        let tail = renamed(line.skip(1), name, new_name);
        assert(result == line.take(1) + tail);
        assert(run(result, CharClass::Word) == 0);
        assert(result.skip(1) =~= tail);
        assert(result.take(1) =~= line.take(1));
    } else {
        law_nothing_is_left_to_rename(line.skip(n), name, new_name, other);
        lemma_renamed_run(line, name, new_name);
        assert(renamed_word(line.take(n), name, new_name).len() > 0);
    }
}

/// A word of the rest of a line is a word of the line, where no word reaches
/// into the rest.
proof fn lemma_word_in_rest(line: Seq<char>, name: Seq<char>, n: int, i: int)
    requires
        0 < n <= line.len(),
        is_whole_word_at(line.skip(n), name, i),
        i > 0 || !CharClass::Word.has_char(line[n - 1]) || n == line.len()
            || !CharClass::Word.has_char(line[n]),
        is_word(name),
        name.len() > 0,
    ensures
        has_word(line, name),
{
    let rest = line.skip(n);
    assert(line.subrange(n + i, n + i + name.len()) =~= rest.subrange(i, i + name.len()));
    if i > 0 {
        assert(rest[i - 1] == line[n + i - 1]);
    } else {
        assert(rest.subrange(i, i + name.len())[0] == rest[0]);
        assert(CharClass::Word.has_char(name[0]));
        assert(rest[0] == line[n]);
    }
    if i + name.len() < rest.len() {
        assert(rest[i + name.len()] == line[n + i + name.len()]);
    }
    assert(is_whole_word_at(line, name, n + i));
}

/// A rename to a word that the line does not have is undone by the rename back.
pub proof fn law_rename_is_undone(line: Seq<char>, name: Seq<char>, new_name: Seq<char>)
    requires
        is_word(new_name),
        new_name.len() > 0,
        !has_word(line, new_name),
    ensures
        renamed(renamed(line, name, new_name), new_name, name) == line,
    decreases line.len(),
{
    let n = run(line, CharClass::Word) as int;
    lemma_run(line, CharClass::Word);
    let result = renamed(line, name, new_name);
    if line.len() == 0 {
    } else if n == 0 {
        let rest = line.skip(1);
        if has_word(rest, new_name) {
            let i = choose|i: int| #[trigger] is_whole_word_at(rest, new_name, i);
            lemma_word_in_rest(line, new_name, 1, i);
        }
        law_rename_is_undone(rest, name, new_name);
        lemma_renamed_start(line, name, new_name);
        let tail = renamed(rest, name, new_name);
        assert(result == line.take(1) + tail);
        lemma_run(result, CharClass::Word);
        assert(run(result, CharClass::Word) == 0);
        assert(result.skip(1) =~= tail);
        assert(result.take(1) =~= line.take(1));
        assert(line.take(1) + rest =~= line);
    } else {
        let rest = line.skip(n);
        let word = line.take(n);
        if has_word(rest, new_name) {
            let i = choose|i: int| #[trigger] is_whole_word_at(rest, new_name, i);
            lemma_word_in_rest(line, new_name, n, i);
        }
        if word == new_name {
            assert(line.subrange(0, n) =~= word);
            assert(is_whole_word_at(line, new_name, 0));
        }
        law_rename_is_undone(rest, name, new_name);
        lemma_renamed_run(line, name, new_name);
        let head = renamed_word(word, name, new_name);
        assert(renamed_word(head, new_name, name) == word);
        assert(head.len() > 0);
        assert(word + rest =~= line);
    }
}

// ---------------------------------------------------------------------
// Whole texts
// ---------------------------------------------------------------------

/// The character index of a position whose column counts characters.
pub open spec fn offset_of(text: Seq<char>, pos: Position) -> int {
    line_start(text, pos.line as nat) + pos.character
}

/// The text from index `from` on after edits that come in order. All of them
/// speak of places in the text as it was before.
pub open spec fn edited_from(text: Seq<char>, edits: Seq<TextEditView>, from: int) -> Seq<char>
    decreases edits.len(),
{
    if edits.len() == 0 {
        text.skip(from)
    } else {
        text.subrange(from, offset_of(text, edits[0].range.start)) + edits[0].new_text
            + edited_from(text, edits.drop_first(), offset_of(text, edits[0].range.end))
    }
}

/// A text after edits that come in order.
pub open spec fn edited(text: Seq<char>, edits: Seq<TextEditView>) -> Seq<char> {
    edited_from(text, edits, 0)
}

/// A whole word of a line is a whole word of the text.
proof fn lemma_word_of_a_line(text: Seq<char>, name: Seq<char>, number: int, i: int)
    requires
        0 <= number < lines(text).len(),
        is_whole_word_at(lines(text)[number], name, i),
    ensures
        is_whole_word_at(text, name, line_start(text, number as nat) + i),
{
    let line = lines(text)[number];
    let start = line_start(text, number as nat) as int;
    law_line_stands_in_text(text, number as nat);
    lemma_line_edges(text, number as nat);
    let end = i + name.len();
    assert(text.subrange(start + i, start + end) =~= line.subrange(i, end));
    if i > 0 {
        assert(line[i - 1] == text[start + i - 1]);
    }
    if end < line.len() {
        assert(line[end] == text[start + end]);
    }
}

/// A whole word of a text is a whole word of one of its lines.
proof fn lemma_word_of_a_text(text: Seq<char>, name: Seq<char>, p: int) -> (r: (int, int))
    requires
        is_word(name),
        name.len() > 0,
        is_whole_word_at(text, name, p),
    ensures
        0 <= r.0 < lines(text).len(),
        is_whole_word_at(lines(text)[r.0], name, r.1),
        p == line_start(text, r.0 as nat) + r.1,
    decreases text.len(),
{
    lemma_run(text, CharClass::Not('\n'));
    let end = run(text, CharClass::Not('\n')) as int;
    let stop = p + name.len();
    let found = text.subrange(p, stop);
    if end >= text.len() {
        (0, p)
    } else {
        if p <= end < stop {
            assert(found[end - p] == text[end]);
            assert(CharClass::Word.has_char(name[end - p]));
        }
        let rest = text.skip(end + 1);
        if stop <= end {
            let line = lines(text)[0];
            if stop == end && text[end - 1] == '\r' {
                assert(found[end - 1 - p] == text[end - 1]);
                assert(CharClass::Word.has_char(name[end - 1 - p]));
            }
            assert(text.take(end).last() == text[end - 1]);
            assert(stop <= line.len());
            assert(line.subrange(p, stop) =~= found);
            if p > 0 {
                assert(line[p - 1] == text[p - 1]);
            }
            if stop < line.len() {
                assert(line[stop] == text[stop]);
            }
            (0, p)
        } else {
            let q = p - end - 1;
            assert(rest.subrange(q, q + name.len()) =~= found);
            if q > 0 {
                assert(rest[q - 1] == text[p - 1]);
            }
            if q + name.len() < rest.len() {
                assert(rest[q + name.len()] == text[stop]);
            }
            let (number, i) = lemma_word_of_a_text(rest, name, q);
            assert(lines(text)[number + 1] == lines(rest)[number]);
            (number + 1, i)
        }
    }
}

/// The character indices at which edits start.
spec fn offsets(text: Seq<char>, edits: Seq<TextEditView>) -> Seq<int> {
    Seq::new(edits.len(), |k: int| offset_of(text, edits[k].range.start))
}

spec fn is_increasing(s: Seq<int>) -> bool {
    forall|a: int, b: int| 0 <= a < b < s.len() ==> #[trigger] s[a] < #[trigger] s[b]
}

/// Two increasing sequences of the same numbers are the same.
proof fn lemma_same_numbers(a: Seq<int>, b: Seq<int>)
    requires
        is_increasing(a),
        is_increasing(b),
        forall|x: int| #[trigger] a.contains(x) <==> b.contains(x),
    ensures
        a == b,
    decreases a.len(),
{
    if a.len() == 0 {
        if b.len() > 0 {
            assert(b.contains(b[0]));
            assert(a.contains(b[0]));
        }
        assert(a =~= b);
    } else {
        assert(a.contains(a[a.len() - 1]));
        let j = choose|j: int| 0 <= j < b.len() && b[j] == a[a.len() - 1];
        assert(b.contains(b[b.len() - 1]));
        assert(a.contains(b[b.len() - 1]));
        let i = choose|i: int| 0 <= i < a.len() && a[i] == b[b.len() - 1];
        assert(a[i] <= a[a.len() - 1]);
        assert(b[j] <= b[b.len() - 1]);
        assert(a.last() == b.last());
        let c = a.drop_last();
        let d = b.drop_last();
        assert forall|x: int| #[trigger] c.contains(x) <==> d.contains(x) by {
            if c.contains(x) {
                let k = choose|k: int| 0 <= k < c.len() && c[k] == x;
                assert(a[k] == x);
                assert(a[k] < a[a.len() - 1]);
                assert(a.contains(x));
                let m = choose|m: int| 0 <= m < b.len() && b[m] == x;
                assert(d[m] == x);
            }
            if d.contains(x) {
                let k = choose|k: int| 0 <= k < d.len() && d[k] == x;
                assert(b[k] == x);
                assert(b[k] < b[b.len() - 1]);
                assert(b.contains(x));
                assert(a.contains(x));
                let m = choose|m: int| 0 <= m < a.len() && a[m] == x;
                assert(c[m] == x);
            }
        }
        lemma_same_numbers(c, d);
        assert(a =~= c.push(a.last()));
        assert(b =~= d.push(b.last()));
    }
}

/// Where an edit of a rename stands in the text.
proof fn lemma_edit_place(
    text: Seq<char>,
    name: Seq<char>,
    new_name: Seq<char>,
    edit: TextEditView,
)
    requires
        is_addressable(text),
        rename_edits(text, name, new_name).contains(edit),
    ensures
        is_whole_word_at(text, name, offset_of(text, edit.range.start)),
        offset_of(text, edit.range.end) == offset_of(text, edit.range.start) + name.len(),
        edit.range.start.line == edit.range.end.line < lines(text).len(),
        edit.range.end.character <= lines(text)[edit.range.end.line as int].len(),
        edit.new_text == new_name,
{
    law_every_edit_is_a_whole_word(text, name, new_name, edit);
    let (number, i) = choose|number: int, i: int|
        0 <= number < lines(text).len() && #[trigger] is_whole_word_at(
            lines(text)[number],
            name,
            i,
        ) && edit == replacement(number, i, name.len(), new_name);
    assert(lines(text)[number].len() <= u32::MAX);
    lemma_word_of_a_line(text, name, number, i);
}

/// The edits of a rename start at the whole words of the text.
proof fn lemma_edits_start_at_words(text: Seq<char>, name: Seq<char>, new_name: Seq<char>)
    requires
        is_word(name),
        name.len() > 0,
        is_addressable(text),
    ensures
        offsets(text, rename_edits(text, name, new_name)) == word_starts(text, name, 0),
{
    let edits = rename_edits(text, name, new_name);
    let places = offsets(text, edits);
    let starts = word_starts(text, name, 0);
    lemma_word_starts(text, name, 0);
    assert forall|a: int, b: int| 0 <= a < b < places.len() implies #[trigger] places[a]
        < #[trigger] places[b] by {
        law_edits_come_in_order(text, name, new_name, a, b);
        assert(edits.contains(edits[a]));
        assert(edits.contains(edits[b]));
        lemma_edit_place(text, name, new_name, edits[a]);
        lemma_edit_place(text, name, new_name, edits[b]);
        if edits[a].range.end.line < edits[b].range.start.line {
            lemma_line_starts_apart(
                text,
                edits[a].range.end.line as nat,
                edits[b].range.start.line as nat,
            );
        }
    }
    assert forall|x: int| #[trigger] places.contains(x) <==> starts.contains(x) by {
        if places.contains(x) {
            let k = choose|k: int| 0 <= k < places.len() && places[k] == x;
            assert(edits.contains(edits[k]));
            lemma_edit_place(text, name, new_name, edits[k]);
            law_word_starts_are_the_whole_words(text, name, x);
        }
        if starts.contains(x) {
            law_word_starts_are_the_whole_words(text, name, x);
            let (number, i) = lemma_word_of_a_text(text, name, x);
            law_every_whole_word_is_renamed(text, name, new_name, number, i);
            let edit = replacement(number, i, name.len(), new_name);
            let k = choose|k: int| 0 <= k < edits.len() && edits[k] == edit;
            assert(lines(text)[number].len() <= u32::MAX);
            assert(places[k] == x);
        }
    }
    lemma_same_numbers(places, starts);
}

proof fn lemma_edited_is_spliced(
    text: Seq<char>,
    edits: Seq<TextEditView>,
    n: nat,
    new_name: Seq<char>,
    from: int,
)
    requires
        forall|k: int|
            0 <= k < edits.len() ==> (#[trigger] edits[k]).new_text == new_name && offset_of(
                text,
                edits[k].range.end,
            ) == offset_of(text, edits[k].range.start) + n,
    ensures
        edited_from(text, edits, from) == spliced(text, offsets(text, edits), n, new_name, from),
    decreases edits.len(),
{
    if edits.len() > 0 {
        let rest = edits.drop_first();
        let first = edits[0];
        assert(forall|k: int| 0 <= k < rest.len() ==> #[trigger] rest[k] == edits[k + 1]);
        lemma_edited_is_spliced(text, rest, n, new_name, offset_of(text, first.range.end));
        assert(offsets(text, edits).drop_first() =~= offsets(text, rest));
        assert(offsets(text, edits)[0] == offset_of(text, first.range.start));
    }
}

/// A text after the edits of a rename is the text in which every word that is
/// `name` reads `new_name`.
pub proof fn law_edited_text_is_renamed(text: Seq<char>, name: Seq<char>, new_name: Seq<char>)
    requires
        is_word(name),
        name.len() > 0,
        is_addressable(text),
    ensures
        edited(text, rename_edits(text, name, new_name)) == renamed(text, name, new_name),
{
    let edits = rename_edits(text, name, new_name);
    assert forall|k: int| 0 <= k < edits.len() implies (#[trigger] edits[k]).new_text == new_name
        && offset_of(text, edits[k].range.end) == offset_of(text, edits[k].range.start)
        + name.len() by {
        assert(edits.contains(edits[k]));
        lemma_edit_place(text, name, new_name, edits[k]);
    }
    lemma_edited_is_spliced(text, edits, name.len(), new_name, 0);
    lemma_edits_start_at_words(text, name, new_name);
    lemma_spliced_is_renamed(text, name, new_name, 0);
    assert(text.skip(0) =~= text);
}

/// A word stands in a text exactly if a rename of it has something to edit.
pub proof fn law_words_of_a_text_are_edited(text: Seq<char>, name: Seq<char>, new_name: Seq<char>)
    requires
        is_word(name),
        name.len() > 0,
    ensures
        has_word(text, name) <==> rename_edits(text, name, new_name).len() > 0,
{
    let edits = rename_edits(text, name, new_name);
    if has_word(text, name) {
        let p = choose|p: int| #[trigger] is_whole_word_at(text, name, p);
        let (number, i) = lemma_word_of_a_text(text, name, p);
        law_every_whole_word_is_renamed(text, name, new_name, number, i);
    }
    if edits.len() > 0 {
        assert(edits.contains(edits[0]));
        law_every_edit_is_a_whole_word(text, name, new_name, edits[0]);
        let (number, i) = choose|number: int, i: int|
            0 <= number < lines(text).len() && #[trigger] is_whole_word_at(
                lines(text)[number],
                name,
                i,
            ) && edits[0] == replacement(number, i, name.len(), new_name);
        lemma_word_of_a_line(text, name, number, i);
    }
}

/// After a rename to another word, no word is `name`.
proof fn lemma_no_word_is_left(line: Seq<char>, name: Seq<char>, new_name: Seq<char>)
    requires
        is_word(name),
        name.len() > 0,
        is_word(new_name),
        new_name.len() > 0,
        new_name != name,
    ensures
        !has_word(renamed(line, name, new_name), name),
    decreases line.len(),
{
    let n = run(line, CharClass::Word) as int;
    lemma_run(line, CharClass::Word);
    let result = renamed(line, name, new_name);
    if has_word(result, name) {
        let i = choose|i: int| #[trigger] is_whole_word_at(result, name, i);
        let end = i + name.len();
        assert(result.subrange(i, end)[0] == result[i]);
        assert(CharClass::Word.has_char(name[0]));
        if line.len() > 0 {
            let (head, rest) = if n == 0 {
                (line.take(1), line.skip(1))
            } else {
                (renamed_word(line.take(n), name, new_name), line.skip(n))
            };
            let tail = renamed(rest, name, new_name);
            lemma_no_word_is_left(rest, name, new_name);
            lemma_renamed_run(line, name, new_name);
            assert(result == head + tail);
            if i >= head.len() {
                let j = i - head.len();
                assert(tail.subrange(j, j + name.len()) =~= result.subrange(i, end));
                if j > 0 {
                    assert(tail[j - 1] == result[i - 1]);
                }
                if j + name.len() < tail.len() {
                    assert(tail[j + name.len()] == result[end]);
                }
                assert(is_whole_word_at(tail, name, j));
            } else {
                lemma_run(result, CharClass::Word);
                if n == 0 {
                    assert(result[0] == line[0]);
                } else {
                    if i > 0 {
                        assert(CharClass::Word.has_char(result[i - 1]));
                    }
                    if end < head.len() {
                        assert(CharClass::Word.has_char(result[end]));
                    }
                    if end > head.len() {
                        assert(result.subrange(i, end)[head.len() - i] == result[head.len() as int]);
                        assert(CharClass::Word.has_char(name[head.len() - i]));
                    }
                    assert(result.subrange(0, end) =~= head);
                }
            }
        }
    }
}

/// Once a word of a text has been renamed to a word that the text did not have,
/// a second rename finds nothing, and the rename back gives the text back.
pub proof fn law_text_is_renamed_and_back(text: Seq<char>, name: Seq<char>, new_name: Seq<char>)
    requires
        is_word(name),
        name.len() > 0,
        is_word(new_name),
        new_name.len() > 0,
        new_name != name,
        rename_edits(text, new_name, new_name).len() == 0,
        is_addressable(text),
    ensures
        ({
            let after = edited(text, rename_edits(text, name, new_name));
            &&& rename_edits(after, name, new_name).len() == 0
            &&& is_addressable(after) ==> edited(after, rename_edits(after, new_name, name)) == text
        }),
{
    let after = edited(text, rename_edits(text, name, new_name));
    law_edited_text_is_renamed(text, name, new_name);
    lemma_no_word_is_left(text, name, new_name);
    law_words_of_a_text_are_edited(after, name, new_name);
    law_words_of_a_text_are_edited(text, new_name, new_name);
    law_rename_is_undone(text, name, new_name);
    if is_addressable(after) {
        law_edited_text_is_renamed(after, new_name, name);
    }
}

} // verus!
