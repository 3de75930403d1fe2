//! Whole-word occurrences of a name, and the edits that rename them.

use crate::protocol::{Position, Range, TextEdit, TextEditView};
use crate::strings::{chars_of, copied};
use crate::text::{lines, split_lines, CharClass};
use vstd::prelude::*;

verus! {

/// Whether `name` stands in `line` at index `i`.
pub open spec fn occurs_at(line: Seq<char>, name: Seq<char>, i: int) -> bool {
    0 <= i && i + name.len() <= line.len() && line.subrange(i, i + name.len()) == name
}

/// Whether the `n` characters at index `i` have no word character directly
/// before or behind them.
pub open spec fn stands_alone(line: Seq<char>, i: int, n: nat) -> bool {
    &&& i > 0 ==> !CharClass::Word.has_char(line[i - 1])
    &&& i + n < line.len() ==> !CharClass::Word.has_char(line[i + n])
}

/// Whether `name` stands in `line` at index `i` as a whole word.
pub open spec fn is_whole_word_at(line: Seq<char>, name: Seq<char>, i: int) -> bool {
    occurs_at(line, name, i) && stands_alone(line, i, name.len())
}

/// Where the search goes on behind an occurrence at index `i`.
pub open spec fn behind(name: Seq<char>, i: int) -> int {
    if name.len() == 0 {
        i + 1
    } else {
        i + name.len()
    }
}

/// The indices, from `from` on, at which `name` is a whole word, among its
/// occurrences that do not overlap an earlier one.
pub open spec fn word_starts(line: Seq<char>, name: Seq<char>, from: int) -> Seq<int>
    decreases line.len() - from + 1,
{
    if from < 0 || from + name.len() > line.len() {
        Seq::empty()
    } else if !occurs_at(line, name, from) {
        word_starts(line, name, from + 1)
    } else if stands_alone(line, from, name.len()) {
        seq![from] + word_starts(line, name, behind(name, from))
    } else {
        word_starts(line, name, behind(name, from))
    }
}

/// The edit that replaces `n` characters at index `i` of line `number`.
pub open spec fn replacement(number: int, i: int, n: nat, new_name: Seq<char>) -> TextEditView {
    TextEditView {
        range: Range {
            start: Position { line: number as u32, character: i as u32 },
            end: Position { line: number as u32, character: (i + n) as u32 },
        },
        new_text: new_name,
    }
}

/// The edits that rename `name` in one line.
pub open spec fn line_edits(
    line: Seq<char>,
    number: int,
    name: Seq<char>,
    new_name: Seq<char>,
) -> Seq<TextEditView> {
    let starts = word_starts(line, name, 0);
    Seq::new(starts.len(), |k: int| replacement(number, starts[k], name.len(), new_name))
}

/// The edits that rename `name` in the first `count` lines.
pub open spec fn edits_in(
    all: Seq<Seq<char>>,
    count: nat,
    name: Seq<char>,
    new_name: Seq<char>,
) -> Seq<TextEditView>
    decreases count,
{
    if count == 0 {
        Seq::empty()
    } else {
        edits_in(all, (count - 1) as nat, name, new_name) + line_edits(
            all[count - 1],
            count - 1,
            name,
            new_name,
        )
    }
}

/// The edits that rename `name` in a text, from the top down.
pub open spec fn rename_edits(text: Seq<char>, name: Seq<char>, new_name: Seq<char>) -> Seq<
    TextEditView,
> {
    edits_in(lines(text), lines(text).len(), name, new_name)
}

/// Whether every place in a text has a position: its line numbers and its
/// columns fit the numbers that positions are made of.
pub open spec fn is_addressable(text: Seq<char>) -> bool {
    &&& lines(text).len() <= u32::MAX + 1
    &&& forall|n: int| 0 <= n < lines(text).len() ==> (#[trigger] lines(text)[n]).len() <= u32::MAX
}

// ---------------------------------------------------------------------
// Laws
// ---------------------------------------------------------------------

/// Whether a text consists of word characters.
pub open spec fn is_word(name: Seq<char>) -> bool {
    forall|i: int| 0 <= i < name.len() ==> CharClass::Word.has_char(#[trigger] name[i])
}

/// The indices that are found are those of whole words, from left to right and
/// apart from each other.
pub proof fn lemma_word_starts(line: Seq<char>, name: Seq<char>, from: int)
    requires
        0 <= from,
    ensures
        forall|k: int|
            0 <= k < word_starts(line, name, from).len() ==> from <= #[trigger] word_starts(
                line,
                name,
                from,
            )[k] && is_whole_word_at(line, name, word_starts(line, name, from)[k]),
        forall|a: int, b: int|
            0 <= a < b < word_starts(line, name, from).len() ==> behind(
                name,
                #[trigger] word_starts(line, name, from)[a],
            ) <= #[trigger] word_starts(line, name, from)[b],
    decreases line.len() - from + 1,
{
    if from + name.len() > line.len() {
    } else if !occurs_at(line, name, from) {
        lemma_word_starts(line, name, from + 1);
        assert(word_starts(line, name, from) == word_starts(line, name, from + 1));
    } else {
        let next = behind(name, from);
        lemma_word_starts(line, name, next);
        let all = word_starts(line, name, from);
        let rest = word_starts(line, name, next);
        if stands_alone(line, from, name.len()) {
            assert(all == seq![from] + rest);
            assert(forall|k: int| 0 < k < all.len() ==> #[trigger] all[k] == rest[k - 1]);
            assert forall|k: int| 0 <= k < all.len() implies from <= #[trigger] all[k]
                && is_whole_word_at(line, name, all[k]) by {
                if k > 0 {
                    assert(next <= rest[k - 1]);
                }
            }
            assert forall|a: int, b: int| 0 <= a < b < all.len() implies behind(
                name,
                #[trigger] all[a],
            ) <= #[trigger] all[b] by {
                assert(all[b] == rest[b - 1]);
                if a > 0 {
                    assert(all[a] == rest[a - 1]);
                }
            }
        } else {
            assert(all == rest);
        }
    }
}

proof fn lemma_word_starts_complete(line: Seq<char>, name: Seq<char>, from: int, i: int)
    requires
        0 <= from <= i,
        is_word(name),
        is_whole_word_at(line, name, i),
    ensures
        word_starts(line, name, from).contains(i),
    decreases line.len() - from + 1,
{
    let all = word_starts(line, name, from);
    if !occurs_at(line, name, from) {
        lemma_word_starts_complete(line, name, from + 1, i);
    } else {
        let next = behind(name, from);
        if i == from {
            assert(all[0] == i);
        } else {
            if i < next {
                // The character before `i` belongs to the occurrence at `from`.
                assert(line[i - 1] == line.subrange(from, from + name.len())[i - 1 - from]);
                assert(CharClass::Word.has_char(name[i - 1 - from]));
                assert(false);
            }
            lemma_word_starts_complete(line, name, next, i);
            let rest = word_starts(line, name, next);
            let k = choose|k: int| 0 <= k < rest.len() && rest[k] == i;
            if stands_alone(line, from, name.len()) {
                assert(all[k + 1] == i);
            }
        }
    }
}

/// Of a name that is a word, every whole-word occurrence in a line is found,
/// and nothing else is.
pub proof fn law_word_starts_are_the_whole_words(line: Seq<char>, name: Seq<char>, i: int)
    requires
        is_word(name),
    ensures
        word_starts(line, name, 0).contains(i) <==> is_whole_word_at(line, name, i),
{
    lemma_word_starts(line, name, 0);
    if is_whole_word_at(line, name, i) {
        lemma_word_starts_complete(line, name, 0, i);
    }
}

/// The occurrences that are found in a line do not overlap, and they come from
/// left to right.
pub proof fn law_word_starts_do_not_overlap(line: Seq<char>, name: Seq<char>, a: int, b: int)
    requires
        0 <= a < b < word_starts(line, name, 0).len(),
    ensures
        word_starts(line, name, 0)[a] < word_starts(line, name, 0)[b],
        word_starts(line, name, 0)[a] + name.len() <= word_starts(line, name, 0)[b],
{
    lemma_word_starts(line, name, 0);
}

/// Every edit of a rename replaces a whole-word occurrence of the name.
pub proof fn law_every_edit_is_a_whole_word(
    text: Seq<char>,
    name: Seq<char>,
    new_name: Seq<char>,
    edit: TextEditView,
)
    requires
        rename_edits(text, name, new_name).contains(edit),
    ensures
        exists|number: int, i: int|
            0 <= number < lines(text).len() && #[trigger] is_whole_word_at(
                lines(text)[number],
                name,
                i,
            ) && edit == replacement(number, i, name.len(), new_name),
{
    lemma_edits_in_sound(lines(text), lines(text).len(), name, new_name, edit);
}

proof fn lemma_edits_in_sound(
    all: Seq<Seq<char>>,
    count: nat,
    name: Seq<char>,
    new_name: Seq<char>,
    edit: TextEditView,
)
    requires
        count <= all.len(),
        edits_in(all, count, name, new_name).contains(edit),
    ensures
        exists|number: int, i: int|
            0 <= number < count && #[trigger] is_whole_word_at(all[number], name, i) && edit
                == replacement(number, i, name.len(), new_name),
    decreases count,
{
    let edits = edits_in(all, count, name, new_name);
    let k = choose|k: int| 0 <= k < edits.len() && edits[k] == edit;
    let before = edits_in(all, (count - 1) as nat, name, new_name);
    if k < before.len() {
        assert(before[k] == edit);
        lemma_edits_in_sound(all, (count - 1) as nat, name, new_name, edit);
    } else {
        let line = all[count - 1];
        let starts = word_starts(line, name, 0);
        lemma_word_starts(line, name, 0);
        let i = starts[k - before.len()];
        assert(is_whole_word_at(all[count - 1], name, i));
    }
}

/// A rename of a word replaces all its whole-word occurrences.
pub proof fn law_every_whole_word_is_renamed(
    text: Seq<char>,
    name: Seq<char>,
    new_name: Seq<char>,
    number: int,
    i: int,
)
    requires
        is_word(name),
        0 <= number < lines(text).len(),
        is_whole_word_at(lines(text)[number], name, i),
    ensures
        rename_edits(text, name, new_name).contains(replacement(number, i, name.len(), new_name)),
{
    lemma_edits_in_complete(lines(text), lines(text).len(), name, new_name, number, i);
}

proof fn lemma_edits_in_complete(
    all: Seq<Seq<char>>,
    count: nat,
    name: Seq<char>,
    new_name: Seq<char>,
    number: int,
    i: int,
)
    requires
        count <= all.len(),
        is_word(name),
        0 <= number < count,
        is_whole_word_at(all[number], name, i),
    ensures
        edits_in(all, count, name, new_name).contains(
            replacement(number, i, name.len(), new_name),
        ),
    decreases count,
{
    let edit = replacement(number, i, name.len(), new_name);
    let edits = edits_in(all, count, name, new_name);
    let before = edits_in(all, (count - 1) as nat, name, new_name);
    if number < count - 1 {
        lemma_edits_in_complete(all, (count - 1) as nat, name, new_name, number, i);
        let k = choose|k: int| 0 <= k < before.len() && before[k] == edit;
        assert(edits[k] == edit);
    } else {
        law_word_starts_are_the_whole_words(all[number], name, i);
        let starts = word_starts(all[number], name, 0);
        let k = choose|k: int| 0 <= k < starts.len() && starts[k] == i;
        assert(line_edits(all[number], number, name, new_name)[k] == edit);
        assert(edits[before.len() + k] == edit);
    }
}

/// Whether an edit ends before another starts, or where it starts.
pub open spec fn comes_before(a: TextEditView, b: TextEditView) -> bool {
    a.range.end.line < b.range.start.line || (a.range.end.line == b.range.start.line
        && a.range.end.character <= b.range.start.character)
}

/// The edits of a rename come from the top down and from left to right, and
/// they do not overlap.
pub proof fn law_edits_come_in_order(
    text: Seq<char>,
    name: Seq<char>,
    new_name: Seq<char>,
    a: int,
    b: int,
)
    requires
        is_addressable(text),
        0 <= a < b < rename_edits(text, name, new_name).len(),
    ensures
        comes_before(
            rename_edits(text, name, new_name)[a],
            rename_edits(text, name, new_name)[b],
        ),
{
    lemma_edits_in_order(lines(text), lines(text).len(), name, new_name);
}

proof fn lemma_edits_in_order(
    all: Seq<Seq<char>>,
    count: nat,
    name: Seq<char>,
    new_name: Seq<char>,
)
    requires
        count <= all.len() <= u32::MAX + 1,
        forall|n: int| 0 <= n < all.len() ==> (#[trigger] all[n]).len() <= u32::MAX,
    ensures
        forall|k: int|
            0 <= k < edits_in(all, count, name, new_name).len() ==> (#[trigger] edits_in(
                all,
                count,
                name,
                new_name,
            )[k]).range.end.line < count,
        forall|a: int, b: int|
            0 <= a < b < edits_in(all, count, name, new_name).len() ==> comes_before(
                #[trigger] edits_in(all, count, name, new_name)[a],
                #[trigger] edits_in(all, count, name, new_name)[b],
            ),
    decreases count,
{
    if count > 0 {
        let edits = edits_in(all, count, name, new_name);
        let before = edits_in(all, (count - 1) as nat, name, new_name);
        let line = all[count - 1];
        let starts = word_starts(line, name, 0);
        let here = line_edits(line, count - 1, name, new_name);
        lemma_edits_in_order(all, (count - 1) as nat, name, new_name);
        lemma_word_starts(line, name, 0);
        assert(forall|k: int| 0 <= k < before.len() ==> #[trigger] edits[k] == before[k]);
        assert(forall|k: int|
            before.len() <= k < edits.len() ==> #[trigger] edits[k] == here[k - before.len()]);
        assert forall|k: int| 0 <= k < here.len() implies (#[trigger] here[k]).range.start.line
            == count - 1 && here[k].range.end.line == count - 1 && here[k].range.start.character
            == starts[k] && here[k].range.end.character == starts[k] + name.len() by {
            assert(is_whole_word_at(line, name, starts[k]));
        }
        assert forall|a: int, b: int| 0 <= a < b < edits.len() implies comes_before(
            #[trigger] edits[a],
            #[trigger] edits[b],
        ) by {
            if b < before.len() {
                assert(comes_before(before[a], before[b]));
            } else if a >= before.len() {
                let i = a - before.len();
                let j = b - before.len();
                assert(behind(name, starts[i]) <= starts[j]);
            }
        }
    }
}

// ---------------------------------------------------------------------
// Computing them
// ---------------------------------------------------------------------

/// Whether `name` stands in `line` at index `at`.
pub fn occurs(line: &Vec<char>, name: &Vec<char>, at: usize) -> (r: bool)
    requires
        at + name@.len() <= line@.len(),
    ensures
        r == occurs_at(line@, name@, at as int),
{
    let mut k: usize = 0;
    let len: usize = line.len();
    while k < name.len()
        invariant
            k <= name@.len(),
            at + name@.len() <= line@.len() == len,
            forall|j: int| 0 <= j < k ==> line@[at + j] == #[trigger] name@[j],
        decreases name@.len() - k,
    {
        if line[at + k] != name[k] {
            assert(line@.subrange(at as int, at + name@.len())[k as int] != name@[k as int]);
            return false;
        }
        k += 1;
    }
    assert(line@.subrange(at as int, at + name@.len()) =~= name@);
    true
}

fn is_alone(line: &Vec<char>, at: usize, n: usize) -> (r: bool)
    requires
        at + n <= line@.len(),
    ensures
        r == stands_alone(line@, at as int, n as nat),
{
    let len: usize = line.len();
    let before_ok: bool = at == 0 || !CharClass::Word.admits(line[at - 1]);
    let after_ok: bool = at + n >= len || !CharClass::Word.admits(line[at + n]);
    before_ok && after_ok
}

/// The edits that rename all whole-word occurrences of `old_name` to
/// `new_name`.
pub fn compute_rename_edits(text: &str, old_name: &str, new_name: &str) -> (r: Vec<TextEdit>)
    ensures
        r.deep_view() == rename_edits(text@, old_name@, new_name@),
{
    let chars: Vec<char> = chars_of(text);
    let name: Vec<char> = chars_of(old_name);
    let all: Vec<Vec<char>> = split_lines(&chars);
    let ghost all_view = lines(text@);
    let mut edits: Vec<TextEdit> = Vec::new();
    let mut number: usize = 0;
    assert(edits.deep_view() =~= Seq::<TextEditView>::empty());
    while number < all.len()
        invariant
            number <= all@.len() == all_view.len(),
            name@ == old_name@,
            forall|n: int| 0 <= n < all@.len() ==> (#[trigger] all@[n])@ == all_view[n],
            edits.deep_view() == edits_in(all_view, number as nat, old_name@, new_name@),
        decreases all@.len() - number,
    {
        assert(all@[number as int]@ == all_view[number as int]);
        push_line_edits(&all[number], number, &name, new_name, &mut edits);
        number += 1;
    }
    edits
}

fn push_line_edits(
    line: &Vec<char>,
    number: usize,
    name: &Vec<char>,
    new_name: &str,
    edits: &mut Vec<TextEdit>,
)
    ensures
        final(edits).deep_view() == old(edits).deep_view() + line_edits(
            line@,
            number as int,
            name@,
            new_name@,
        ),
{
    let ghost before = edits.deep_view();
    let ghost starts = word_starts(line@, name@, 0);
    let ghost mut done: Seq<int> = Seq::empty();
    let n: usize = name.len();
    let len: usize = line.len();
    let mut from: usize = 0;
    let mut more: bool = n <= len;
    assert(done + starts =~= starts);
    assert(before =~= edits.deep_view());
    while more
        invariant
            n == name@.len(),
            len == line@.len(),
            from <= len,
            more ==> from + n <= len,
            starts == done + (if more {
                word_starts(line@, name@, from as int)
            } else {
                Seq::empty()
            }),
            edits@.len() == before.len() + done.len(),
            forall|k: int| 0 <= k < before.len() ==> edits.deep_view()[k] == #[trigger] before[k],
            forall|k: int|
                0 <= k < done.len() ==> edits.deep_view()[before.len() + k] == replacement(
                    number as int,
                    #[trigger] done[k],
                    n as nat,
                    new_name@,
                ),
        decreases len - from + (if more {
            1int
        } else {
            0int
        }),
    {
        let mut step: usize = 1;
        if occurs(line, name, from) {
            if is_alone(line, from, n) {
                let edit = TextEdit {
                    range: Range {
                        start: Position { line: number as u32, character: from as u32 },
                        end: Position { line: number as u32, character: (from + n) as u32 },
                    },
                    new_text: copied(new_name),
                };
                let ghost earlier = edits.deep_view();
                edits.push(edit);
                proof {
                    let rest = word_starts(line@, name@, behind(name@, from as int));
                    assert(done + (seq![from as int] + rest) =~= done.push(from as int) + rest);
                    assert(forall|k: int|
                        0 <= k < earlier.len() ==> edits.deep_view()[k] == #[trigger] earlier[k]);
                    assert forall|k: int| 0 <= k < before.len() implies edits.deep_view()[k]
                        == #[trigger] before[k] by {
                        assert(edits.deep_view()[k] == earlier[k]);
                    }
                    assert forall|k: int| 0 <= k < done.push(from as int).len() implies (
                    edits.deep_view()[before.len() + k] == replacement(
                        number as int,
                        #[trigger] done.push(from as int)[k],
                        n as nat,
                        new_name@,
                    )) by {
                        if k < done.len() {
                            assert(done.push(from as int)[k] == done[k]);
                            assert(edits.deep_view()[before.len() + k] == earlier[before.len()
                                + k]);
                        }
                    }
                    done = done.push(from as int);
                }
            }
            if n > 0 {
                step = n;
            }
        }
        if step <= len - from && n <= len - from - step {
            from += step;
        } else {
            assert(word_starts(line@, name@, from + step) =~= Seq::<int>::empty());
            more = false;
        }
    }
    assert(done + Seq::<int>::empty() =~= done);
    assert(edits.deep_view() =~= before + line_edits(line@, number as int, name@, new_name@));
}

} // verus!
