//! What a rename edits.

use crate::laws::characters::{in_word, law_characters_of_words};
use crate::protocol::{Position, Range, TextEditView};
use crate::rename::{
    behind, edits_in, is_whole_word_at, law_every_edit_is_a_whole_word,
    law_every_whole_word_is_renamed, line_edits, rename_edits, replacement, word_starts,
};
use crate::text::{lines, CharClass};
use vstd::prelude::*;

verus! {

/// Whether `name` stands in a line from character `i` on, with no letter, digit,
/// `_` or `$` directly before or behind it.
pub open spec fn is_alone_at(line: Seq<char>, name: Seq<char>, i: int) -> bool {
    &&& 0 <= i
    &&& i + name.len() <= line.len()
    &&& line.subrange(i, i + name.len()) == name
    &&& i > 0 ==> !in_word(line[i - 1])
    &&& i + name.len() < line.len() ==> !in_word(line[i + name.len()])
}

/// The edit that puts `new_name` in the place of `n` characters.
pub open spec fn edit_of(number: int, i: int, n: nat, new_name: Seq<char>) -> TextEditView {
    TextEditView {
        range: Range {
            start: Position { line: number as u32, character: i as u32 },
            end: Position { line: number as u32, character: (i + n) as u32 },
        },
        new_text: new_name,
    }
}

proof fn lemma_alone(line: Seq<char>, name: Seq<char>, i: int)
    ensures
        is_alone_at(line, name, i) <==> is_whole_word_at(line, name, i),
{
    if 0 <= i && i + name.len() <= line.len() {
        if i > 0 {
            law_characters_of_words(line[i - 1]);
        }
        if i + name.len() < line.len() {
            law_characters_of_words(line[i + name.len()]);
        }
    }
}

/// A rename of a word edits each place where the word stands with no letter,
/// digit, `_` or `$` next to it, whatever else stands there.
pub proof fn law_rename_edits_every_place_of_the_word(
    text: Seq<char>,
    name: Seq<char>,
    new_name: Seq<char>,
    number: int,
    i: int,
)
    requires
        forall|j: int| 0 <= j < name.len() ==> in_word(#[trigger] name[j]),
        0 <= number < lines(text).len(),
        is_alone_at(lines(text)[number], name, i),
    ensures
        rename_edits(text, name, new_name).contains(edit_of(number, i, name.len(), new_name)),
{
    assert forall|j: int| 0 <= j < name.len() implies CharClass::Word.has_char(
        #[trigger] name[j],
    ) by {
        law_characters_of_words(name[j]);
    }
    lemma_alone(lines(text)[number], name, i);
    law_every_whole_word_is_renamed(text, name, new_name, number, i);
    assert(replacement(number, i, name.len(), new_name) == edit_of(
        number,
        i,
        name.len(),
        new_name,
    ));
}

/// A rename edits no other place.
pub proof fn law_rename_edits_nothing_else(
    text: Seq<char>,
    name: Seq<char>,
    new_name: Seq<char>,
    edit: TextEditView,
)
    requires
        rename_edits(text, name, new_name).contains(edit),
    ensures
        exists|number: int, i: int|
            0 <= number < lines(text).len() && #[trigger] is_alone_at(lines(text)[number], name, i)
                && edit == edit_of(number, i, name.len(), new_name),
{
    law_every_edit_is_a_whole_word(text, name, new_name, edit);
    let (number, i) = choose|number: int, i: int|
        0 <= number < lines(text).len() && #[trigger] is_whole_word_at(
            lines(text)[number],
            name,
            i,
        ) && edit == replacement(number, i, name.len(), new_name);
    lemma_alone(lines(text)[number], name, i);
    assert(is_alone_at(lines(text)[number], name, i));
}

/// A name between two characters of ASCII that are no letters, digits, `_` or
/// `$` is always renamed: operators, brackets, commas, dots and blanks end a
/// word.
pub proof fn law_operators_end_words(
    text: Seq<char>,
    name: Seq<char>,
    new_name: Seq<char>,
    number: int,
    i: int,
)
    requires
        forall|j: int| 0 <= j < name.len() ==> in_word(#[trigger] name[j]),
        0 <= number < lines(text).len(),
        0 < i,
        i + name.len() < lines(text)[number].len(),
        lines(text)[number].subrange(i, i + name.len()) == name,
        ends_a_word(lines(text)[number][i - 1]),
        ends_a_word(lines(text)[number][i + name.len()]),
    ensures
        rename_edits(text, name, new_name).contains(edit_of(number, i, name.len(), new_name)),
{
    law_rename_edits_every_place_of_the_word(text, name, new_name, number, i);
}

/// Whether a character of ASCII is no letter, digit, `_` or `$`.
pub open spec fn ends_a_word(c: char) -> bool {
    let code = c as u32;
    code < 0x80 && !(0x30 <= code <= 0x39) && !(0x41 <= code <= 0x5a) && !(0x61 <= code <= 0x7a)
        && code != 0x5f && code != 0x24
}

/// The search for a name in a line goes from left to right. The first place where
/// it stands is found if nothing of a word is next to it, and in any case the
/// search goes on behind it, or one character further on for an empty name.
pub proof fn law_names_are_searched_from_left_to_right(
    line: Seq<char>,
    name: Seq<char>,
    from: int,
    i: int,
)
    requires
        0 <= from <= i,
        forall|j: int|
            from <= j < i && j + name.len() <= line.len() ==> #[trigger] line.subrange(
                j,
                j + name.len(),
            ) != name,
        i + name.len() <= line.len() ==> line.subrange(i, i + name.len()) == name,
    ensures
        word_starts(line, name, from) == (if i + name.len() > line.len() {
            Seq::empty()
        } else {
            (if is_alone_at(line, name, i) {
                seq![i]
            } else {
                Seq::empty()
            }) + word_starts(
                line,
                name,
                if name.len() == 0 {
                    i + 1
                } else {
                    i + name.len()
                },
            )
        }),
    decreases i - from,
{
    lemma_alone(line, name, i);
    if from < i {
        if from + name.len() <= line.len() {
            assert(line.subrange(from, from + name.len()) != name);
        }
        law_names_are_searched_from_left_to_right(line, name, from + 1, i);
        if from + name.len() > line.len() {
            assert(word_starts(line, name, from) =~= Seq::<int>::empty());
        }
    } else if i + name.len() <= line.len() {
        let rest = word_starts(line, name, behind(name, i));
        assert(Seq::<int>::empty() + rest =~= rest);
    }
}

/// The edits of a rename are those in the first line, then those in the second,
/// and so on, each in the place of the name with the new name.
pub proof fn law_rename_edits_line_by_line(
    text: Seq<char>,
    all: Seq<Seq<char>>,
    number: nat,
    name: Seq<char>,
    new_name: Seq<char>,
)
    ensures
        rename_edits(text, name, new_name) == edits_in(
            lines(text),
            lines(text).len(),
            name,
            new_name,
        ),
        edits_in(all, 0, name, new_name) == Seq::<TextEditView>::empty(),
        edits_in(all, number + 1, name, new_name) == edits_in(all, number, name, new_name)
            + word_starts(all[number as int], name, 0).map_values(
            |i: int| edit_of(number as int, i, name.len(), new_name),
        ),
{
    let starts = word_starts(all[number as int], name, 0);
    assert(line_edits(all[number as int], number as int, name, new_name) =~= starts.map_values(
        |i: int| edit_of(number as int, i, name.len(), new_name),
    ));
}

} // verus!
