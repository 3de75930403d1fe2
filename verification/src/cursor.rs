//! What stands at a cursor. Columns count the bytes of the line before the
//! cursor.

use crate::protocol::Position;
use crate::strings::{all_ascii, chars_of, is_ascii, string_of};
use crate::text::{
    byte_len, char_width, index_at_byte, index_of_byte, law_line_stands_in_text,
    lemma_ascii_columns, lemma_byte_len_add, lemma_byte_len_one, lemma_byte_len_prefix,
    lemma_byte_len_utf8, lemma_index_of_byte, lemma_run_back, line_bounds, line_start, lines, run,
    run_back, run_back_in, run_in, width_of, CharClass,
};
use vstd::prelude::*;

verus! {

/// The word at a position: the longest run of letters, digits, `_` and `$`
/// around the character behind the cursor. There is none if that character is
/// no such character, or if the line or the column does not exist.
pub open spec fn word_at(text: Seq<char>, pos: Position) -> Option<Seq<char>> {
    if pos.line >= lines(text).len() {
        None
    } else {
        let line = lines(text)[pos.line as int];
        match index_of_byte(line, pos.character as nat) {
            Some(k) => {
                let n = run(line.skip(k as int), CharClass::Word);
                if n == 0 {
                    None
                } else {
                    let m = run_back(line.take(k as int), CharClass::Word);
                    Some(line.subrange(k - m, (k + n) as int))
                }
            },
            None => None,
        }
    }
}

/// The word token at a position.
pub fn token_at_position(text: &str, pos: Position) -> (r: Option<String>)
    ensures
        r.deep_view() == word_at(text@, pos),
{
    let chars: Vec<char> = chars_of(text);
    match line_bounds(&chars, pos.line as usize) {
        Some((start, end)) => match index_at_byte(&chars, start, end, pos.character as usize) {
            Some(k) => {
                let from: usize = start + k;
                let n: usize = run_in(&chars, from, end, CharClass::Word);
                let ghost line = lines(text@)[pos.line as int];
                assert(line.skip(k as int) =~= chars@.subrange(from as int, end as int));
                if n == 0 {
                    return None;
                }
                let m: usize = run_back_in(&chars, start, from, CharClass::Word);
                assert(line.take(k as int) =~= chars@.subrange(start as int, from as int));
                assert(line.subrange(k - m, k + n) =~= chars@.subrange(from - m, from + n));
                Some(string_of(&chars, from - m, from + n))
            },
            None => None,
        },
        None => None,
    }
}

/// The line of a position; empty if there is none.
pub open spec fn line_at(text: Seq<char>, pos: Position) -> Seq<char> {
    if pos.line < lines(text).len() {
        lines(text)[pos.line as int]
    } else {
        Seq::empty()
    }
}

/// The column of a position, not beyond the end of its line.
pub open spec fn column_in(line: Seq<char>, pos: Position) -> nat {
    if pos.character <= byte_len(line) {
        pos.character as nat
    } else {
        byte_len(line)
    }
}

/// What stands on the line before the cursor.
pub open spec fn before_cursor(text: Seq<char>, pos: Position) -> Option<Seq<char>> {
    let line = line_at(text, pos);
    match index_of_byte(line, column_in(line, pos)) {
        Some(k) => Some(line.take(k as int)),
        None => None,
    }
}

/// Whether a word prefix can be cut out before the cursor: the cursor does
/// not split a character, and neither does the byte behind the character that
/// the prefix follows.
pub open spec fn has_word_prefix(text: Seq<char>, pos: Position) -> bool {
    match before_cursor(text, pos) {
        Some(before) => {
            let n = run_back(before, CharClass::Name);
            n < before.len() ==> char_width(before[before.len() - n - 1]) == 1
        },
        None => false,
    }
}

/// In a text of ASCII characters, a word prefix can be cut out before every
/// cursor.
pub proof fn law_ascii_text_has_word_prefixes(text: Seq<char>, pos: Position)
    requires
        all_ascii(text),
    ensures
        has_word_prefix(text, pos),
{
    let line = line_at(text, pos);
    if pos.line < lines(text).len() {
        lemma_ascii_columns(text, pos.line as nat);
    }
    assert(all_ascii(line));
    let k = index_of_byte(line, column_in(line, pos))->Some_0;
    let before = line.take(k as int);
    let n = run_back(before, CharClass::Name);
    lemma_run_back(before, CharClass::Name);
    if n < before.len() {
        assert(is_ascii(line[before.len() - n - 1]));
    }
}

/// The letters, digits and `_` directly before the cursor.
pub open spec fn word_prefix(text: Seq<char>, pos: Position) -> Seq<char> {
    let before = before_cursor(text, pos)->Some_0;
    before.skip(before.len() - run_back(before, CharClass::Name))
}

/// The word prefix before the cursor, if it can be cut out.
fn cut_word_prefix(text: &str, pos: Position) -> (r: Option<String>)
    ensures
        match r {
            Some(prefix) => has_word_prefix(text@, pos) && prefix@ == word_prefix(text@, pos),
            None => !has_word_prefix(text@, pos),
        },
{
    let chars: Vec<char> = chars_of(text);
    let ghost line = line_at(text@, pos);
    let (start, end): (usize, usize) = match line_bounds(&chars, pos.line as usize) {
        Some(bounds) => bounds,
        None => (0, 0),
    };
    assert(line =~= chars@.subrange(start as int, end as int));
    let found: Option<usize> = index_of_column(&chars, start, end, pos.character as usize);
    match found {
        Some(k) => {
            let cut: usize = start + k;
            let n: usize = run_back_in(&chars, start, cut, CharClass::Name);
            let ghost before = line.take(k as int);
            assert(before =~= chars@.subrange(start as int, cut as int));
            if cut - n > start && width_of(chars[cut - n - 1]) != 1 {
                assert(before[before.len() - n - 1] == chars@[cut - n - 1]);
                return None;
            }
            assert(n < before.len() ==> before[before.len() - n - 1] == chars@[cut - n - 1]);
            assert(before.skip(before.len() - n) =~= chars@.subrange(cut - n, cut as int));
            Some(string_of(&chars, cut - n, cut))
        },
        None => None,
    }
}

/// The word prefix before the cursor.
pub fn word_prefix_at_position(text: &str, pos: Position) -> (r: String)
    requires
        has_word_prefix(text@, pos),
    ensures
        r@ == word_prefix(text@, pos),
{
    match cut_word_prefix(text, pos) {
        Some(prefix) => prefix,
        None => String::new(),
    }
}

/// Whether a word prefix can be cut out before the cursor.
pub fn is_word_prefix_at(text: &str, pos: Position) -> (r: bool)
    ensures
        r == has_word_prefix(text@, pos),
{
    cut_word_prefix(text, pos).is_some()
}

/// The index of a column in the line from `start` to `end`, the column not
/// counted beyond the end of the line.
fn index_of_column(chars: &Vec<char>, start: usize, end: usize, column: usize) -> (r: Option<usize>)
    requires
        start <= end <= chars@.len(),
    ensures
        ({
            let line = chars@.subrange(start as int, end as int);
            let at = if column <= byte_len(line) {
                column as nat
            } else {
                byte_len(line)
            };
            match r {
                Some(k) => index_of_byte(line, at) == Some(k as nat) && start + k <= end,
                None => index_of_byte(line, at) is None,
            }
        }),
{
    let ghost line = chars@.subrange(start as int, end as int);
    match index_at_byte(chars, start, end, column) {
        Some(k) => {
            proof {
                lemma_index_of_byte(line, column as nat, k as nat);
                lemma_byte_len_prefix(line, k as int, k as int);
            }
            Some(k)
        },
        None => {
            // Either the column splits a character or it lies behind the line.
            let mut left: usize = column;
            let mut i: usize = start;
            assert(line.take(0) =~= Seq::<char>::empty());
            while i < end
                invariant
                    start <= i <= end <= chars@.len(),
                    line == chars@.subrange(start as int, end as int),
                    left + byte_len(line.take(i - start)) == column,
                    index_of_byte(line, column as nat) is None,
                decreases end - i,
            {
                let w: usize = width_of(chars[i]);
                proof {
                    assert(line.take(i - start + 1) =~= line.take(i - start) + seq![line[i - start]]);
                    lemma_byte_len_add(line.take(i - start), seq![line[i - start]]);
                    lemma_byte_len_one(line[i - start]);
                    lemma_byte_len_prefix(line, i - start, i - start + 1);
                }
                if left < w {
                    return None;
                }
                left -= w;
                i += 1;
            }
            proof {
                assert(line.take(line.len() as int) =~= line);
                lemma_index_of_byte(line, byte_len(line), line.len());
                lemma_index_of_byte(line, column as nat, line.len());
            }
            Some(end - start)
        },
    }
}

/// The character index of a position: that of its column, or of the last
/// character of its line where the line has no such column.
pub open spec fn cursor_index(text: Seq<char>, pos: Position) -> Option<nat> {
    if pos.line >= lines(text).len() {
        None
    } else {
        let line = lines(text)[pos.line as int];
        let start = line_start(text, pos.line as nat);
        match index_of_byte(line, pos.character as nat) {
            Some(k) => Some(start + k),
            None => if line.len() == 0 {
                Some(start)
            } else {
                Some((start + line.len() - 1) as nat)
            },
        }
    }
}

/// The byte offset of a position in a text.
pub open spec fn byte_offset(text: Seq<char>, pos: Position) -> Option<nat> {
    match cursor_index(text, pos) {
        Some(k) => Some(byte_len(text.take(k as int))),
        None => None,
    }
}

/// A cursor lies within the text.
pub proof fn lemma_cursor_index(text: Seq<char>, pos: Position)
    ensures
        cursor_index(text, pos) matches Some(k) ==> k <= text.len(),
{
    if pos.line < lines(text).len() {
        law_line_stands_in_text(text, pos.line as nat);
        let line = lines(text)[pos.line as int];
        if let Some(k) = index_of_byte(line, pos.character as nat) {
            lemma_index_of_byte(line, pos.character as nat, k);
        }
    }
}

/// Where a column of a line falls on a character boundary, the byte offset of
/// the position is that of the line's start and the column together.
pub proof fn law_byte_offset_is_line_start_and_column(text: Seq<char>, pos: Position)
    requires
        pos.line < lines(text).len(),
        index_of_byte(lines(text)[pos.line as int], pos.character as nat) is Some,
    ensures
        byte_offset(text, pos) == Some(
            byte_len(text.take(line_start(text, pos.line as nat) as int)) + pos.character as nat,
        ),
{
    let line = lines(text)[pos.line as int];
    let start = line_start(text, pos.line as nat) as int;
    let k = index_of_byte(line, pos.character as nat)->Some_0;
    lemma_index_of_byte(line, pos.character as nat, k);
    law_line_stands_in_text(text, pos.line as nat);
    assert(text.take(start + k) =~= text.take(start) + line.take(k as int));
    lemma_byte_len_add(text.take(start), line.take(k as int));
}

/// The byte offset of a position in a text.
pub fn position_to_byte_offset(text: &str, pos: Position) -> (r: Option<usize>)
    ensures
        match r {
            Some(offset) => byte_offset(text@, pos) == Some(offset as nat),
            None => byte_offset(text@, pos) is None,
        },
{
    let chars: Vec<char> = chars_of(text);
    let bytes: usize = text.as_bytes().len();
    proof {
        lemma_byte_len_utf8(text@);
        lemma_cursor_index(text@, pos);
    }
    match line_bounds(&chars, pos.line as usize) {
        Some((start, end)) => {
            let index: usize = match index_at_byte(&chars, start, end, pos.character as usize) {
                Some(k) => start + k,
                None => if end > start {
                    end - 1
                } else {
                    start
                },
            };
            let mut offset: usize = 0;
            let mut i: usize = 0;
            assert(chars@.take(0) =~= Seq::<char>::empty());
            while i < index
                invariant
                    i <= index <= chars@.len(),
                    offset == byte_len(chars@.take(i as int)),
                    byte_len(chars@) == bytes,
                decreases index - i,
            {
                proof {
                    assert(chars@.take(i + 1) =~= chars@.take(i as int) + seq![chars@[i as int]]);
                    lemma_byte_len_add(chars@.take(i as int), seq![chars@[i as int]]);
                    lemma_byte_len_one(chars@[i as int]);
                    lemma_byte_len_prefix(chars@, i as int, i + 1);
                }
                offset += width_of(chars[i]);
                i += 1;
            }
            Some(offset)
        },
        None => None,
    }
}

} // verus!
