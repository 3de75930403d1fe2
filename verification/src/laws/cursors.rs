//! What stands at a cursor.

use crate::cursor::{
    before_cursor, byte_offset, column_in, cursor_index, has_word_prefix, line_at, word_at,
    word_prefix,
};
use crate::laws::characters::{in_name, in_word, law_characters_of_words};
use crate::protocol::Position;
use crate::text::{
    byte_len, index_of_byte, lemma_byte_len_prefix, lemma_byte_len_utf8, lemma_index_of_byte,
    lemma_run, lemma_run_back, lemma_run_back_is, lemma_run_is, line_start, lines, run, run_back,
    CharClass,
};
use vstd::prelude::*;
use vstd::utf8::encode_utf8;

verus! {

/// Whether the cursor stands before character `k` of a line: its column counts
/// the bytes of the characters before.
pub open spec fn is_column_of(line: Seq<char>, column: u32, k: int) -> bool {
    0 <= k <= line.len() && encode_utf8(line.take(k)).len() == column
}

/// Whether `w` is the longest run of word characters around character `k` of a
/// line, from character `a` to before character `b`.
pub open spec fn is_word_around(line: Seq<char>, w: Seq<char>, a: int, k: int, b: int) -> bool {
    &&& 0 <= a <= k < b <= line.len()
    &&& w == line.subrange(a, b)
    &&& forall|j: int| a <= j < b ==> in_word(#[trigger] line[j])
    &&& a > 0 ==> !in_word(line[a - 1])
    &&& b < line.len() ==> !in_word(line[b])
}

pub proof fn lemma_column(line: Seq<char>, column: u32, k: int)
    ensures
        is_column_of(line, column, k) <==> 0 <= k && index_of_byte(line, column as nat) == Some(
            k as nat,
        ),
{
    if k >= 0 {
        lemma_index_of_byte(line, column as nat, k as nat);
        if k <= line.len() {
            lemma_byte_len_utf8(line.take(k));
        }
    }
}

/// The word at a cursor is the longest run of letters, digits, `_` and `$`
/// around the character behind the cursor, whatever the cursor's place in it.
pub proof fn law_word_at_is_the_run_around_the_cursor(
    text: Seq<char>,
    pos: Position,
    w: Seq<char>,
    a: int,
    k: int,
    b: int,
)
    requires
        pos.line < lines(text).len(),
        is_column_of(lines(text)[pos.line as int], pos.character, k),
        is_word_around(lines(text)[pos.line as int], w, a, k, b),
    ensures
        word_at(text, pos) == Some(w),
{
    let line = lines(text)[pos.line as int];
    lemma_column(line, pos.character, k);
    let before = line.take(k);
    let rest = line.skip(k);
    assert forall|j: int| 0 <= j < b - k implies CharClass::Word.has_char(#[trigger] rest[j]) by {
        law_characters_of_words(line[k + j]);
    }
    if b < line.len() {
        law_characters_of_words(line[b]);
        assert(rest[b - k] == line[b]);
    }
    lemma_run_is(rest, CharClass::Word, (b - k) as nat);
    assert forall|j: int| a <= j < k implies CharClass::Word.has_char(#[trigger] before[j]) by {
        law_characters_of_words(line[j]);
    }
    if a > 0 {
        law_characters_of_words(line[a - 1]);
        assert(before[a - 1] == line[a - 1]);
    }
    lemma_run_back_is(before, CharClass::Word, (k - a) as nat);
}

/// Where a word is found at a cursor, the cursor stands before a character of
/// its line, and the word is the longest run of word characters around it.
pub proof fn law_word_at_stands_around_the_cursor(text: Seq<char>, pos: Position)
    ensures
        word_at(text, pos) matches Some(w) ==> pos.line < lines(text).len() && exists|
            a: int,
            k: int,
            b: int,
        |
            is_column_of(lines(text)[pos.line as int], pos.character, k)
                && #[trigger] is_word_around(lines(text)[pos.line as int], w, a, k, b),
{
    if let Some(w) = word_at(text, pos) {
        let line = lines(text)[pos.line as int];
        let k = index_of_byte(line, pos.character as nat)->Some_0 as int;
        lemma_column(line, pos.character, k);
        let before = line.take(k);
        let rest = line.skip(k);
        lemma_run(rest, CharClass::Word);
        lemma_run_back(before, CharClass::Word);
        let a = k - run_back(before, CharClass::Word);
        let b = k + run(rest, CharClass::Word);
        assert forall|j: int| a <= j < b implies in_word(#[trigger] line[j]) by {
            law_characters_of_words(line[j]);
            if j < k {
                assert(before[j] == line[j]);
            } else {
                assert(rest[j - k] == line[j]);
            }
        }
        if a > 0 {
            law_characters_of_words(line[a - 1]);
            assert(before[a - 1] == line[a - 1]);
        }
        if b < line.len() {
            law_characters_of_words(line[b]);
            assert(rest[b - k] == line[b]);
        }
        assert(is_word_around(lines(text)[pos.line as int], w, a, k, b));
    }
}

/// The line of a cursor, or nothing where the text has no such line.
pub open spec fn cursor_line(text: Seq<char>, pos: Position) -> Seq<char> {
    if pos.line < lines(text).len() {
        lines(text)[pos.line as int]
    } else {
        Seq::empty()
    }
}

/// Whether the cursor stands before character `k` of a line, or behind the
/// line's end, which counts as the end.
pub open spec fn is_clamped_column_of(line: Seq<char>, column: u32, k: int) -> bool {
    is_column_of(line, column, k) || (k == line.len() && encode_utf8(line).len() < column)
}

/// Whether `p` is the longest run of name characters that ends before character
/// `k` of a line, and starts at character `a`.
pub open spec fn is_name_before(line: Seq<char>, p: Seq<char>, a: int, k: int) -> bool {
    &&& 0 <= a <= k <= line.len()
    &&& p == line.subrange(a, k)
    &&& forall|j: int| a <= j < k ==> in_name(#[trigger] line[j])
    &&& a > 0 ==> !in_name(line[a - 1])
}

proof fn lemma_clamped_column(text: Seq<char>, pos: Position, k: int)
    ensures
        is_clamped_column_of(cursor_line(text, pos), pos.character, k) <==> 0 <= k
            && index_of_byte(
            line_at(text, pos),
            column_in(line_at(text, pos), pos),
        ) == Some(k as nat),
{
    let line = line_at(text, pos);
    assert(line == cursor_line(text, pos));
    lemma_byte_len_utf8(line);
    lemma_column(line, pos.character, k);
    assert(line.take(line.len() as int) =~= line);
    lemma_index_of_byte(line, byte_len(line), line.len());
    if 0 <= k <= line.len() {
        lemma_byte_len_prefix(line, k, k);
        lemma_byte_len_utf8(line.take(k));
    }
}

/// The prefix before a cursor is the longest run of letters, digits and `_`
/// that ends at the cursor, or at the line's end if the cursor is behind it.
pub proof fn law_word_prefix_is_the_run_before_the_cursor(
    text: Seq<char>,
    pos: Position,
    p: Seq<char>,
    a: int,
    k: int,
)
    requires
        is_clamped_column_of(cursor_line(text, pos), pos.character, k),
        is_name_before(cursor_line(text, pos), p, a, k),
    ensures
        word_prefix(text, pos) == p,
        has_word_prefix(text, pos) <==> (a > 0 ==> (cursor_line(text, pos)[a - 1] as u32) < 0x80),
{
    let line = line_at(text, pos);
    assert(line == cursor_line(text, pos));
    lemma_clamped_column(text, pos, k);
    let before = line.take(k);
    assert(before_cursor(text, pos) == Some(before));
    assert forall|j: int| a <= j < k implies CharClass::Name.has_char(#[trigger] before[j]) by {
        law_characters_of_words(line[j]);
    }
    if a > 0 {
        law_characters_of_words(line[a - 1]);
        assert(before[a - 1] == line[a - 1]);
    }
    lemma_run_back_is(before, CharClass::Name, (k - a) as nat);
    assert(before.skip(a) =~= p);
}

/// A cursor within a character has no prefix before it.
pub proof fn law_no_word_prefix_within_a_character(text: Seq<char>, pos: Position)
    requires
        forall|k: int| !is_clamped_column_of(cursor_line(text, pos), pos.character, k),
    ensures
        !has_word_prefix(text, pos),
{
    let line = line_at(text, pos);
    match index_of_byte(line, column_in(line, pos)) {
        Some(k) => {
            lemma_clamped_column(text, pos, k as int);
        },
        None => {},
    }
}

/// The byte offset of a cursor counts the bytes of the text before it. A column
/// that the line does not have stands for its last character, if it has any. No
/// other line has an offset than those of the text.
pub proof fn law_byte_offset_counts_the_bytes_before(text: Seq<char>, pos: Position, k: int)
    ensures
        pos.line >= lines(text).len() ==> byte_offset(text, pos) is None,
        pos.line < lines(text).len() && is_column_of(lines(text)[pos.line as int], pos.character, k)
            ==> byte_offset(text, pos) == Some(
            encode_utf8(text.take(line_start(text, pos.line as nat) + k)).len(),
        ),
        pos.line < lines(text).len() && (forall|j: int|
            !is_column_of(lines(text)[pos.line as int], pos.character, j)) ==> byte_offset(text, pos)
            == Some(
            encode_utf8(
                text.take(
                    line_start(text, pos.line as nat) + (if lines(text)[pos.line as int].len() > 0 {
                        lines(text)[pos.line as int].len() - 1
                    } else {
                        0int
                    }),
                ),
            ).len(),
        ),
{
    if pos.line < lines(text).len() {
        let line = lines(text)[pos.line as int];
        lemma_column(line, pos.character, k);
        if let Some(j) = index_of_byte(line, pos.character as nat) {
            lemma_column(line, pos.character, j as int);
        }
        lemma_byte_len_utf8(text.take(cursor_index(text, pos)->Some_0 as int));
    }
}

} // verus!
