//! What the answers of the server guarantee.

use crate::analysis::{diagnostics_of, lemma_symbols_uri, outside_document, symbols_of, Analysis};
use crate::backend::BackendView;
use crate::completion::BindingView;
use crate::cursor::word_at;
use crate::documents::{text_of, DocumentView};
use crate::protocol::{
    DocumentSymbolView, LocationView, Position, Range, SymbolInformationView, TextDocumentEditView,
    TextEditView,
};
use crate::queries::{
    cursor_in, definition_edits, document_references, first_binding, first_other_def, highlights,
    is_defined, is_found, locations_except, no_edit, occurrences, outline, outline_entry,
    references, search, search_hit, starts_at,
};
use crate::rename::{
    is_addressable, is_whole_word_at, is_word, law_every_edit_is_a_whole_word,
    law_every_whole_word_is_renamed, occurs_at, rename_edits, replacement,
};
use crate::strings::{all_ascii, lowercase};
use crate::symbols::SymbolDefView;
use crate::text::{
    index_of_byte, lemma_ascii_columns, lemma_index_of_byte, lemma_run, lemma_run_back,
    lemma_run_back_is, lemma_run_is, lines, run_back, CharClass,
};
use crate::uri::document_url;
use vstd::prelude::*;

verus! {

// ---------------------------------------------------------------------
// Occurrences
// ---------------------------------------------------------------------

/// The word at a cursor has at least one character, and word characters only.
pub proof fn law_word_at_is_a_word(text: Seq<char>, pos: Position)
    ensures
        word_at(text, pos) matches Some(word) ==> word.len() > 0 && is_word(word),
{
    if let Some(word) = word_at(text, pos) {
        let line = lines(text)[pos.line as int];
        let k = index_of_byte(line, pos.character as nat)->Some_0;
        lemma_index_of_byte(line, pos.character as nat, k);
        let before = line.take(k as int);
        let rest = line.skip(k as int);
        lemma_run_back(before, CharClass::Word);
        lemma_run(rest, CharClass::Word);
        let m = run_back(before, CharClass::Word);
        assert forall|i: int| 0 <= i < word.len() implies CharClass::Word.has_char(
            #[trigger] word[i],
        ) by {
            if i < m {
                assert(word[i] == before[k - m + i]);
            } else {
                assert(word[i] == rest[i - m]);
            }
        }
    }
}

/// Whether a name stands in a text at a range, as a whole word.
pub open spec fn is_occurrence(text: Seq<char>, name: Seq<char>, range: Range) -> bool {
    exists|number: int, i: int|
        0 <= number < lines(text).len() && #[trigger] is_whole_word_at(
            lines(text)[number],
            name,
            i,
        ) && range == replacement(number, i, name.len(), name).range
}

/// Whether one of some edits is that of a range.
pub open spec fn has_range(edits: Seq<TextEditView>, range: Range) -> bool {
    exists|k: int| 0 <= k < edits.len() && (#[trigger] edits[k]).range == range
}

/// The occurrences of a word in a text are all its whole-word occurrences.
proof fn lemma_occurrences(text: Seq<char>, name: Seq<char>, range: Range)
    requires
        is_word(name),
    ensures
        has_range(occurrences(text, name), range) <==> is_occurrence(text, name, range),
{
    let all = occurrences(text, name);
    if has_range(all, range) {
        let k = choose|k: int| 0 <= k < all.len() && (#[trigger] all[k]).range == range;
        assert(all.contains(all[k]));
        law_every_edit_is_a_whole_word(text, name, name, all[k]);
    }
    if is_occurrence(text, name, range) {
        let (number, i) = choose|number: int, i: int|
            0 <= number < lines(text).len() && #[trigger] is_whole_word_at(
                lines(text)[number],
                name,
                i,
            ) && range == replacement(number, i, name.len(), name).range;
        law_every_whole_word_is_renamed(text, name, name, number, i);
        let edit = replacement(number, i, name.len(), name);
        let k = choose|k: int| 0 <= k < all.len() && all[k] == edit;
        assert(all[k].range == range);
    }
}

/// The highlights at a cursor are the whole-word occurrences of the word there
/// in its document, no more and no less.
pub proof fn law_highlights_are_the_occurrences(
    v: BackendView,
    uri: Seq<char>,
    pos: Position,
    range: Range,
)
    ensures
        (exists|k: int|
            0 <= k < v.highlights(uri, pos).len() && (#[trigger] v.highlights(uri, pos)[k]).range
                == range) <==> (v.text_of(uri) matches Some(text) && v.word_at(
            uri,
            pos,
        ) matches Some(word) && is_occurrence(text, word, range)),
{
    if let Some(text) = v.text_of(uri) {
        law_word_at_is_a_word(text, pos);
        if let Some(word) = v.word_at(uri, pos) {
            let all = occurrences(text, word);
            let marks = highlights(text, word);
            lemma_occurrences(text, word, range);
            if has_range(all, range) {
                let k = choose|k: int| 0 <= k < all.len() && (#[trigger] all[k]).range == range;
                assert(marks[k].range == range);
            }
            if exists|k: int| 0 <= k < marks.len() && (#[trigger] marks[k]).range == range {
                let k = choose|k: int| 0 <= k < marks.len() && (#[trigger] marks[k]).range == range;
                assert(all[k].range == range);
            }
        }
    }
}

/// In a text of ASCII characters, the word at a cursor is one of its own
/// occurrences: the cursor stands in it.
pub proof fn law_word_at_occurs_at_the_cursor(text: Seq<char>, pos: Position)
    requires
        all_ascii(text),
        word_at(text, pos) is Some,
    ensures
        exists|range: Range|
            range.start.line == pos.line && range.start.character <= pos.character
                < range.start.character + word_at(text, pos)->Some_0.len()
                && #[trigger] is_occurrence(text, word_at(text, pos)->Some_0, range),
{
    let word = word_at(text, pos)->Some_0;
    let line = lines(text)[pos.line as int];
    let k = index_of_byte(line, pos.character as nat)->Some_0;
    lemma_index_of_byte(line, pos.character as nat, k);
    lemma_ascii_columns(text, pos.line as nat);
    let before = line.take(k as int);
    let rest = line.skip(k as int);
    lemma_run_back(before, CharClass::Word);
    lemma_run(rest, CharClass::Word);
    let i = k - run_back(before, CharClass::Word);
    assert(line.subrange(i, i + word.len()) == word);
    if i > 0 {
        assert(before[i - 1] == line[i - 1]);
    }
    if i + word.len() < line.len() {
        assert(rest[i + word.len() - k] == line[i + word.len()]);
    }
    assert(is_whole_word_at(lines(text)[pos.line as int], word, i));
    assert(is_occurrence(text, word, replacement(pos.line as int, i, word.len(), word).range));
}

/// In a text of ASCII characters, the word at the start of an edit of a rename
/// is the renamed word.
pub proof fn law_word_at_an_edit_is_the_renamed_word(
    text: Seq<char>,
    name: Seq<char>,
    new_name: Seq<char>,
    edit: TextEditView,
)
    requires
        all_ascii(text),
        is_addressable(text),
        is_word(name),
        name.len() > 0,
        rename_edits(text, name, new_name).contains(edit),
    ensures
        word_at(text, edit.range.start) == Some(name),
{
    law_every_edit_is_a_whole_word(text, name, new_name, edit);
    let (number, i) = choose|number: int, i: int|
        0 <= number < lines(text).len() && #[trigger] is_whole_word_at(
            lines(text)[number],
            name,
            i,
        ) && edit == replacement(number, i, name.len(), new_name);
    let line = lines(text)[number];
    lemma_ascii_columns(text, number as nat);
    let before = line.take(i);
    let rest = line.skip(i);
    assert forall|k: int| 0 <= k < name.len() implies CharClass::Word.has_char(
        #[trigger] rest[k],
    ) by {
        assert(rest[k] == line.subrange(i, i + name.len())[k]);
        assert(CharClass::Word.has_char(name[k]));
    }
    if name.len() < rest.len() {
        assert(rest[name.len() as int] == line[i + name.len()]);
    }
    lemma_run_is(rest, CharClass::Word, name.len());
    if i > 0 {
        assert(before[i - 1] == line[i - 1]);
    }
    lemma_run_back_is(before, CharClass::Word, 0);
    assert(index_of_byte(line, i as nat) == Some(i as nat));
}

// ---------------------------------------------------------------------
// References
// ---------------------------------------------------------------------

/// Whether a location is a reference to a name in a document, where the cursor
/// stands at `pos` of the document `uri`.
pub open spec fn is_reference(
    doc: DocumentView,
    name: Seq<char>,
    uri: Seq<char>,
    pos: Position,
    location: LocationView,
) -> bool {
    &&& document_url(doc.uri) == Some(location.uri)
    &&& is_occurrence(doc.text, name, location.range)
    &&& !(doc.uri == uri && location.range.start == pos)
}

proof fn lemma_locations_except(
    url: Seq<char>,
    all: Seq<TextEditView>,
    except: Option<Position>,
    location: LocationView,
)
    ensures
        locations_except(url, all, except).contains(location) <==> location.uri == url && has_range(
            all,
            location.range,
        ) && except != Some(location.range.start),
    decreases all.len(),
{
    if all.len() > 0 {
        let init = all.drop_last();
        let before = locations_except(url, init, except);
        let after = locations_except(url, all, except);
        lemma_locations_except(url, init, except, location);
        if after.contains(location) {
            let k = choose|k: int| 0 <= k < after.len() && after[k] == location;
            if k < before.len() {
                assert(before[k] == location);
                let m = choose|m: int|
                    0 <= m < init.len() && (#[trigger] init[m]).range == location.range;
                assert(all[m].range == location.range);
            } else {
                assert(all[all.len() - 1].range == location.range);
            }
        }
        if location.uri == url && has_range(all, location.range) && except != Some(
            location.range.start,
        ) {
            let m = choose|m: int|
                0 <= m < all.len() && (#[trigger] all[m]).range == location.range;
            if m < init.len() {
                assert(init[m].range == location.range);
                let k = choose|k: int| 0 <= k < before.len() && before[k] == location;
                assert(after[k] == location);
            } else {
                assert(after[before.len() as int] == location);
            }
        }
    }
}

proof fn lemma_references(
    docs: Seq<DocumentView>,
    name: Seq<char>,
    uri: Seq<char>,
    pos: Position,
    location: LocationView,
)
    requires
        is_word(name),
    ensures
        references(docs, name, uri, pos).contains(location) <==> exists|d: int|
            0 <= d < docs.len() && is_reference(#[trigger] docs[d], name, uri, pos, location),
    decreases docs.len(),
{
    if docs.len() > 0 {
        let init = docs.drop_last();
        let doc = docs.last();
        let except = cursor_in(doc.uri, uri, pos);
        let before = references(init, name, uri, pos);
        let here = document_references(document_url(doc.uri), doc.text, name, except);
        let after = references(docs, name, uri, pos);
        lemma_references(init, name, uri, pos, location);
        lemma_occurrences(doc.text, name, location.range);
        if let Some(url) = document_url(doc.uri) {
            lemma_locations_except(url, occurrences(doc.text, name), except, location);
        }
        assert(here.contains(location) <==> is_reference(doc, name, uri, pos, location));
        if after.contains(location) {
            let k = choose|k: int| 0 <= k < after.len() && after[k] == location;
            if k < before.len() {
                assert(before[k] == location);
                let d = choose|d: int|
                    0 <= d < init.len() && is_reference(
                        #[trigger] init[d],
                        name,
                        uri,
                        pos,
                        location,
                    );
                assert(is_reference(docs[d], name, uri, pos, location));
            } else {
                assert(here[k - before.len()] == location);
                assert(is_reference(docs[docs.len() - 1], name, uri, pos, location));
            }
        }
        if exists|d: int|
            0 <= d < docs.len() && is_reference(#[trigger] docs[d], name, uri, pos, location) {
            let d = choose|d: int|
                0 <= d < docs.len() && is_reference(#[trigger] docs[d], name, uri, pos, location);
            if d < init.len() {
                assert(is_reference(init[d], name, uri, pos, location));
                let k = choose|k: int| 0 <= k < before.len() && before[k] == location;
                assert(after[k] == location);
            } else {
                let k = choose|k: int| 0 <= k < here.len() && here[k] == location;
                assert(after[before.len() + k] == location);
            }
        }
    }
}

/// The references to the word at a cursor are its whole-word occurrences in all
/// open documents that have a URL, but for one that starts at the cursor.
pub proof fn law_references_are_the_other_occurrences(
    v: BackendView,
    uri: Seq<char>,
    pos: Position,
    location: LocationView,
)
    ensures
        v.references(uri, pos).contains(location) <==> (v.word_at(uri, pos) matches Some(word) && (
        exists|d: int|
            0 <= d < v.documents.len() && is_reference(
                #[trigger] v.documents[d],
                word,
                uri,
                pos,
                location,
            ))),
{
    if let Some(word) = v.word_at(uri, pos) {
        law_word_at_is_a_word(v.text_of(uri)->Some_0, pos);
        lemma_references(v.documents, word, uri, pos, location);
    }
}

// ---------------------------------------------------------------------
// Definitions
// ---------------------------------------------------------------------

/// Whether a definition is one of a name and does not start at the cursor.
pub open spec fn is_other_def(
    d: SymbolDefView,
    name: Seq<char>,
    uri: Seq<char>,
    pos: Position,
) -> bool {
    d.name == name && !starts_at(d, uri, pos)
}

proof fn lemma_first_other_def(
    defs: Seq<SymbolDefView>,
    name: Seq<char>,
    uri: Seq<char>,
    pos: Position,
)
    ensures
        match first_other_def(defs, name, uri, pos) {
            Some(d) => is_other_def(d, name, uri, pos) && defs.contains(d),
            None => forall|i: int|
                0 <= i < defs.len() ==> !is_other_def(#[trigger] defs[i], name, uri, pos),
        },
    decreases defs.len(),
{
    if defs.len() > 0 && !is_other_def(defs[0], name, uri, pos) {
        let rest = defs.drop_first();
        lemma_first_other_def(rest, name, uri, pos);
        match first_other_def(defs, name, uri, pos) {
            Some(d) => {
                let k = choose|k: int| 0 <= k < rest.len() && rest[k] == d;
                assert(defs[k + 1] == d);
            },
            None => {
                assert forall|i: int| 0 <= i < defs.len() implies !is_other_def(
                    #[trigger] defs[i],
                    name,
                    uri,
                    pos,
                ) by {
                    if i > 0 {
                        assert(defs[i] == rest[i - 1]);
                    }
                }
            },
        }
    }
}

/// A definition that is found defines the word at the cursor, and it does not
/// start at the cursor. If all documents with symbols have a URL, a definition
/// is found whenever there is such a one.
pub proof fn law_definition(v: BackendView, uri: Seq<char>, pos: Position)
    ensures
        v.definition(uri, pos) matches Some(location) ==> v.word_at(uri, pos) matches Some(word)
            && exists|i: int|
            0 <= i < v.symbol_defs.len() && is_other_def(
                #[trigger] v.symbol_defs[i],
                word,
                uri,
                pos,
            ) && document_url(v.symbol_defs[i].uri) == Some(location.uri)
                && v.symbol_defs[i].range == location.range,
        v.word_at(uri, pos) matches Some(word) ==> v.definition(uri, pos) is None ==> forall|i: int|
            0 <= i < v.symbol_defs.len() && is_other_def(
                #[trigger] v.symbol_defs[i],
                word,
                uri,
                pos,
            ) ==> exists|j: int|
                0 <= j <= i && is_other_def(#[trigger] v.symbol_defs[j], word, uri, pos)
                    && document_url(v.symbol_defs[j].uri) is None,
{
    if let Some(word) = v.word_at(uri, pos) {
        lemma_first_other_def(v.symbol_defs, word, uri, pos);
        lemma_first_other_def_is_first(v.symbol_defs, word, uri, pos);
        if let Some(d) = first_other_def(v.symbol_defs, word, uri, pos) {
            let k = choose|k: int| 0 <= k < v.symbol_defs.len() && v.symbol_defs[k] == d;
            assert(is_other_def(v.symbol_defs[k], word, uri, pos));
        }
    }
}

proof fn lemma_first_other_def_is_first(
    defs: Seq<SymbolDefView>,
    name: Seq<char>,
    uri: Seq<char>,
    pos: Position,
)
    ensures
        first_other_def(defs, name, uri, pos) matches Some(d) ==> forall|i: int|
            0 <= i < defs.len() && is_other_def(#[trigger] defs[i], name, uri, pos)
                ==> exists|j: int|
                0 <= j <= i && #[trigger] defs[j] == d && is_other_def(defs[j], name, uri, pos),
    decreases defs.len(),
{
    if defs.len() > 0 {
        if is_other_def(defs[0], name, uri, pos) {
            assert(defs[0] == first_other_def(defs, name, uri, pos)->Some_0);
        } else {
            let rest = defs.drop_first();
            lemma_first_other_def_is_first(rest, name, uri, pos);
            if let Some(d) = first_other_def(defs, name, uri, pos) {
                assert forall|i: int|
                    0 <= i < defs.len() && is_other_def(
                        #[trigger] defs[i],
                        name,
                        uri,
                        pos,
                    ) implies exists|j: int|
                    0 <= j <= i && #[trigger] defs[j] == d && is_other_def(
                        defs[j],
                        name,
                        uri,
                        pos,
                    ) by {
                    assert(defs[i] == rest[i - 1]);
                    let m = choose|m: int|
                        0 <= m <= i - 1 && #[trigger] rest[m] == d && is_other_def(
                            rest[m],
                            name,
                            uri,
                            pos,
                        );
                    assert(defs[m + 1] == d);
                }
            }
        }
    }
}

/// A hover text is shown for every word that has a help text, that the
/// environment binds or that is defined, and for no other.
pub proof fn law_hover_is_shown_for_known_words(
    v: BackendView,
    uri: Seq<char>,
    pos: Position,
    help: Option<Seq<char>>,
    bindings: Seq<BindingView>,
)
    ensures
        v.hover(uri, pos, help, bindings) is Some <==> (v.word_at(uri, pos) matches Some(word) && (
        help is Some || first_binding(bindings, word) is Some || is_defined(v.symbol_defs, word))),
{
}

// ---------------------------------------------------------------------
// Outlines and searches
// ---------------------------------------------------------------------

/// The outline of a document lists the definitions that stand in it, no more
/// and no less.
pub proof fn law_outline_lists_the_definitions(
    defs: Seq<SymbolDefView>,
    uri: Seq<char>,
    entry: DocumentSymbolView,
)
    ensures
        outline(defs, uri).contains(entry) <==> exists|i: int|
            0 <= i < defs.len() && (#[trigger] defs[i]).uri == uri && outline_entry(defs[i])
                == entry,
    decreases defs.len(),
{
    if defs.len() > 0 {
        let init = defs.drop_last();
        let before = outline(init, uri);
        let after = outline(defs, uri);
        law_outline_lists_the_definitions(init, uri, entry);
        if after.contains(entry) {
            let k = choose|k: int| 0 <= k < after.len() && after[k] == entry;
            if k < before.len() {
                assert(before[k] == entry);
                let i = choose|i: int|
                    0 <= i < init.len() && (#[trigger] init[i]).uri == uri && outline_entry(init[i])
                        == entry;
                assert(defs[i].uri == uri);
            } else {
                assert(defs[defs.len() - 1].uri == uri);
            }
        }
        if exists|i: int|
            0 <= i < defs.len() && (#[trigger] defs[i]).uri == uri && outline_entry(defs[i])
                == entry {
            let i = choose|i: int|
                0 <= i < defs.len() && (#[trigger] defs[i]).uri == uri && outline_entry(defs[i])
                    == entry;
            if i < init.len() {
                assert(init[i].uri == uri);
                let k = choose|k: int| 0 <= k < before.len() && before[k] == entry;
                assert(after[k] == entry);
            } else {
                assert(after[before.len() as int] == entry);
            }
        }
    }
}

proof fn lemma_outline_add(a: Seq<SymbolDefView>, b: Seq<SymbolDefView>, uri: Seq<char>)
    ensures
        outline(a + b, uri) == outline(a, uri) + outline(b, uri),
    decreases b.len(),
{
    if b.len() == 0 {
        assert(a + b =~= a);
        assert(outline(a, uri) + outline(b, uri) =~= outline(a, uri));
    } else {
        lemma_outline_add(a, b.drop_last(), uri);
        assert((a + b).drop_last() =~= a + b.drop_last());
        assert(outline(a + b, uri) =~= outline(a, uri) + outline(b, uri));
    }
}

proof fn lemma_outline_outside(defs: Seq<SymbolDefView>, uri: Seq<char>, other: Seq<char>)
    ensures
        outline(outside_document(defs, uri), other) == (if other == uri {
            Seq::<DocumentSymbolView>::empty()
        } else {
            outline(defs, other)
        }),
    decreases defs.len(),
{
    if defs.len() > 0 {
        lemma_outline_outside(defs.drop_last(), uri, other);
        let before = outside_document(defs.drop_last(), uri);
        if defs.last().uri != uri {
            assert(outside_document(defs, uri).drop_last() =~= before);
        }
    }
}

proof fn lemma_outline_elsewhere(defs: Seq<SymbolDefView>, uri: Seq<char>, other: Seq<char>)
    requires
        other != uri,
        forall|i: int| 0 <= i < defs.len() ==> (#[trigger] defs[i]).uri == uri,
    ensures
        outline(defs, other) == Seq::<DocumentSymbolView>::empty(),
    decreases defs.len(),
{
    if defs.len() > 0 {
        let init = defs.drop_last();
        assert(forall|i: int| 0 <= i < init.len() ==> #[trigger] init[i] == defs[i]);
        lemma_outline_elsewhere(init, uri, other);
        assert(defs[defs.len() - 1] == defs.last());
    }
}

/// After a document has been opened or changed, its outline is that of its new
/// program, and the outline of every other document stays as it was.
pub proof fn law_opened_outline(
    v: BackendView,
    uri: Seq<char>,
    text: Seq<char>,
    analysis: Analysis,
    other: Seq<char>,
)
    ensures
        outline(v.opened(uri, text, analysis).symbol_defs, uri) == outline(
            symbols_of(analysis, uri),
            uri,
        ),
        other != uri ==> outline(v.opened(uri, text, analysis).symbol_defs, other) == outline(
            v.symbol_defs,
            other,
        ),
{
    let kept = outside_document(v.symbol_defs, uri);
    let new = symbols_of(analysis, uri);
    lemma_outline_add(kept, new, uri);
    lemma_outline_outside(v.symbol_defs, uri, uri);
    assert(outline(kept, uri) + outline(new, uri) =~= outline(new, uri));
    if other != uri {
        lemma_symbols_uri(analysis, uri);
        lemma_outline_add(kept, new, other);
        lemma_outline_outside(v.symbol_defs, uri, other);
        lemma_outline_elsewhere(new, uri, other);
        assert(outline(kept, other) + outline(new, other) =~= outline(kept, other));
    }
}

/// A closed document has no outline, and the outline of every other document
/// stays as it was.
pub proof fn law_closed_outline(v: BackendView, uri: Seq<char>, other: Seq<char>)
    ensures
        outline(v.closed(uri).symbol_defs, uri).len() == 0,
        other != uri ==> outline(v.closed(uri).symbol_defs, other) == outline(
            v.symbol_defs,
            other,
        ),
{
    lemma_outline_outside(v.symbol_defs, uri, uri);
    lemma_outline_outside(v.symbol_defs, uri, other);
}

/// A search finds the definitions whose name holds the query, whatever the
/// case of their letters, and whose document has a URL, no more and no less.
pub proof fn law_search_finds_the_definitions(
    defs: Seq<SymbolDefView>,
    query: Seq<char>,
    hit: SymbolInformationView,
)
    ensures
        search(defs, query).contains(hit) <==> exists|i: int|
            0 <= i < defs.len() && is_found((#[trigger] defs[i]).name, query) && search_hit(
                defs[i],
                document_url(defs[i].uri),
            ) == Some(hit),
    decreases defs.len(),
{
    if defs.len() > 0 {
        let init = defs.drop_last();
        let before = search(init, query);
        let after = search(defs, query);
        law_search_finds_the_definitions(init, query, hit);
        if after.contains(hit) {
            let k = choose|k: int| 0 <= k < after.len() && after[k] == hit;
            if k < before.len() {
                assert(before[k] == hit);
                let i = choose|i: int|
                    0 <= i < init.len() && is_found((#[trigger] init[i]).name, query)
                        && search_hit(init[i], document_url(init[i].uri)) == Some(hit);
                assert(is_found(defs[i].name, query));
            } else {
                assert(is_found(defs[defs.len() - 1].name, query));
            }
        }
        if exists|i: int|
            0 <= i < defs.len() && is_found((#[trigger] defs[i]).name, query) && search_hit(
                defs[i],
                document_url(defs[i].uri),
            ) == Some(hit) {
            let i = choose|i: int|
                0 <= i < defs.len() && is_found((#[trigger] defs[i]).name, query) && search_hit(
                    defs[i],
                    document_url(defs[i].uri),
                ) == Some(hit);
            if i < init.len() {
                assert(is_found(init[i].name, query));
                let k = choose|k: int| 0 <= k < before.len() && before[k] == hit;
                assert(after[k] == hit);
            } else {
                assert(after[before.len() as int] == hit);
            }
        }
    }
}

/// An empty query finds every name.
pub proof fn law_empty_query_finds_every_name(name: Seq<char>)
    ensures
        is_found(name, Seq::empty()),
{
    let query = lowercase(Seq::empty());
    assert(all_ascii(Seq::empty()));
    assert(query =~= Seq::<char>::empty());
    assert(lowercase(name).subrange(0, 0) =~= query);
    assert(occurs_at(lowercase(name), query, 0));
}

// ---------------------------------------------------------------------
// Rename
// ---------------------------------------------------------------------

/// A word that is given its own name again is not edited.
pub proof fn law_rename_to_itself_changes_nothing(v: BackendView, uri: Seq<char>, pos: Position)
    ensures
        v.word_at(uri, pos) matches Some(word) ==> v.rename(uri, pos, word) == Some(no_edit()),
{
}

/// A name is defined exactly if there is a definition of it.
pub proof fn law_defined_names_have_a_definition(defs: Seq<SymbolDefView>, name: Seq<char>)
    ensures
        is_defined(defs, name) <==> exists|i: int|
            0 <= i < defs.len() && (#[trigger] defs[i]).name == name,
    decreases defs.len(),
{
    if defs.len() > 0 && defs[0].name != name {
        let rest = defs.drop_first();
        law_defined_names_have_a_definition(rest, name);
        if is_defined(defs, name) {
            let i = choose|i: int| 0 <= i < rest.len() && (#[trigger] rest[i]).name == name;
            assert(defs[i + 1].name == name);
        }
        if exists|i: int| 0 <= i < defs.len() && (#[trigger] defs[i]).name == name {
            let i = choose|i: int| 0 <= i < defs.len() && (#[trigger] defs[i]).name == name;
            assert(rest[i - 1].name == name);
        }
    } else if defs.len() > 0 {
        assert(defs[0].name == name);
    }
}

/// The edits of the document in which a definition stands.
pub open spec fn edit_at(
    docs: Seq<DocumentView>,
    d: SymbolDefView,
    name: Seq<char>,
    new_name: Seq<char>,
) -> TextDocumentEditView {
    TextDocumentEditView {
        uri: document_url(d.uri)->Some_0,
        edits: rename_edits(text_of(docs, d.uri)->Some_0, name, new_name),
    }
}

proof fn lemma_definition_edits(
    docs: Seq<DocumentView>,
    defs: Seq<SymbolDefView>,
    name: Seq<char>,
    new_name: Seq<char>,
)
    ensures
        definition_edits(docs, defs, name, new_name) is Some <==> forall|i: int|
            0 <= i < defs.len() && (#[trigger] defs[i]).name == name ==> text_of(docs, defs[i].uri) is Some
                && document_url(defs[i].uri) is Some,
        definition_edits(docs, defs, name, new_name) matches Some(edits) ==> forall|edit|
            #[trigger] edits.contains(edit) <==> exists|i: int|
                0 <= i < defs.len() && (#[trigger] defs[i]).name == name && edit == edit_at(
                    docs,
                    defs[i],
                    name,
                    new_name,
                ),
    decreases defs.len(),
{
    if defs.len() > 0 {
        let init = defs.drop_last();
        let d = defs.last();
        lemma_definition_edits(docs, init, name, new_name);
        assert(forall|i: int| 0 <= i < init.len() ==> #[trigger] init[i] == defs[i]);
        assert(defs[defs.len() - 1] == d);
        if definition_edits(docs, defs, name, new_name) is Some {
            assert forall|i: int|
                0 <= i < defs.len() && (#[trigger] defs[i]).name == name implies text_of(
                docs,
                defs[i].uri,
            ) is Some && document_url(defs[i].uri) is Some by {
                if i < init.len() {
                    assert(init[i].name == name);
                }
            }
            let edits = definition_edits(docs, defs, name, new_name)->Some_0;
            let before = definition_edits(docs, init, name, new_name)->Some_0;
            assert forall|edit| #[trigger] edits.contains(edit) <==> exists|i: int|
                0 <= i < defs.len() && (#[trigger] defs[i]).name == name && edit == edit_at(
                    docs,
                    defs[i],
                    name,
                    new_name,
                ) by {
                if edits.contains(edit) {
                    let k = choose|k: int| 0 <= k < edits.len() && edits[k] == edit;
                    if k < before.len() {
                        assert(before[k] == edit);
                        assert(before.contains(edit));
                        let i = choose|i: int|
                            0 <= i < init.len() && (#[trigger] init[i]).name == name && edit
                                == edit_at(docs, init[i], name, new_name);
                        assert(defs[i].name == name);
                    } else {
                        assert(defs[defs.len() - 1].name == name);
                    }
                }
                if exists|i: int|
                    0 <= i < defs.len() && (#[trigger] defs[i]).name == name && edit == edit_at(
                        docs,
                        defs[i],
                        name,
                        new_name,
                    ) {
                    let i = choose|i: int|
                        0 <= i < defs.len() && (#[trigger] defs[i]).name == name && edit == edit_at(
                            docs,
                            defs[i],
                            name,
                            new_name,
                        );
                    if i < init.len() {
                        assert(init[i].name == name);
                        assert(before.contains(edit));
                        let k = choose|k: int| 0 <= k < before.len() && before[k] == edit;
                        assert(edits[k] == edit);
                    } else {
                        assert(edits[before.len() as int] == edit);
                    }
                }
            }
        } else {
            if definition_edits(docs, init, name, new_name) is None {
                let i = choose|i: int|
                    0 <= i < init.len() && (#[trigger] init[i]).name == name && !(text_of(
                        docs,
                        init[i].uri,
                    ) is Some && document_url(init[i].uri) is Some);
                assert(defs[i].name == name);
            } else {
                assert(defs[defs.len() - 1].name == name);
            }
        }
    } else {
        assert(!exists|i: int| 0 <= i < defs.len() && (#[trigger] defs[i]).name == name);
    }
}

/// If all open documents have a URL, every word can be renamed.
pub proof fn law_words_can_be_renamed(
    v: BackendView,
    uri: Seq<char>,
    pos: Position,
    new_name: Seq<char>,
)
    requires
        v.is_well_formed(),
        forall|other: Seq<char>|
            v.text_of(other) is Some ==> #[trigger] document_url(other) is Some,
    ensures
        v.rename(uri, pos, new_name) is Some <==> v.word_at(uri, pos) is Some,
{
    if let Some(word) = v.word_at(uri, pos) {
        lemma_definition_edits(v.documents, v.symbol_defs, word, new_name);
        assert forall|i: int|
            0 <= i < v.symbol_defs.len() && (#[trigger] v.symbol_defs[i]).name == word implies text_of(
            v.documents,
            v.symbol_defs[i].uri,
        ) is Some && document_url(v.symbol_defs[i].uri) is Some by {
            assert(v.text_of(v.symbol_defs[i].uri) is Some);
        }
        assert(document_url(uri) is Some);
    }
}

/// How many definitions of a name there are.
pub open spec fn count_defs(defs: Seq<SymbolDefView>, name: Seq<char>) -> nat
    decreases defs.len(),
{
    if defs.len() == 0 {
        0
    } else {
        count_defs(defs.drop_last(), name) + (if defs.last().name == name {
            1nat
        } else {
            0nat
        })
    }
}

proof fn lemma_definition_edits_count(
    docs: Seq<DocumentView>,
    defs: Seq<SymbolDefView>,
    name: Seq<char>,
    new_name: Seq<char>,
)
    ensures
        definition_edits(docs, defs, name, new_name) matches Some(edits) ==> edits.len()
            == count_defs(defs, name),
    decreases defs.len(),
{
    if defs.len() > 0 {
        lemma_definition_edits_count(docs, defs.drop_last(), name, new_name);
    }
}

/// A rename of a defined word edits the documents that define it, no more and
/// no less, each in full and once for each of its definitions.
pub proof fn law_rename_edits_the_defining_documents(
    v: BackendView,
    uri: Seq<char>,
    pos: Position,
    new_name: Seq<char>,
    edit: TextDocumentEditView,
)
    requires
        v.word_at(uri, pos) matches Some(word) && word != new_name && is_defined(
            v.symbol_defs,
            word,
        ),
        v.rename(uri, pos, new_name) is Some,
    ensures
        v.rename(uri, pos, new_name)->Some_0.document_changes matches Some(changes)
            && changes.len() == count_defs(v.symbol_defs, v.word_at(uri, pos)->Some_0) && (
        changes.contains(edit) <==> exists|i: int|
            0 <= i < v.symbol_defs.len() && (#[trigger] v.symbol_defs[i]).name == v.word_at(
                uri,
                pos,
            )->Some_0 && edit == edit_at(
                v.documents,
                v.symbol_defs[i],
                v.word_at(uri, pos)->Some_0,
                new_name,
            )),
{
    let word = v.word_at(uri, pos)->Some_0;
    lemma_definition_edits(v.documents, v.symbol_defs, word, new_name);
    lemma_definition_edits_count(v.documents, v.symbol_defs, word, new_name);
    let changes = v.rename(uri, pos, new_name)->Some_0.document_changes->Some_0;
    assert(changes.contains(edit) <==> exists|i: int|
        0 <= i < v.symbol_defs.len() && (#[trigger] v.symbol_defs[i]).name == word && edit
            == edit_at(v.documents, v.symbol_defs[i], word, new_name));
}

// ---------------------------------------------------------------------
// Diagnostics
// ---------------------------------------------------------------------

/// A text has one diagnostic if it is no program and none if it is one, and
/// what is no program defines no symbols.
pub proof fn law_diagnostics_tell_programs(analysis: Analysis, uri: Seq<char>)
    ensures
        diagnostics_of(analysis).len() == (if analysis is Parsed {
            0nat
        } else {
            1nat
        }),
        analysis !is Parsed ==> symbols_of(analysis, uri).len() == 0,
{
}

} // verus!
