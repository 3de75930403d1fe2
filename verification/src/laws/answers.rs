//! What the server answers about symbols.

use crate::analysis::outside_document;
use crate::backend::BackendView;
use crate::completion::BindingView;
use crate::documents::{text_of, DocumentView};
use crate::laws::sequences::{lemma_pick_last, lemma_pick_nothing};
use crate::protocol::{
    DocumentHighlight, DocumentHighlightKind, DocumentSymbolView, HoverView, LocationView,
    MarkupKind, Position, SymbolInformationView, TextDocumentEditView, TextEditView,
    WorkspaceEditView,
};
use crate::queries::{
    cursor_in, definition_edits, definition_of, document_references, first_binding, first_def,
    first_other_def, has_part, highlights, hover_of, is_defined, is_found, locations_except,
    occurrences, outline, references, rename_of, search, single_rename,
};
use crate::rename::{occurs_at, rename_edits};
use crate::strings::lowercase;
use crate::symbols::SymbolDefView;
use crate::uri::{document_url, url_serialization};
use vstd::prelude::*;

verus! {

// ---------------------------------------------------------------------
// Definitions
// ---------------------------------------------------------------------

/// Whether a definition is one of `word` that stands in another document than
/// the cursor, or on another line, or at another character of its line.
pub open spec fn is_elsewhere(
    d: SymbolDefView,
    word: Seq<char>,
    uri: Seq<char>,
    pos: Position,
) -> bool {
    d.name == word && (d.uri != uri || d.range.start.line != pos.line || d.range.start.character
        != pos.character)
}

/// The definition of the word at a cursor is the first of its definitions that
/// stands in another document, or that starts on another line or at another
/// character than the cursor.
pub proof fn law_definition_is_the_first_elsewhere(
    v: BackendView,
    uri: Seq<char>,
    pos: Position,
    i: int,
)
    requires
        v.word_at(uri, pos) is Some,
        0 <= i < v.symbol_defs.len(),
        is_elsewhere(v.symbol_defs[i], v.word_at(uri, pos)->Some_0, uri, pos),
        forall|j: int|
            0 <= j < i ==> !is_elsewhere(
                #[trigger] v.symbol_defs[j],
                v.word_at(uri, pos)->Some_0,
                uri,
                pos,
            ),
    ensures
        match document_url(v.symbol_defs[i].uri) {
            Some(url) => v.definition(uri, pos) == Some(
                LocationView { uri: url, range: v.symbol_defs[i].range },
            ),
            None => v.definition(uri, pos) is None,
        },
{
    lemma_first_elsewhere(v.symbol_defs, v.word_at(uri, pos)->Some_0, uri, pos, i);
}

proof fn lemma_first_elsewhere(
    defs: Seq<SymbolDefView>,
    word: Seq<char>,
    uri: Seq<char>,
    pos: Position,
    i: int,
)
    requires
        0 <= i <= defs.len(),
        i < defs.len() ==> is_elsewhere(defs[i], word, uri, pos),
        forall|j: int| 0 <= j < i ==> !is_elsewhere(#[trigger] defs[j], word, uri, pos),
    ensures
        first_other_def(defs, word, uri, pos) == (if i < defs.len() {
            Some(defs[i])
        } else {
            None
        }),
    decreases i,
{
    if i > 0 {
        let rest = defs.drop_first();
        assert(!is_elsewhere(defs[0], word, uri, pos));
        assert forall|j: int| 0 <= j < i - 1 implies !is_elsewhere(
            #[trigger] rest[j],
            word,
            uri,
            pos,
        ) by {
            assert(rest[j] == defs[j + 1]);
        }
        lemma_first_elsewhere(rest, word, uri, pos, i - 1);
    }
}

/// Without a word at the cursor, or with no definition of it elsewhere, there is
/// no definition to go to.
pub proof fn law_no_definition_elsewhere(v: BackendView, uri: Seq<char>, pos: Position)
    ensures
        v.word_at(uri, pos) is None ==> v.definition(uri, pos) is None,
        v.word_at(uri, pos) matches Some(word) ==> (forall|j: int|
            0 <= j < v.symbol_defs.len() ==> !is_elsewhere(
                #[trigger] v.symbol_defs[j],
                word,
                uri,
                pos,
            )) ==> v.definition(uri, pos) is None,
{
    if let Some(word) = v.word_at(uri, pos) {
        if forall|j: int|
            0 <= j < v.symbol_defs.len() ==> !is_elsewhere(
                #[trigger] v.symbol_defs[j],
                word,
                uri,
                pos,
            ) {
            lemma_first_elsewhere(v.symbol_defs, word, uri, pos, v.symbol_defs.len() as int);
        }
    }
}

/// The URL of a document is what its URI parses to, and else what it parses to
/// with `file://` in front.
pub proof fn law_document_urls(uri: Seq<char>)
    ensures
        url_serialization(uri) is Some ==> document_url(uri) == url_serialization(uri),
        url_serialization(uri) is None ==> document_url(uri) == url_serialization(
            seq!['f', 'i', 'l', 'e', ':', '/', '/'] + uri,
        ),
{
    reveal_strlit("file://");
    assert("file://"@ =~= seq!['f', 'i', 'l', 'e', ':', '/', '/']);
}

// ---------------------------------------------------------------------
// Hover
// ---------------------------------------------------------------------

/// A text in a Markdown block of the language `syma`.
pub open spec fn fenced(s: Seq<char>) -> HoverView {
    HoverView {
        kind: MarkupKind::Markdown,
        value: seq!['`', '`', '`', 's', 'y', 'm', 'a', '\n'] + s + seq!['\n', '`', '`', '`'],
    }
}

proof fn lemma_fences(s: Seq<char>)
    ensures
        crate::queries::code_block(s) == fenced(s),
{
    reveal_strlit("```syma\n");
    reveal_strlit("\n```");
    assert("```syma\n"@ =~= seq!['`', '`', '`', 's', 'y', 'm', 'a', '\n']);
    assert("\n```"@ =~= seq!['\n', '`', '`', '`']);
}

/// The help text of a word is shown as it is, whatever else is known of the
/// word. Without a word nothing is shown.
pub proof fn law_hover_shows_help_first(
    v: BackendView,
    uri: Seq<char>,
    pos: Position,
    help: Seq<char>,
    bindings: Seq<BindingView>,
)
    ensures
        v.word_at(uri, pos) is Some ==> v.hover(uri, pos, Some(help), bindings) == Some(
            fenced(help),
        ),
        v.word_at(uri, pos) is None ==> v.hover(uri, pos, Some(help), bindings) is None && v.hover(
            uri,
            pos,
            None,
            bindings,
        ) is None,
{
    lemma_fences(help);
}

/// Without a help text, the first binding of the word is shown with its value,
/// whatever the definitions say.
pub proof fn law_hover_shows_bindings_next(
    v: BackendView,
    uri: Seq<char>,
    pos: Position,
    bindings: Seq<BindingView>,
    i: int,
)
    requires
        v.word_at(uri, pos) is Some,
        0 <= i < bindings.len(),
        bindings[i].name == v.word_at(uri, pos)->Some_0,
        forall|j: int|
            0 <= j < i ==> (#[trigger] bindings[j]).name != v.word_at(uri, pos)->Some_0,
    ensures
        v.hover(uri, pos, None, bindings) == Some(
            fenced(v.word_at(uri, pos)->Some_0 + seq![' ', '=', ' '] + bindings[i].value),
        ),
{
    lemma_first_binding(bindings, v.word_at(uri, pos)->Some_0, i);
    reveal_strlit(" = ");
    assert(" = "@ =~= seq![' ', '=', ' ']);
    lemma_fences(v.word_at(uri, pos)->Some_0 + seq![' ', '=', ' '] + bindings[i].value);
}

proof fn lemma_first_binding(bindings: Seq<BindingView>, name: Seq<char>, i: int)
    requires
        0 <= i <= bindings.len(),
        i < bindings.len() ==> bindings[i].name == name,
        forall|j: int| 0 <= j < i ==> (#[trigger] bindings[j]).name != name,
    ensures
        first_binding(bindings, name) == (if i < bindings.len() {
            Some(bindings[i])
        } else {
            None
        }),
    decreases i,
{
    if i > 0 {
        let rest = bindings.drop_first();
        assert(bindings[0].name != name);
        assert forall|j: int| 0 <= j < i - 1 implies (#[trigger] rest[j]).name != name by {
            assert(rest[j] == bindings[j + 1]);
        }
        lemma_first_binding(rest, name, i - 1);
    }
}

proof fn lemma_first_def(defs: Seq<SymbolDefView>, name: Seq<char>, i: int)
    requires
        0 <= i <= defs.len(),
        i < defs.len() ==> defs[i].name == name,
        forall|j: int| 0 <= j < i ==> (#[trigger] defs[j]).name != name,
    ensures
        first_def(defs, name) == (if i < defs.len() {
            Some(defs[i])
        } else {
            None
        }),
    decreases i,
{
    if i > 0 {
        let rest = defs.drop_first();
        assert(defs[0].name != name);
        assert forall|j: int| 0 <= j < i - 1 implies (#[trigger] rest[j]).name != name by {
            assert(rest[j] == defs[j + 1]);
        }
        lemma_first_def(rest, name, i - 1);
    }
}

/// The detail of a definition and, behind a bar, its signature if it has one.
pub open spec fn summary(d: SymbolDefView) -> Seq<char> {
    match d.signature {
        Some(signature) => d.detail + seq![' ', '|', ' '] + signature,
        None => d.detail,
    }
}

proof fn lemma_summary(d: SymbolDefView)
    ensures
        crate::queries::described(d) == summary(d),
{
    reveal_strlit(" | ");
    assert(" | "@ =~= seq![' ', '|', ' ']);
}

/// Without a help text and a binding, the first definition of the word is shown,
/// and nothing if there is none.
pub proof fn law_hover_shows_definitions_last(
    v: BackendView,
    uri: Seq<char>,
    pos: Position,
    bindings: Seq<BindingView>,
    i: int,
)
    requires
        v.word_at(uri, pos) is Some,
        forall|j: int|
            0 <= j < bindings.len() ==> (#[trigger] bindings[j]).name != v.word_at(
                uri,
                pos,
            )->Some_0,
        0 <= i <= v.symbol_defs.len(),
        i < v.symbol_defs.len() ==> v.symbol_defs[i].name == v.word_at(uri, pos)->Some_0,
        forall|j: int|
            0 <= j < i ==> (#[trigger] v.symbol_defs[j]).name != v.word_at(uri, pos)->Some_0,
    ensures
        v.hover(uri, pos, None, bindings) == (if i < v.symbol_defs.len() {
            Some(fenced(summary(v.symbol_defs[i])))
        } else {
            None
        }),
{
    let word = v.word_at(uri, pos)->Some_0;
    lemma_first_binding(bindings, word, bindings.len() as int);
    lemma_first_def(v.symbol_defs, word, i);
    if i < v.symbol_defs.len() {
        lemma_summary(v.symbol_defs[i]);
        lemma_fences(summary(v.symbol_defs[i]));
    }
}

/// The signature of a name is that of its first definition.
pub proof fn law_signatures_are_those_of_first_definitions(
    v: BackendView,
    name: Seq<char>,
    i: int,
)
    requires
        0 <= i <= v.symbol_defs.len(),
        i < v.symbol_defs.len() ==> v.symbol_defs[i].name == name,
        forall|j: int| 0 <= j < i ==> (#[trigger] v.symbol_defs[j]).name != name,
    ensures
        v.signature(name) == (if i < v.symbol_defs.len() {
            v.symbol_defs[i].signature
        } else {
            None
        }),
{
    lemma_first_def(v.symbol_defs, name, i);
}

// ---------------------------------------------------------------------
// Outlines and searches
// ---------------------------------------------------------------------

/// The outline of a document is made of all definitions that stand in it, in
/// their order, each with its name, its kind, its range and its summary.
pub proof fn law_outline_shows_all_definitions_in_order(defs: Seq<SymbolDefView>, uri: Seq<char>)
    ensures
        outline(defs, uri) == defs.filter(|d: SymbolDefView| d.uri == uri).map_values(
            |d: SymbolDefView|
                DocumentSymbolView {
                    name: d.name,
                    detail: summary(d),
                    kind: d.kind,
                    range: d.range,
                    selection_range: d.range,
                },
        ),
    decreases defs.len(),
{
    let keep = |d: SymbolDefView| d.uri == uri;
    let turn = |d: SymbolDefView|
        DocumentSymbolView {
            name: d.name,
            detail: summary(d),
            kind: d.kind,
            range: d.range,
            selection_range: d.range,
        };
    if defs.len() == 0 {
        lemma_pick_nothing(defs, keep, turn);
    } else {
        law_outline_shows_all_definitions_in_order(defs.drop_last(), uri);
        lemma_pick_last(defs, keep, turn);
        lemma_summary(defs.last());
        assert(outline(defs, uri) =~= defs.filter(keep).map_values(turn));
    }
}

/// Whether a text holds another, somewhere, both in lowercase.
pub open spec fn holds_in_lowercase(name: Seq<char>, query: Seq<char>) -> bool {
    exists|i: int|
        0 <= i && i + lowercase(query).len() <= lowercase(name).len() && #[trigger] lowercase(
            name,
        ).subrange(i, i + lowercase(query).len()) == lowercase(query)
}

proof fn lemma_holds(name: Seq<char>, query: Seq<char>)
    ensures
        is_found(name, query) <==> holds_in_lowercase(name, query),
{
    let s = lowercase(name);
    let part = lowercase(query);
    if is_found(name, query) {
        let i = choose|i: int| #[trigger] occurs_at(s, part, i);
        assert(s.subrange(i, i + part.len()) == part);
    }
    if holds_in_lowercase(name, query) {
        let i = choose|i: int|
            0 <= i && i + part.len() <= s.len() && #[trigger] s.subrange(i, i + part.len()) == part;
        assert(occurs_at(s, part, i));
        assert(has_part(s, part));
    }
}

/// A search lists all definitions whose name holds the query, in whatever case,
/// and whose document has a URL, in their order, each at its range there.
pub proof fn law_search_lists_all_matches_in_order(defs: Seq<SymbolDefView>, query: Seq<char>)
    ensures
        search(defs, query) == defs.filter(
            |d: SymbolDefView| holds_in_lowercase(d.name, query) && document_url(d.uri) is Some,
        ).map_values(
            |d: SymbolDefView|
                SymbolInformationView {
                    name: d.name,
                    kind: d.kind,
                    location: LocationView { uri: document_url(d.uri)->Some_0, range: d.range },
                },
        ),
    decreases defs.len(),
{
    let keep = |d: SymbolDefView|
        holds_in_lowercase(d.name, query) && document_url(d.uri) is Some;
    let turn = |d: SymbolDefView|
        SymbolInformationView {
            name: d.name,
            kind: d.kind,
            location: LocationView { uri: document_url(d.uri)->Some_0, range: d.range },
        };
    if defs.len() == 0 {
        lemma_pick_nothing(defs, keep, turn);
    } else {
        law_search_lists_all_matches_in_order(defs.drop_last(), query);
        lemma_pick_last(defs, keep, turn);
        lemma_holds(defs.last().name, query);
        assert(search(defs, query) =~= defs.filter(keep).map_values(turn));
    }
}

/// The definitions outside a document are those with another URI, in their
/// order.
pub proof fn law_other_documents_keep_their_definitions(defs: Seq<SymbolDefView>, uri: Seq<char>)
    ensures
        outside_document(defs, uri) == defs.filter(|d: SymbolDefView| d.uri != uri),
    decreases defs.len(),
{
    reveal(Seq::filter);
    if defs.len() > 0 {
        law_other_documents_keep_their_definitions(defs.drop_last(), uri);
    } else {
        assert(outside_document(defs, uri) =~= defs.filter(|d: SymbolDefView| d.uri != uri));
    }
}

// ---------------------------------------------------------------------
// Occurrences
// ---------------------------------------------------------------------

/// The word at a cursor is highlighted exactly where a rename of it would put
/// its new name, in that order.
pub proof fn law_highlights_are_what_a_rename_edits(v: BackendView, uri: Seq<char>, pos: Position)
    ensures
        v.highlights(uri, pos) == (match (v.text_of(uri), v.word_at(uri, pos)) {
            (Some(text), Some(word)) => rename_edits(text, word, word).map_values(
                |e: TextEditView|
                    DocumentHighlight { range: e.range, kind: DocumentHighlightKind::Text },
            ),
            _ => Seq::empty(),
        }),
{
    if let (Some(text), Some(word)) = (v.text_of(uri), v.word_at(uri, pos)) {
        assert(v.highlights(uri, pos) =~= rename_edits(text, word, word).map_values(
            |e: TextEditView|
                DocumentHighlight { range: e.range, kind: DocumentHighlightKind::Text },
        ));
    }
}

/// The references to a word in one document: what a rename would edit there, but
/// for an edit that starts at the cursor.
pub open spec fn references_in(
    doc: DocumentView,
    word: Seq<char>,
    uri: Seq<char>,
    pos: Position,
) -> Seq<LocationView> {
    match document_url(doc.uri) {
        Some(url) => rename_edits(doc.text, word, word).filter(
            |e: TextEditView|
                !(doc.uri == uri && e.range.start.line == pos.line && e.range.start.character
                    == pos.character),
        ).map_values(|e: TextEditView| LocationView { uri: url, range: e.range }),
        None => Seq::empty(),
    }
}

proof fn lemma_locations(
    url: Seq<char>,
    all: Seq<TextEditView>,
    here: bool,
    pos: Position,
    except: Option<Position>,
)
    requires
        except == (if here {
            Some(pos)
        } else {
            None
        }),
    ensures
        locations_except(url, all, except) == all.filter(
            |e: TextEditView|
                !(here && e.range.start.line == pos.line && e.range.start.character
                    == pos.character),
        ).map_values(|e: TextEditView| LocationView { uri: url, range: e.range }),
    decreases all.len(),
{
    let keep = |e: TextEditView|
        !(here && e.range.start.line == pos.line && e.range.start.character == pos.character);
    let turn = |e: TextEditView| LocationView { uri: url, range: e.range };
    if all.len() == 0 {
        lemma_pick_nothing(all, keep, turn);
    } else {
        lemma_locations(url, all.drop_last(), here, pos, except);
        lemma_pick_last(all, keep, turn);
        assert(locations_except(url, all, except) =~= all.filter(keep).map_values(turn));
    }
}

proof fn lemma_references_in(doc: DocumentView, word: Seq<char>, uri: Seq<char>, pos: Position)
    ensures
        document_references(
            document_url(doc.uri),
            doc.text,
            word,
            cursor_in(doc.uri, uri, pos),
        ) == references_in(doc, word, uri, pos),
{
    if let Some(url) = document_url(doc.uri) {
        let here = doc.uri == uri;
        let all = rename_edits(doc.text, word, word);
        lemma_locations(url, all, here, pos, cursor_in(doc.uri, uri, pos));
        let a = |e: TextEditView|
            !(here && e.range.start.line == pos.line && e.range.start.character == pos.character);
        let b = |e: TextEditView|
            !(doc.uri == uri && e.range.start.line == pos.line && e.range.start.character
                == pos.character);
        assert(a =~= b);
        let f = |e: TextEditView| LocationView { uri: url, range: e.range };
        assert(occurrences(doc.text, word) == all);
        assert(locations_except(url, all, cursor_in(doc.uri, uri, pos)) == all.filter(
            b,
        ).map_values(f));
    }
}

/// The references to the word at a cursor are those in the first document, then
/// those in the second, and so on.
pub proof fn law_references_come_document_by_document(
    documents: Seq<DocumentView>,
    doc: DocumentView,
    word: Seq<char>,
    uri: Seq<char>,
    pos: Position,
)
    ensures
        references(Seq::empty(), word, uri, pos) == Seq::<LocationView>::empty(),
        references(documents.push(doc), word, uri, pos) == references(documents, word, uri, pos)
            + references_in(doc, word, uri, pos),
{
    lemma_references_in(doc, word, uri, pos);
    assert(documents.push(doc).drop_last() =~= documents);
}

/// The references at a cursor are those to the word there, in all open
/// documents.
pub proof fn law_references_are_those_to_the_word(v: BackendView, uri: Seq<char>, pos: Position)
    ensures
        v.references(uri, pos) == (match v.word_at(uri, pos) {
            Some(word) => references(v.documents, word, uri, pos),
            None => Seq::empty(),
        }),
{
}

// ---------------------------------------------------------------------
// Rename
// ---------------------------------------------------------------------

/// Renaming a word that is defined nowhere edits its document, if there is
/// anything to edit, and no other.
pub proof fn law_rename_of_an_undefined_word(
    v: BackendView,
    uri: Seq<char>,
    pos: Position,
    new_name: Seq<char>,
)
    requires
        v.text_of(uri) is Some,
        v.word_at(uri, pos) is Some,
        v.word_at(uri, pos)->Some_0 != new_name,
        forall|j: int|
            0 <= j < v.symbol_defs.len() ==> (#[trigger] v.symbol_defs[j]).name != v.word_at(
                uri,
                pos,
            )->Some_0,
    ensures
        ({
            let edits = rename_edits(
                v.text_of(uri)->Some_0,
                v.word_at(uri, pos)->Some_0,
                new_name,
            );
            &&& edits.len() == 0 ==> v.rename(uri, pos, new_name) == Some(
                WorkspaceEditView { document_changes: None },
            )
            &&& edits.len() > 0 ==> v.rename(uri, pos, new_name) == (match document_url(uri) {
                Some(url) => Some(
                    WorkspaceEditView {
                        document_changes: Some(seq![TextDocumentEditView { uri: url, edits }]),
                    },
                ),
                None => None,
            })
        }),
{
    lemma_first_def(v.symbol_defs, v.word_at(uri, pos)->Some_0, v.symbol_defs.len() as int);
}

/// Whether every document that defines a word is open and has a URL.
pub open spec fn can_be_edited(v: BackendView, word: Seq<char>) -> bool {
    forall|j: int|
        0 <= j < v.symbol_defs.len() && (#[trigger] v.symbol_defs[j]).name == word ==> v.text_of(
            v.symbol_defs[j].uri,
        ) is Some && document_url(v.symbol_defs[j].uri) is Some
}

/// Renaming a defined word edits the document of each of its definitions in
/// turn, all occurrences in it, and fails if one of these documents cannot be
/// edited.
pub proof fn law_rename_of_a_defined_word(
    v: BackendView,
    uri: Seq<char>,
    pos: Position,
    new_name: Seq<char>,
    i: int,
)
    requires
        v.word_at(uri, pos) is Some,
        v.word_at(uri, pos)->Some_0 != new_name,
        0 <= i < v.symbol_defs.len(),
        v.symbol_defs[i].name == v.word_at(uri, pos)->Some_0,
    ensures
        ({
            let word = v.word_at(uri, pos)->Some_0;
            v.rename(uri, pos, new_name) == (if can_be_edited(v, word) {
                Some(
                    WorkspaceEditView {
                        document_changes: Some(
                            v.symbol_defs.filter(|d: SymbolDefView| d.name == word).map_values(
                                |d: SymbolDefView|
                                    TextDocumentEditView {
                                        uri: document_url(d.uri)->Some_0,
                                        edits: rename_edits(
                                            text_of(v.documents, d.uri)->Some_0,
                                            word,
                                            new_name,
                                        ),
                                    },
                            ),
                        ),
                    },
                )
            } else {
                None
            })
        }),
{
    let word = v.word_at(uri, pos)->Some_0;
    crate::guarantees::law_defined_names_have_a_definition(v.symbol_defs, word);
    assert(is_defined(v.symbol_defs, word));
    lemma_definition_edits(v.documents, v.symbol_defs, word, new_name);
}

proof fn lemma_definition_edits(
    docs: Seq<DocumentView>,
    defs: Seq<SymbolDefView>,
    word: Seq<char>,
    new_name: Seq<char>,
)
    ensures
        definition_edits(docs, defs, word, new_name) == (if (forall|j: int|
            0 <= j < defs.len() && (#[trigger] defs[j]).name == word ==> text_of(
                docs,
                defs[j].uri,
            ) is Some && document_url(defs[j].uri) is Some) {
            Some(
                defs.filter(|d: SymbolDefView| d.name == word).map_values(
                    |d: SymbolDefView|
                        TextDocumentEditView {
                            uri: document_url(d.uri)->Some_0,
                            edits: rename_edits(text_of(docs, d.uri)->Some_0, word, new_name),
                        },
                ),
            )
        } else {
            None
        }),
    decreases defs.len(),
{
    let keep = |d: SymbolDefView| d.name == word;
    let turn = |d: SymbolDefView|
        TextDocumentEditView {
            uri: document_url(d.uri)->Some_0,
            edits: rename_edits(text_of(docs, d.uri)->Some_0, word, new_name),
        };
    if defs.len() == 0 {
        lemma_pick_nothing(defs, keep, turn);
    } else {
        let init = defs.drop_last();
        lemma_definition_edits(docs, init, word, new_name);
        lemma_pick_last(defs, keep, turn);
        assert(forall|j: int| 0 <= j < init.len() ==> #[trigger] init[j] == defs[j]);
        assert(defs[defs.len() - 1] == defs.last());
        if forall|j: int|
            0 <= j < defs.len() && (#[trigger] defs[j]).name == word ==> text_of(
                docs,
                defs[j].uri,
            ) is Some && document_url(defs[j].uri) is Some {
            assert forall|j: int| 0 <= j < init.len() && (#[trigger] init[j]).name == word implies (
            text_of(docs, init[j].uri) is Some && document_url(init[j].uri) is Some) by {
                assert(defs[j].name == word);
            }
            let before = init.filter(keep).map_values(turn);
            assert(definition_edits(docs, init, word, new_name) == Some(before));
            assert(before + Seq::<TextDocumentEditView>::empty() =~= before);
            assert(before.push(turn(defs.last())) =~= before + seq![turn(defs.last())]);
        } else {
            let j = choose|j: int|
                0 <= j < defs.len() && (#[trigger] defs[j]).name == word && !(text_of(
                    docs,
                    defs[j].uri,
                ) is Some && document_url(defs[j].uri) is Some);
            if j < init.len() {
                assert(init[j].name == word);
            }
        }
    }
}

/// A word is renamed to itself without an edit, and where there is no word
/// nothing is renamed.
pub proof fn law_rename_without_a_change(
    v: BackendView,
    uri: Seq<char>,
    pos: Position,
    new_name: Seq<char>,
)
    ensures
        v.word_at(uri, pos) is None ==> v.rename(uri, pos, new_name) is None,
        v.word_at(uri, pos) == Some(new_name) ==> v.rename(uri, pos, new_name) == Some(
            WorkspaceEditView { document_changes: None },
        ),
{
}

/// The word at a position of a document is that of its text.
pub proof fn law_words_are_those_of_the_text(v: BackendView, uri: Seq<char>, pos: Position)
    ensures
        v.word_at(uri, pos) == (match v.text_of(uri) {
            Some(text) => crate::cursor::word_at(text, pos),
            None => None,
        }),
{
}

// ---------------------------------------------------------------------
// Any word
// ---------------------------------------------------------------------

/// What is said of the word at a cursor holds of any word: its definition is the
/// first elsewhere, at the URL of that definition's document.
pub proof fn law_definition_of_any_word(
    defs: Seq<SymbolDefView>,
    word: Seq<char>,
    uri: Seq<char>,
    pos: Position,
    i: int,
)
    requires
        0 <= i <= defs.len(),
        i < defs.len() ==> is_elsewhere(defs[i], word, uri, pos),
        forall|j: int| 0 <= j < i ==> !is_elsewhere(#[trigger] defs[j], word, uri, pos),
    ensures
        definition_of(defs, word, uri, pos) == (if i < defs.len() && document_url(
            defs[i].uri,
        ) is Some {
            Some(LocationView { uri: document_url(defs[i].uri)->Some_0, range: defs[i].range })
        } else {
            None
        }),
{
    lemma_first_elsewhere(defs, word, uri, pos, i);
}

/// What is shown of any word is its help text, else its first binding, else its
/// first definition, else nothing.
pub proof fn law_hover_of_any_word(
    word: Seq<char>,
    help: Option<Seq<char>>,
    bindings: Seq<BindingView>,
    defs: Seq<SymbolDefView>,
    i: int,
    j: int,
)
    requires
        0 <= i <= bindings.len(),
        i < bindings.len() ==> bindings[i].name == word,
        forall|k: int| 0 <= k < i ==> (#[trigger] bindings[k]).name != word,
        0 <= j <= defs.len(),
        j < defs.len() ==> defs[j].name == word,
        forall|k: int| 0 <= k < j ==> (#[trigger] defs[k]).name != word,
    ensures
        hover_of(word, help, bindings, defs) == (if help is Some {
            Some(fenced(help->Some_0))
        } else if i < bindings.len() {
            Some(fenced(word + seq![' ', '=', ' '] + bindings[i].value))
        } else if j < defs.len() {
            Some(fenced(summary(defs[j])))
        } else {
            None
        }),
{
    lemma_first_binding(bindings, word, i);
    lemma_first_def(defs, word, j);
    reveal_strlit(" = ");
    assert(" = "@ =~= seq![' ', '=', ' ']);
    if let Some(text) = help {
        lemma_fences(text);
    } else if i < bindings.len() {
        lemma_fences(word + seq![' ', '=', ' '] + bindings[i].value);
    } else if j < defs.len() {
        lemma_summary(defs[j]);
        lemma_fences(summary(defs[j]));
    }
}

/// Renaming any word to itself changes nothing. A word that is defined nowhere
/// is renamed in its document alone, and a defined one in the documents of its
/// definitions.
pub proof fn law_rename_of_any_word(
    docs: Seq<DocumentView>,
    defs: Seq<SymbolDefView>,
    uri: Seq<char>,
    text: Seq<char>,
    word: Seq<char>,
    new_name: Seq<char>,
)
    ensures
        rename_of(docs, defs, uri, text, word, new_name) == (if word == new_name {
            Some(WorkspaceEditView { document_changes: None })
        } else if forall|j: int| 0 <= j < defs.len() ==> (#[trigger] defs[j]).name != word {
            single_rename(uri, text, word, new_name)
        } else if forall|j: int|
            0 <= j < defs.len() && (#[trigger] defs[j]).name == word ==> text_of(
                docs,
                defs[j].uri,
            ) is Some && document_url(defs[j].uri) is Some {
            Some(
                WorkspaceEditView {
                    document_changes: Some(
                        defs.filter(|d: SymbolDefView| d.name == word).map_values(
                            |d: SymbolDefView|
                                TextDocumentEditView {
                                    uri: document_url(d.uri)->Some_0,
                                    edits: rename_edits(
                                        text_of(docs, d.uri)->Some_0,
                                        word,
                                        new_name,
                                    ),
                                },
                        ),
                    ),
                },
            )
        } else {
            None
        }),
{
    if forall|j: int| 0 <= j < defs.len() ==> (#[trigger] defs[j]).name != word {
        lemma_first_def(defs, word, defs.len() as int);
    } else {
        crate::guarantees::law_defined_names_have_a_definition(defs, word);
        assert(is_defined(defs, word));
    }
    lemma_definition_edits(docs, defs, word, new_name);
}

/// A rename in one document is that document's edits at its URL. It changes
/// nothing if there are none, and fails if the document has no URL.
pub proof fn law_rename_in_one_document(
    uri: Seq<char>,
    text: Seq<char>,
    word: Seq<char>,
    new_name: Seq<char>,
)
    ensures
        ({
            let edits = rename_edits(text, word, new_name);
            single_rename(uri, text, word, new_name) == (if edits.len() == 0 {
                Some(WorkspaceEditView { document_changes: None })
            } else {
                match document_url(uri) {
                    Some(url) => Some(
                        WorkspaceEditView {
                            document_changes: Some(seq![TextDocumentEditView { uri: url, edits }]),
                        },
                    ),
                    None => None,
                }
            })
        }),
{
}

/// Any word is highlighted where a rename would put its new name.
pub proof fn law_highlights_of_any_word(text: Seq<char>, word: Seq<char>)
    ensures
        highlights(text, word) == rename_edits(text, word, word).map_values(
            |e: TextEditView|
                DocumentHighlight { range: e.range, kind: DocumentHighlightKind::Text },
        ),
{
    assert(highlights(text, word) =~= rename_edits(text, word, word).map_values(
        |e: TextEditView| DocumentHighlight { range: e.range, kind: DocumentHighlightKind::Text },
    ));
}

/// The references to any word in a document with a URL are what a rename would
/// edit, but for an edit that starts where the cursor is, if it is there. A
/// document without a URL has none.
pub proof fn law_references_of_any_word(
    url: Seq<char>,
    text: Seq<char>,
    word: Seq<char>,
    pos: Position,
)
    ensures
        document_references(None, text, word, Some(pos)) == Seq::<LocationView>::empty(),
        document_references(None, text, word, None) == Seq::<LocationView>::empty(),
        document_references(Some(url), text, word, None) == rename_edits(
            text,
            word,
            word,
        ).map_values(|e: TextEditView| LocationView { uri: url, range: e.range }),
        document_references(Some(url), text, word, Some(pos)) == rename_edits(
            text,
            word,
            word,
        ).filter(
            |e: TextEditView|
                !(e.range.start.line == pos.line && e.range.start.character == pos.character),
        ).map_values(|e: TextEditView| LocationView { uri: url, range: e.range }),
{
    let all = rename_edits(text, word, word);
    let turn = |e: TextEditView| LocationView { uri: url, range: e.range };
    assert(occurrences(text, word) == all);
    let here = true;
    lemma_locations(url, all, here, pos, Some(pos));
    let a = |e: TextEditView|
        !(here && e.range.start.line == pos.line && e.range.start.character == pos.character);
    let b = |e: TextEditView|
        !(e.range.start.line == pos.line && e.range.start.character == pos.character);
    assert(a =~= b);
    assert(locations_except(url, all, Some(pos)) == all.filter(a).map_values(turn));
    lemma_all_locations(url, all);
}

proof fn lemma_all_locations(url: Seq<char>, all: Seq<TextEditView>)
    ensures
        locations_except(url, all, None) == all.map_values(
            |e: TextEditView| LocationView { uri: url, range: e.range },
        ),
    decreases all.len(),
{
    let turn = |e: TextEditView| LocationView { uri: url, range: e.range };
    if all.len() > 0 {
        lemma_all_locations(url, all.drop_last());
    }
    assert(locations_except(url, all, None) =~= all.map_values(turn));
}

/// A text holds another if it is what stands before it, the other text, and what
/// stands behind it.
pub proof fn law_parts_of_texts(s: Seq<char>, part: Seq<char>, a: Seq<char>, b: Seq<char>)
    ensures
        has_part(a + part + b, part),
        has_part(s, part) ==> exists|i: int|
            0 <= i <= s.len() - part.len() && s == #[trigger] s.take(i) + part + s.skip(
                i + part.len(),
            ),
{
    let whole = a + part + b;
    assert(whole.subrange(a.len() as int, (a.len() + part.len()) as int) =~= part);
    assert(occurs_at(whole, part, a.len() as int));
    if has_part(s, part) {
        let i = choose|i: int| #[trigger] occurs_at(s, part, i);
        assert(s =~= s.take(i) + s.subrange(i, i + part.len()) + s.skip(i + part.len()));
    }
}

} // verus!
