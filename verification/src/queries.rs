//! What the server knows of symbols: hover texts, definitions, outlines,
//! references and renames.

use crate::completion::{Binding, BindingView};
use crate::documents::{find_text, text_of, Document, DocumentView};
use crate::protocol::{
    DocumentHighlight, DocumentHighlightKind, DocumentSymbol, DocumentSymbolView, Hover, HoverView,
    Location, LocationView, MarkupKind, Position, SymbolInformation, SymbolInformationView,
    TextDocumentEdit, TextDocumentEditView, TextEdit, TextEditView, WorkspaceEdit,
    WorkspaceEditView,
};
use crate::rename::{compute_rename_edits, occurs, occurs_at, rename_edits};
use crate::strings::{chars_of, concat3, copied, lowercase, same, to_lower};
use crate::symbols::{SymbolDef, SymbolDefView};
use crate::uri::{document_url, locate, location_of, parse_uri};
use vstd::prelude::*;

verus! {

// ---------------------------------------------------------------------
// Looking up names
// ---------------------------------------------------------------------

/// The first definition of a name.
pub open spec fn first_def(defs: Seq<SymbolDefView>, name: Seq<char>) -> Option<SymbolDefView>
    decreases defs.len(),
{
    if defs.len() == 0 {
        None
    } else if defs[0].name == name {
        Some(defs[0])
    } else {
        first_def(defs.drop_first(), name)
    }
}

/// The first binding of a name.
pub open spec fn first_binding(bindings: Seq<BindingView>, name: Seq<char>) -> Option<BindingView>
    decreases bindings.len(),
{
    if bindings.len() == 0 {
        None
    } else if bindings[0].name == name {
        Some(bindings[0])
    } else {
        first_binding(bindings.drop_first(), name)
    }
}

/// The first definition of a name.
pub fn find_def<'a>(defs: &'a Vec<SymbolDef>, name: &str) -> (r: Option<&'a SymbolDef>)
    ensures
        r.deep_view() == first_def(defs.deep_view(), name@),
{
    let ghost all = defs.deep_view();
    let mut i: usize = 0;
    assert(all.skip(0) =~= all);
    while i < defs.len()
        invariant
            i <= defs@.len(),
            all == defs.deep_view(),
            first_def(all, name@) == first_def(all.skip(i as int), name@),
        decreases defs@.len() - i,
    {
        assert(all.skip(i as int)[0] == defs@[i as int].deep_view());
        assert(all.skip(i as int).drop_first() =~= all.skip(i + 1));
        if same(defs[i].name.as_str(), name) {
            return Some(&defs[i]);
        }
        i += 1;
    }
    None
}

/// The first binding of a name.
pub fn find_binding<'a>(bindings: &'a Vec<Binding>, name: &str) -> (r: Option<&'a Binding>)
    ensures
        r.deep_view() == first_binding(bindings.deep_view(), name@),
{
    let ghost all = bindings.deep_view();
    let mut i: usize = 0;
    assert(all.skip(0) =~= all);
    while i < bindings.len()
        invariant
            i <= bindings@.len(),
            all == bindings.deep_view(),
            first_binding(all, name@) == first_binding(all.skip(i as int), name@),
        decreases bindings@.len() - i,
    {
        assert(all.skip(i as int)[0] == bindings@[i as int].deep_view());
        assert(all.skip(i as int).drop_first() =~= all.skip(i + 1));
        if same(bindings[i].name.as_str(), name) {
            return Some(&bindings[i]);
        }
        i += 1;
    }
    None
}

// ---------------------------------------------------------------------
// Hover
// ---------------------------------------------------------------------

/// A text as a block of Syma code.
pub open spec fn code_block(s: Seq<char>) -> HoverView {
    HoverView { kind: MarkupKind::Markdown, value: "```syma\n"@ + s + "\n```"@ }
}

/// A definition in one line: its detail and, if it has one, its signature.
pub open spec fn described(d: SymbolDefView) -> Seq<char> {
    match d.signature {
        Some(signature) => d.detail + " | "@ + signature,
        None => d.detail,
    }
}

/// The hover text of a name: its help text, or else its value in the
/// environment, or else its definition.
pub open spec fn hover_of(
    name: Seq<char>,
    help: Option<Seq<char>>,
    bindings: Seq<BindingView>,
    defs: Seq<SymbolDefView>,
) -> Option<HoverView> {
    match help {
        Some(text) => Some(code_block(text)),
        None => match first_binding(bindings, name) {
            Some(b) => Some(code_block(b.name + " = "@ + b.value)),
            None => match first_def(defs, name) {
                Some(d) => Some(code_block(described(d))),
                None => None,
            },
        },
    }
}

fn as_code_block(s: &str) -> (r: Hover)
    ensures
        r.deep_view() == code_block(s@),
{
    Hover { kind: MarkupKind::Markdown, value: concat3("```syma\n", s, "\n```") }
}

/// A definition in one line.
pub fn describe(d: &SymbolDef) -> (r: String)
    ensures
        r@ == described(d.deep_view()),
{
    match &d.signature {
        Some(signature) => concat3(d.detail.as_str(), " | ", signature.as_str()),
        None => copied(d.detail.as_str()),
    }
}

/// The hover text of a name.
pub fn hover_for(
    name: &str,
    help: &Option<String>,
    bindings: &Vec<Binding>,
    defs: &Vec<SymbolDef>,
) -> (r: Option<Hover>)
    ensures
        r.deep_view() == hover_of(
            name@,
            help.deep_view(),
            bindings.deep_view(),
            defs.deep_view(),
        ),
{
    if let Some(text) = help {
        return Some(as_code_block(text.as_str()));
    }
    if let Some(b) = find_binding(bindings, name) {
        let contents: String = concat3(b.name.as_str(), " = ", b.value.as_str());
        return Some(as_code_block(contents.as_str()));
    }
    match find_def(defs, name) {
        Some(d) => {
            let contents: String = describe(d);
            Some(as_code_block(contents.as_str()))
        },
        None => None,
    }
}

// ---------------------------------------------------------------------
// Definitions
// ---------------------------------------------------------------------

/// Whether a definition starts at a position of a document.
pub open spec fn starts_at(d: SymbolDefView, uri: Seq<char>, pos: Position) -> bool {
    d.uri == uri && d.range.start == pos
}

/// The first definition of a name that does not start at the cursor.
pub open spec fn first_other_def(
    defs: Seq<SymbolDefView>,
    name: Seq<char>,
    uri: Seq<char>,
    pos: Position,
) -> Option<SymbolDefView>
    decreases defs.len(),
{
    if defs.len() == 0 {
        None
    } else if defs[0].name == name && !starts_at(defs[0], uri, pos) {
        Some(defs[0])
    } else {
        first_other_def(defs.drop_first(), name, uri, pos)
    }
}

/// Where a name under the cursor is defined.
pub open spec fn definition_of(
    defs: Seq<SymbolDefView>,
    name: Seq<char>,
    uri: Seq<char>,
    pos: Position,
) -> Option<LocationView> {
    match first_other_def(defs, name, uri, pos) {
        Some(d) => location_of(document_url(d.uri), d.range),
        None => None,
    }
}

/// The first definition of a name that does not start at the cursor.
pub fn find_other_def<'a>(
    defs: &'a Vec<SymbolDef>,
    name: &str,
    uri: &str,
    pos: Position,
) -> (r: Option<&'a SymbolDef>)
    ensures
        r.deep_view() == first_other_def(defs.deep_view(), name@, uri@, pos),
{
    let ghost all = defs.deep_view();
    let mut i: usize = 0;
    assert(all.skip(0) =~= all);
    while i < defs.len()
        invariant
            i <= defs@.len(),
            all == defs.deep_view(),
            first_other_def(all, name@, uri@, pos) == first_other_def(
                all.skip(i as int),
                name@,
                uri@,
                pos,
            ),
        decreases defs@.len() - i,
    {
        assert(all.skip(i as int)[0] == defs@[i as int].deep_view());
        assert(all.skip(i as int).drop_first() =~= all.skip(i + 1));
        if same(defs[i].name.as_str(), name) {
            if !(same(defs[i].uri.as_str(), uri) && defs[i].range.start == pos) {
                return Some(&defs[i]);
            }
        }
        i += 1;
    }
    None
}

/// Where a name under the cursor is defined.
pub fn locate_definition(defs: &Vec<SymbolDef>, name: &str, uri: &str, pos: Position) -> (r: Option<
    Location,
>)
    ensures
        r.deep_view() == definition_of(defs.deep_view(), name@, uri@, pos),
{
    match find_other_def(defs, name, uri, pos) {
        Some(d) => locate(parse_uri(d.uri.as_str()), d.range),
        None => None,
    }
}

// ---------------------------------------------------------------------
// Outlines and searches
// ---------------------------------------------------------------------

/// The outline entry of a definition.
pub open spec fn outline_entry(d: SymbolDefView) -> DocumentSymbolView {
    DocumentSymbolView {
        name: d.name,
        detail: described(d),
        kind: d.kind,
        range: d.range,
        selection_range: d.range,
    }
}

/// The outline of the document with a URI.
pub open spec fn outline(defs: Seq<SymbolDefView>, uri: Seq<char>) -> Seq<DocumentSymbolView>
    decreases defs.len(),
{
    if defs.len() == 0 {
        Seq::empty()
    } else {
        let before = outline(defs.drop_last(), uri);
        if defs.last().uri == uri {
            before.push(outline_entry(defs.last()))
        } else {
            before
        }
    }
}

/// The outline of the document with a URI.
pub fn collect_outline(defs: &Vec<SymbolDef>, uri: &str) -> (r: Vec<DocumentSymbol>)
    ensures
        r.deep_view() == outline(defs.deep_view(), uri@),
{
    let ghost all = defs.deep_view();
    let mut out: Vec<DocumentSymbol> = Vec::new();
    let mut i: usize = 0;
    assert(out.deep_view() =~= Seq::<DocumentSymbolView>::empty());
    while i < defs.len()
        invariant
            i <= defs@.len(),
            all == defs.deep_view(),
            out.deep_view() == outline(all.take(i as int), uri@),
        decreases defs@.len() - i,
    {
        let d: &SymbolDef = &defs[i];
        assert(all.take(i + 1).drop_last() =~= all.take(i as int));
        assert(all.take(i + 1).last() == d.deep_view());
        if same(d.uri.as_str(), uri) {
            let ghost before = out.deep_view();
            out.push(
                DocumentSymbol {
                    name: copied(d.name.as_str()),
                    detail: describe(d),
                    kind: d.kind,
                    range: d.range,
                    selection_range: d.range,
                },
            );
            assert(out.deep_view() =~= before.push(outline_entry(d.deep_view())));
        }
        i += 1;
    }
    assert(all.take(i as int) =~= all);
    out
}

/// Whether a text holds another.
pub open spec fn has_part(s: Seq<char>, part: Seq<char>) -> bool {
    exists|i: int| #[trigger] occurs_at(s, part, i)
}

/// Whether a text holds another.
pub fn contains_text(s: &str, part: &str) -> (r: bool)
    ensures
        r == has_part(s@, part@),
{
    let a: Vec<char> = chars_of(s);
    let b: Vec<char> = chars_of(part);
    if b.len() > a.len() {
        return false;
    }
    let last: usize = a.len() - b.len();
    let mut i: usize = 0;
    while i < last
        invariant
            a@ == s@,
            b@ == part@,
            i <= last,
            last + b@.len() == a@.len(),
            forall|k: int| 0 <= k < i ==> !#[trigger] occurs_at(s@, part@, k),
        decreases last - i,
    {
        if occurs(&a, &b, i) {
            assert(occurs_at(s@, part@, i as int));
            return true;
        }
        i += 1;
    }
    let r: bool = occurs(&a, &b, last);
    proof {
        if r {
            assert(occurs_at(s@, part@, last as int));
        } else {
            assert forall|k: int| !#[trigger] occurs_at(s@, part@, k) by {
                if 0 <= k <= last {
                    assert(k < last || k == last);
                }
            }
        }
    }
    r
}

/// The search hit of a definition, if it can be located.
pub open spec fn search_hit(d: SymbolDefView, url: Option<Seq<char>>) -> Option<
    SymbolInformationView,
> {
    match location_of(url, d.range) {
        Some(location) => Some(SymbolInformationView { name: d.name, kind: d.kind, location }),
        None => None,
    }
}

/// The search hit of a definition, if it can be located.
pub fn hit_of(d: &SymbolDef, url: Option<String>) -> (r: Option<SymbolInformation>)
    ensures
        r.deep_view() == search_hit(d.deep_view(), url.deep_view()),
{
    match locate(url, d.range) {
        Some(location) => Some(
            SymbolInformation { name: copied(d.name.as_str()), kind: d.kind, location },
        ),
        None => None,
    }
}

/// Whether a name is found by a query: it holds the query, both in lowercase.
pub open spec fn is_found(name: Seq<char>, query: Seq<char>) -> bool {
    has_part(lowercase(name), lowercase(query))
}

/// The definitions that are found by a query.
pub open spec fn search(defs: Seq<SymbolDefView>, query: Seq<char>) -> Seq<SymbolInformationView>
    decreases defs.len(),
{
    if defs.len() == 0 {
        Seq::empty()
    } else {
        let before = search(defs.drop_last(), query);
        let d = defs.last();
        match search_hit(d, document_url(d.uri)) {
            Some(hit) => if is_found(d.name, query) {
                before.push(hit)
            } else {
                before
            },
            None => before,
        }
    }
}

/// The definitions that are found by a query.
pub fn search_symbols(defs: &Vec<SymbolDef>, query: &str) -> (r: Vec<SymbolInformation>)
    ensures
        r.deep_view() == search(defs.deep_view(), query@),
{
    let query_lower: String = to_lower(query);
    let ghost all = defs.deep_view();
    let mut out: Vec<SymbolInformation> = Vec::new();
    let mut i: usize = 0;
    assert(out.deep_view() =~= Seq::<SymbolInformationView>::empty());
    while i < defs.len()
        invariant
            i <= defs@.len(),
            all == defs.deep_view(),
            query_lower@ == lowercase(query@),
            out.deep_view() == search(all.take(i as int), query@),
        decreases defs@.len() - i,
    {
        let d: &SymbolDef = &defs[i];
        assert(all.take(i + 1).drop_last() =~= all.take(i as int));
        assert(all.take(i + 1).last() == d.deep_view());
        let lower: String = to_lower(d.name.as_str());
        if contains_text(lower.as_str(), query_lower.as_str()) {
            if let Some(hit) = hit_of(d, parse_uri(d.uri.as_str())) {
                let ghost before = out.deep_view();
                let ghost hit_view = hit.deep_view();
                out.push(hit);
                assert(out.deep_view() =~= before.push(hit_view));
            }
        }
        i += 1;
    }
    assert(all.take(i as int) =~= all);
    out
}

// ---------------------------------------------------------------------
// Occurrences
// ---------------------------------------------------------------------

/// The occurrences of a name in a text: what a rename would replace.
pub open spec fn occurrences(text: Seq<char>, name: Seq<char>) -> Seq<TextEditView> {
    rename_edits(text, name, name)
}

/// The highlights of a name in a text.
pub open spec fn highlights(text: Seq<char>, name: Seq<char>) -> Seq<DocumentHighlight> {
    let all = occurrences(text, name);
    Seq::new(
        all.len(),
        |i: int| DocumentHighlight { range: all[i].range, kind: DocumentHighlightKind::Text },
    )
}

/// The highlights of a name in a text.
pub fn collect_highlights(text: &str, name: &str) -> (r: Vec<DocumentHighlight>)
    ensures
        r@ == highlights(text@, name@),
{
    let edits: Vec<TextEdit> = compute_rename_edits(text, name, name);
    let ghost all = occurrences(text@, name@);
    let mut out: Vec<DocumentHighlight> = Vec::new();
    let mut i: usize = 0;
    while i < edits.len()
        invariant
            i <= edits@.len(),
            all == edits.deep_view(),
            out@.len() == i,
            forall|k: int| 0 <= k < i ==> (#[trigger] out@[k]) == (DocumentHighlight {
                range: all[k].range,
                kind: DocumentHighlightKind::Text,
            }),
        decreases edits@.len() - i,
    {
        assert(all[i as int] == edits@[i as int].deep_view());
        out.push(DocumentHighlight { range: edits[i].range, kind: DocumentHighlightKind::Text });
        i += 1;
    }
    assert(out@ =~= highlights(text@, name@));
    out
}

/// The locations of those occurrences that do not start at `except`.
pub open spec fn locations_except(
    url: Seq<char>,
    all: Seq<TextEditView>,
    except: Option<Position>,
) -> Seq<LocationView>
    decreases all.len(),
{
    if all.len() == 0 {
        Seq::empty()
    } else {
        let before = locations_except(url, all.drop_last(), except);
        if except == Some(all.last().range.start) {
            before
        } else {
            before.push(LocationView { uri: url, range: all.last().range })
        }
    }
}

/// The references to a name in one document, where `except` is the cursor if
/// it stands in this document. There are none if the document has no URL.
pub open spec fn document_references(
    url: Option<Seq<char>>,
    text: Seq<char>,
    name: Seq<char>,
    except: Option<Position>,
) -> Seq<LocationView> {
    match url {
        Some(url) => locations_except(url, occurrences(text, name), except),
        None => Seq::empty(),
    }
}

/// The position of the cursor in the document `doc_uri`, if it stands there.
pub open spec fn cursor_in(doc_uri: Seq<char>, uri: Seq<char>, pos: Position) -> Option<Position> {
    if doc_uri == uri {
        Some(pos)
    } else {
        None
    }
}

/// The references to a name in all documents, but for one that starts at the
/// cursor.
pub open spec fn references(
    docs: Seq<DocumentView>,
    name: Seq<char>,
    uri: Seq<char>,
    pos: Position,
) -> Seq<LocationView>
    decreases docs.len(),
{
    if docs.len() == 0 {
        Seq::empty()
    } else {
        let doc = docs.last();
        references(docs.drop_last(), name, uri, pos) + document_references(
            document_url(doc.uri),
            doc.text,
            name,
            cursor_in(doc.uri, uri, pos),
        )
    }
}

/// Adds the references to a name in one document.
pub fn push_document_references(
    url: &Option<String>,
    text: &str,
    name: &str,
    except: Option<Position>,
    out: &mut Vec<Location>,
)
    ensures
        final(out).deep_view() == old(out).deep_view() + document_references(
            url.deep_view(),
            text@,
            name@,
            except,
        ),
{
    let ghost before = out.deep_view();
    match url {
        Some(url) => {
            let edits: Vec<TextEdit> = compute_rename_edits(text, name, name);
            let ghost all = occurrences(text@, name@);
            let mut i: usize = 0;
            assert(before + Seq::<LocationView>::empty() =~= before);
            while i < edits.len()
                invariant
                    i <= edits@.len(),
                    all == edits.deep_view(),
                    out.deep_view() == before + locations_except(
                        url@,
                        all.take(i as int),
                        except,
                    ),
                decreases edits@.len() - i,
            {
                let range = edits[i].range;
                let ghost so_far = locations_except(url@, all.take(i as int), except);
                assert(all.take(i + 1).drop_last() =~= all.take(i as int));
                assert(all.take(i + 1).last() == edits@[i as int].deep_view());
                let is_cursor: bool = match except {
                    Some(pos) => range.start == pos,
                    None => false,
                };
                if !is_cursor {
                    let ghost earlier = out.deep_view();
                    let location = Location { uri: copied(url.as_str()), range };
                    let ghost view = location.deep_view();
                    out.push(location);
                    assert(out.deep_view() =~= earlier.push(view));
                    assert((before + so_far).push(view) =~= before + so_far.push(view));
                }
                i += 1;
            }
            assert(all.take(i as int) =~= all);
        },
        None => {
            assert(before + Seq::<LocationView>::empty() =~= before);
        },
    }
}

/// The references to a name in all documents, but for one that starts at the
/// cursor.
pub fn collect_references(docs: &Vec<Document>, name: &str, uri: &str, pos: Position) -> (r: Vec<
    Location,
>)
    ensures
        r.deep_view() == references(docs.deep_view(), name@, uri@, pos),
{
    let ghost all = docs.deep_view();
    let mut out: Vec<Location> = Vec::new();
    let mut i: usize = 0;
    assert(out.deep_view() =~= Seq::<LocationView>::empty());
    while i < docs.len()
        invariant
            i <= docs@.len(),
            all == docs.deep_view(),
            out.deep_view() == references(all.take(i as int), name@, uri@, pos),
        decreases docs@.len() - i,
    {
        let doc: &Document = &docs[i];
        assert(all.take(i + 1).drop_last() =~= all.take(i as int));
        assert(all.take(i + 1).last() == doc.deep_view());
        let except: Option<Position> = if same(doc.uri.as_str(), uri) {
            Some(pos)
        } else {
            None
        };
        let url: Option<String> = parse_uri(doc.uri.as_str());
        push_document_references(&url, doc.text.as_str(), name, except, &mut out);
        i += 1;
    }
    assert(all.take(i as int) =~= all);
    out
}

// ---------------------------------------------------------------------
// Rename
// ---------------------------------------------------------------------

/// The edit that changes nothing.
pub open spec fn no_edit() -> WorkspaceEditView {
    WorkspaceEditView { document_changes: None }
}

/// The edits of one document, if it has a URL.
pub open spec fn document_edit(url: Option<Seq<char>>, edits: Seq<TextEditView>) -> Option<
    TextDocumentEditView,
> {
    match url {
        Some(uri) => Some(TextDocumentEditView { uri, edits }),
        None => None,
    }
}

/// The edits of one document, if it has a URL.
pub fn edit_document(url: Option<String>, edits: Vec<TextEdit>) -> (r: Option<TextDocumentEdit>)
    ensures
        r.deep_view() == document_edit(url.deep_view(), edits.deep_view()),
{
    match url {
        Some(uri) => Some(TextDocumentEdit { uri, edits }),
        None => None,
    }
}

/// The rename of a name in a single document.
pub open spec fn single_rename(
    uri: Seq<char>,
    text: Seq<char>,
    name: Seq<char>,
    new_name: Seq<char>,
) -> Option<WorkspaceEditView> {
    let edits = rename_edits(text, name, new_name);
    if edits.len() == 0 {
        Some(no_edit())
    } else {
        match document_edit(document_url(uri), edits) {
            Some(edit) => Some(WorkspaceEditView { document_changes: Some(seq![edit]) }),
            None => None,
        }
    }
}

/// Renames a name in a single document.
pub fn rename_in_single_document(uri: &str, text: &str, old_name: &str, new_name: &str) -> (r:
    Option<WorkspaceEdit>)
    ensures
        r.deep_view() == single_rename(uri@, text@, old_name@, new_name@),
{
    let edits: Vec<TextEdit> = compute_rename_edits(text, old_name, new_name);
    if edits.len() == 0 {
        return Some(WorkspaceEdit { document_changes: None });
    }
    match edit_document(parse_uri(uri), edits) {
        Some(edit) => {
            let mut changes: Vec<TextDocumentEdit> = Vec::new();
            let ghost view = edit.deep_view();
            changes.push(edit);
            assert(changes.deep_view() =~= seq![view]);
            Some(WorkspaceEdit { document_changes: Some(changes) })
        },
        None => None,
    }
}

/// Whether a name is defined anywhere.
pub open spec fn is_defined(defs: Seq<SymbolDefView>, name: Seq<char>) -> bool {
    first_def(defs, name) is Some
}

/// The edits that rename a name in the document of each of its definitions,
/// if each of these documents is open and has a URL.
pub open spec fn definition_edits(
    docs: Seq<DocumentView>,
    defs: Seq<SymbolDefView>,
    name: Seq<char>,
    new_name: Seq<char>,
) -> Option<Seq<TextDocumentEditView>>
    decreases defs.len(),
{
    if defs.len() == 0 {
        Some(Seq::empty())
    } else {
        let d = defs.last();
        let before = definition_edits(docs, defs.drop_last(), name, new_name);
        if d.name != name {
            before
        } else {
            match (before, text_of(docs, d.uri)) {
                (Some(edits), Some(text)) => match document_edit(
                    document_url(d.uri),
                    rename_edits(text, name, new_name),
                ) {
                    Some(edit) => Some(edits.push(edit)),
                    None => None,
                },
                _ => None,
            }
        }
    }
}

/// The rename of a name of the document `uri`: nowhere if the name stays the
/// same, in that document if the name is defined nowhere, else in the
/// documents that define it.
pub open spec fn rename_of(
    docs: Seq<DocumentView>,
    defs: Seq<SymbolDefView>,
    uri: Seq<char>,
    text: Seq<char>,
    name: Seq<char>,
    new_name: Seq<char>,
) -> Option<WorkspaceEditView> {
    if name == new_name {
        Some(no_edit())
    } else if !is_defined(defs, name) {
        single_rename(uri, text, name, new_name)
    } else {
        match definition_edits(docs, defs, name, new_name) {
            Some(edits) => Some(WorkspaceEditView { document_changes: Some(edits) }),
            None => None,
        }
    }
}

/// Once a rename fails for some definitions it fails for more.
proof fn lemma_definition_edits_none(
    docs: Seq<DocumentView>,
    defs: Seq<SymbolDefView>,
    name: Seq<char>,
    new_name: Seq<char>,
    count: int,
)
    requires
        0 <= count <= defs.len(),
        definition_edits(docs, defs.take(count), name, new_name) is None,
    ensures
        definition_edits(docs, defs, name, new_name) is None,
    decreases defs.len(),
{
    if count == defs.len() {
        assert(defs.take(count) =~= defs);
    } else {
        assert(defs.drop_last().take(count) =~= defs.take(count));
        lemma_definition_edits_none(docs, defs.drop_last(), name, new_name, count);
    }
}

fn edit_definitions(docs: &Vec<Document>, defs: &Vec<SymbolDef>, name: &str, new_name: &str) -> (r:
    Option<Vec<TextDocumentEdit>>)
    ensures
        r.deep_view() == definition_edits(
            docs.deep_view(),
            defs.deep_view(),
            name@,
            new_name@,
        ),
{
    let ghost all = defs.deep_view();
    let ghost documents = docs.deep_view();
    let mut out: Vec<TextDocumentEdit> = Vec::new();
    let mut i: usize = 0;
    assert(out.deep_view() =~= Seq::<TextDocumentEditView>::empty());
    while i < defs.len()
        invariant
            i <= defs@.len(),
            all == defs.deep_view(),
            documents == docs.deep_view(),
            definition_edits(documents, all.take(i as int), name@, new_name@) == Some(
                out.deep_view(),
            ),
        decreases defs@.len() - i,
    {
        let d: &SymbolDef = &defs[i];
        assert(all.take(i + 1).drop_last() =~= all.take(i as int));
        assert(all.take(i + 1).last() == d.deep_view());
        if same(d.name.as_str(), name) {
            let edit: Option<TextDocumentEdit> = match find_text(docs, d.uri.as_str()) {
                Some(text) => {
                    let edits: Vec<TextEdit> = compute_rename_edits(text.as_str(), name, new_name);
                    edit_document(parse_uri(d.uri.as_str()), edits)
                },
                None => None,
            };
            match edit {
                Some(edit) => {
                    let ghost before = out.deep_view();
                    let ghost view = edit.deep_view();
                    out.push(edit);
                    assert(out.deep_view() =~= before.push(view));
                },
                None => {
                    proof {
                        lemma_definition_edits_none(documents, all, name@, new_name@, i + 1);
                    }
                    return None;
                },
            }
        }
        i += 1;
    }
    assert(all.take(i as int) =~= all);
    Some(out)
}

/// The rename of a name of the document `uri`.
pub fn rename_symbol(
    docs: &Vec<Document>,
    defs: &Vec<SymbolDef>,
    uri: &str,
    text: &str,
    name: &str,
    new_name: &str,
) -> (r: Option<WorkspaceEdit>)
    ensures
        r.deep_view() == rename_of(
            docs.deep_view(),
            defs.deep_view(),
            uri@,
            text@,
            name@,
            new_name@,
        ),
{
    if same(name, new_name) {
        return Some(WorkspaceEdit { document_changes: None });
    }
    if find_def(defs, name).is_none() {
        return rename_in_single_document(uri, text, name, new_name);
    }
    match edit_definitions(docs, defs, name, new_name) {
        Some(edits) => Some(WorkspaceEdit { document_changes: Some(edits) }),
        None => None,
    }
}

} // verus!
