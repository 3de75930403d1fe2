//! The server's state: the open documents and the symbols that they define.

use crate::analysis::{
    collect_symbols, diagnose, diagnostics_of, lemma_outside_document, lemma_outside_document_add,
    lemma_outside_document_is_stable, lemma_symbols_alone, lemma_symbols_uri, outside_document,
    symbols_of, Analysis,
};
use crate::completion::{complete, completions, Binding, BindingView};
use crate::cursor::{
    has_word_prefix, is_word_prefix_at, token_at_position, word_at, word_prefix,
    word_prefix_at_position,
};
use crate::documents::{
    are_distinct, drop_document, find_text, index_of_uri, law_with_text, law_without_document,
    lemma_index_of_uri, lemma_index_of_uri_is, put_text, text_of, with_text, without_document,
    Document, DocumentView,
};
use crate::folding::{folding_ranges, get_folding_ranges};
use crate::protocol::{
    CodeAction, CodeActionKind, CodeActionView, CompletionItem, CompletionItemView, Diagnostic,
    DiagnosticView, DocumentHighlight, DocumentSymbol, FoldingRange, Hover, HoverView, Location,
    LocationView, Position, PublishDiagnostics, PublishDiagnosticsView, Range, SemanticToken,
    SignatureHelp, SignatureHelpView, SymbolInformation, WorkspaceEdit, WorkspaceEditView,
};
use crate::queries::{
    collect_highlights, collect_outline, collect_references, definition_of, find_def, first_def,
    highlights, hover_for, hover_of, locate_definition, outline, references, rename_of,
    rename_symbol, search, search_symbols,
};
use crate::semantic::{encode_semantic_tokens, semantic_tokens};
use crate::signature::{call_at, call_at_position, describe_call, signature_help, Call, CallView};
use crate::strings::{concat2, copied, same};
use crate::symbols::{SymbolDef, SymbolDefView};
use crate::syntax::{SpannedToken, SpannedTokenView};
use crate::uri::{document_url, parse_uri};
use vstd::prelude::*;

verus! {

/// The open documents and the symbols that they define.
pub struct Backend {
    documents: Vec<Document>,
    symbol_defs: Vec<SymbolDef>,
}

/// The state of the server, with its texts as character sequences.
#[verifier::ext_equal]
pub struct BackendView {
    pub documents: Seq<DocumentView>,
    pub symbol_defs: Seq<SymbolDefView>,
}

impl View for Backend {
    type V = BackendView;

    closed spec fn view(&self) -> BackendView {
        BackendView {
            documents: self.documents.deep_view(),
            symbol_defs: self.symbol_defs.deep_view(),
        }
    }
}

impl BackendView {
    /// Whether the state is well formed: no document is open twice, and every
    /// symbol is defined in an open document.
    pub open spec fn is_well_formed(self) -> bool {
        &&& are_distinct(self.documents)
        &&& forall|i: int|
            0 <= i < self.symbol_defs.len() ==> self.text_of(
                (#[trigger] self.symbol_defs[i]).uri,
            ) is Some
    }

    /// The text of an open document.
    pub open spec fn text_of(self, uri: Seq<char>) -> Option<Seq<char>> {
        text_of(self.documents, uri)
    }

    /// The word at a position of an open document.
    pub open spec fn word_at(self, uri: Seq<char>, pos: Position) -> Option<Seq<char>> {
        match self.text_of(uri) {
            Some(text) => word_at(text, pos),
            None => None,
        }
    }

    /// The state in which the symbols of a document are those of an analysis.
    pub open spec fn scanned(self, uri: Seq<char>, analysis: Analysis) -> BackendView {
        BackendView {
            documents: self.documents,
            symbol_defs: outside_document(self.symbol_defs, uri) + symbols_of(analysis, uri),
        }
    }

    /// The state after a document has been opened or changed.
    pub open spec fn opened(
        self,
        uri: Seq<char>,
        text: Seq<char>,
        analysis: Analysis,
    ) -> BackendView {
        BackendView {
            documents: with_text(self.documents, uri, text),
            symbol_defs: self.symbol_defs,
        }.scanned(uri, analysis)
    }

    /// The state after a document has been closed.
    pub open spec fn closed(self, uri: Seq<char>) -> BackendView {
        BackendView {
            documents: without_document(self.documents, uri),
            symbol_defs: outside_document(self.symbol_defs, uri),
        }
    }

    /// Whether a completion list can be made at a position: the document is
    /// not open, or a word prefix can be cut out before the cursor.
    pub open spec fn can_complete(self, uri: Seq<char>, pos: Position) -> bool {
        self.text_of(uri) matches Some(text) ==> has_word_prefix(text, pos)
    }

    /// The word prefix at a position; empty if the document is not open.
    pub open spec fn prefix_at(self, uri: Seq<char>, pos: Position) -> Seq<char> {
        match self.text_of(uri) {
            Some(text) => word_prefix(text, pos),
            None => Seq::empty(),
        }
    }

    /// The completion list at a position.
    pub open spec fn completions(
        self,
        uri: Seq<char>,
        pos: Position,
        bindings: Seq<BindingView>,
    ) -> Seq<CompletionItemView> {
        completions(bindings, self.symbol_defs, self.prefix_at(uri, pos))
    }

    /// The hover text at a position, where `help` is the help text of the word
    /// there.
    pub open spec fn hover(
        self,
        uri: Seq<char>,
        pos: Position,
        help: Option<Seq<char>>,
        bindings: Seq<BindingView>,
    ) -> Option<HoverView> {
        match self.word_at(uri, pos) {
            Some(word) => hover_of(word, help, bindings, self.symbol_defs),
            None => None,
        }
    }

    /// Where the word at a position is defined.
    pub open spec fn definition(self, uri: Seq<char>, pos: Position) -> Option<LocationView> {
        match self.word_at(uri, pos) {
            Some(word) => definition_of(self.symbol_defs, word, uri, pos),
            None => None,
        }
    }

    /// The call around a position of an open document.
    pub open spec fn call_at(self, uri: Seq<char>, pos: Position) -> Option<CallView> {
        match self.text_of(uri) {
            Some(text) => call_at(text, pos),
            None => None,
        }
    }

    /// The signature of the first definition of a name.
    pub open spec fn signature(self, name: Seq<char>) -> Option<Seq<char>> {
        match first_def(self.symbol_defs, name) {
            Some(d) => d.signature,
            None => None,
        }
    }

    /// The signature help at a position, where `help` is the help text of the
    /// call's head.
    pub open spec fn signature_help(
        self,
        uri: Seq<char>,
        pos: Position,
        help: Option<Seq<char>>,
    ) -> Option<SignatureHelpView> {
        match self.call_at(uri, pos) {
            Some(call) => Some(signature_help(call, help, self.signature(call.head))),
            None => None,
        }
    }

    /// The rename of the word at a position.
    pub open spec fn rename(self, uri: Seq<char>, pos: Position, new_name: Seq<char>) -> Option<
        WorkspaceEditView,
    > {
        match (self.text_of(uri), self.word_at(uri, pos)) {
            (Some(text), Some(word)) => rename_of(
                self.documents,
                self.symbol_defs,
                uri,
                text,
                word,
                new_name,
            ),
            _ => None,
        }
    }

    /// The references to the word at a position.
    pub open spec fn references(self, uri: Seq<char>, pos: Position) -> Seq<LocationView> {
        match self.word_at(uri, pos) {
            Some(word) => references(self.documents, word, uri, pos),
            None => Seq::empty(),
        }
    }

    /// The highlights of the word at a position.
    pub open spec fn highlights(self, uri: Seq<char>, pos: Position) -> Seq<DocumentHighlight> {
        match (self.text_of(uri), self.word_at(uri, pos)) {
            (Some(text), Some(word)) => highlights(text, word),
            _ => Seq::empty(),
        }
    }
}

/// The semantic tokens of a document that the lexer takes.
pub open spec fn tokens_of(tokens: Option<Seq<SpannedTokenView>>) -> Option<Seq<SemanticToken>> {
    match tokens {
        Some(tokens) => semantic_tokens(tokens),
        None => None,
    }
}

/// The diagnostics of a document, addressed to its URL, or else why they
/// cannot be published.
pub open spec fn published(
    uri: Seq<char>,
    url: Option<Seq<char>>,
    diagnostics: Seq<DiagnosticView>,
) -> Result<PublishDiagnosticsView, Seq<char>> {
    match url {
        Some(url) => Ok(PublishDiagnosticsView { uri: url, diagnostics }),
        None => Err("invalid URI: "@ + uri),
    }
}

/// The diagnostics of a document, addressed to its URL.
pub fn address_diagnostics(uri: &str, url: Option<String>, diagnostics: Vec<Diagnostic>) -> (r:
    Result<PublishDiagnostics, String>)
    ensures
        match r {
            Ok(p) => published(uri@, url.deep_view(), diagnostics.deep_view()) == Ok::<
                PublishDiagnosticsView,
                Seq<char>,
            >(p.deep_view()),
            Err(e) => published(uri@, url.deep_view(), diagnostics.deep_view()) == Err::<
                PublishDiagnosticsView,
                Seq<char>,
            >(e@),
        },
{
    match url {
        Some(url) => Ok(PublishDiagnostics { uri: url, diagnostics }),
        None => Err(concat2("invalid URI: ", uri)),
    }
}

/// Drops the definitions that stand in the document with a URI.
fn drop_defs(defs: &mut Vec<SymbolDef>, uri: &str)
    ensures
        final(defs).deep_view() == outside_document(old(defs).deep_view(), uri@),
{
    let ghost all = defs.deep_view();
    let mut i: usize = 0;
    let ghost mut seen: int = 0;
    assert(all.take(0) =~= Seq::<SymbolDefView>::empty());
    assert(all.skip(0) =~= all);
    assert(Seq::<SymbolDefView>::empty() + all =~= all);
    while i < defs.len()
        invariant
            i <= defs@.len(),
            0 <= seen <= all.len(),
            i == outside_document(all.take(seen), uri@).len(),
            defs.deep_view() == outside_document(all.take(seen), uri@) + all.skip(seen),
        decreases defs@.len() - i,
    {
        let ghost kept = outside_document(all.take(seen), uri@);
        let ghost before = defs.deep_view();
        assert(before.len() == kept.len() + all.skip(seen).len());
        assert(all.take(seen + 1).drop_last() =~= all.take(seen));
        assert(before[i as int] == all[seen]);
        assert(before[i as int] == defs@[i as int].deep_view());
        if same(defs[i].uri.as_str(), uri) {
            defs.remove(i);
            assert(defs.deep_view() =~= before.remove(i as int));
            assert(before.remove(i as int) =~= kept + all.skip(seen + 1));
        } else {
            i += 1;
            assert(kept + all.skip(seen) =~= kept.push(all[seen]) + all.skip(seen + 1));
        }
        proof {
            seen = seen + 1;
        }
    }
    proof {
        assert(defs.deep_view().len() == i);
        assert(all.skip(seen).len() == 0);
        assert(all.take(seen) =~= all);
        assert(defs.deep_view() =~= outside_document(all, uri@));
    }
}

/// A state stays well formed when the symbols of an open document are read
/// anew.
proof fn lemma_scanned_is_well_formed(v: BackendView, uri: Seq<char>, analysis: Analysis)
    requires
        are_distinct(v.documents),
        v.text_of(uri) is Some,
        forall|i: int|
            0 <= i < v.symbol_defs.len() && (#[trigger] v.symbol_defs[i]).uri != uri ==> v.text_of(
                v.symbol_defs[i].uri,
            ) is Some,
    ensures
        v.scanned(uri, analysis).is_well_formed(),
{
    let after = v.scanned(uri, analysis);
    let kept = outside_document(v.symbol_defs, uri);
    let new = symbols_of(analysis, uri);
    lemma_outside_document(v.symbol_defs, uri);
    lemma_symbols_uri(analysis, uri);
    assert forall|i: int| 0 <= i < after.symbol_defs.len() implies after.text_of(
        (#[trigger] after.symbol_defs[i]).uri,
    ) is Some by {
        if i < kept.len() {
            assert(after.symbol_defs[i] == kept[i]);
            let k = choose|k: int|
                0 <= k < v.symbol_defs.len() && v.symbol_defs[k] == kept[i];
            assert(v.symbol_defs[k].uri != uri);
        } else {
            assert(after.symbol_defs[i] == new[i - kept.len()]);
        }
    }
}

/// Opening or changing a document keeps the state well formed.
pub proof fn law_opened_is_well_formed(
    v: BackendView,
    uri: Seq<char>,
    text: Seq<char>,
    analysis: Analysis,
)
    requires
        v.is_well_formed(),
    ensures
        v.opened(uri, text, analysis).is_well_formed(),
{
    let mid = BackendView {
        documents: with_text(v.documents, uri, text),
        symbol_defs: v.symbol_defs,
    };
    law_with_text(v.documents, uri, text, uri);
    assert forall|i: int| 0 <= i < mid.symbol_defs.len() && (#[trigger] mid.symbol_defs[i]).uri
        != uri implies mid.text_of(mid.symbol_defs[i].uri) is Some by {
        law_with_text(v.documents, uri, text, v.symbol_defs[i].uri);
    }
    lemma_scanned_is_well_formed(mid, uri, analysis);
}

/// Closing a document keeps the state well formed.
pub proof fn law_closed_is_well_formed(v: BackendView, uri: Seq<char>)
    requires
        v.is_well_formed(),
    ensures
        v.closed(uri).is_well_formed(),
{
    let after = v.closed(uri);
    law_without_document(v.documents, uri, uri);
    lemma_outside_document(v.symbol_defs, uri);
    assert forall|i: int| 0 <= i < after.symbol_defs.len() implies after.text_of(
        (#[trigger] after.symbol_defs[i]).uri,
    ) is Some by {
        let k = choose|k: int|
            0 <= k < v.symbol_defs.len() && v.symbol_defs[k] == after.symbol_defs[i];
        assert(v.text_of(v.symbol_defs[k].uri) is Some);
        law_without_document(v.documents, uri, after.symbol_defs[i].uri);
    }
}

/// A document that has been opened or changed has the text that came with it,
/// and no other document changes.
pub proof fn law_opened_text(
    v: BackendView,
    uri: Seq<char>,
    text: Seq<char>,
    analysis: Analysis,
    other: Seq<char>,
)
    requires
        v.is_well_formed(),
    ensures
        v.opened(uri, text, analysis).text_of(uri) == Some(text),
        other != uri ==> v.opened(uri, text, analysis).text_of(other) == v.text_of(other),
{
    law_with_text(v.documents, uri, text, other);
}

/// The last change of a document is all that counts.
pub proof fn law_last_change_counts(
    v: BackendView,
    uri: Seq<char>,
    text: Seq<char>,
    analysis: Analysis,
    new_text: Seq<char>,
    new_analysis: Analysis,
)
    requires
        v.is_well_formed(),
    ensures
        v.opened(uri, text, analysis).opened(uri, new_text, new_analysis) == v.opened(
            uri,
            new_text,
            new_analysis,
        ),
{
    let once = v.opened(uri, text, analysis);
    let new = symbols_of(analysis, uri);
    let docs = with_text(v.documents, uri, text);
    law_with_text(v.documents, uri, text, uri);
    lemma_index_of_uri(v.documents, uri);
    lemma_index_of_uri(docs, uri);
    let at = match index_of_uri(v.documents, uri) {
        Some(i) => i,
        None => v.documents.len() as int,
    };
    assert(docs[at].uri == uri);
    lemma_index_of_uri_is(docs, uri, at);
    assert(with_text(docs, uri, new_text) =~= with_text(v.documents, uri, new_text));
    lemma_outside_document_add(outside_document(v.symbol_defs, uri), new, uri);
    lemma_outside_document_is_stable(v.symbol_defs, uri);
    lemma_symbols_are_inside(analysis, uri);
    assert(outside_document(once.symbol_defs, uri) =~= outside_document(v.symbol_defs, uri));
}

/// The symbols of a document are none but its own.
proof fn lemma_symbols_are_inside(analysis: Analysis, uri: Seq<char>)
    ensures
        outside_document(symbols_of(analysis, uri), uri).len() == 0,
{
    let new = symbols_of(analysis, uri);
    lemma_symbols_uri(analysis, uri);
    lemma_outside_document(new, uri);
    if outside_document(new, uri).len() > 0 {
        let d = outside_document(new, uri)[0];
        let k = choose|k: int| 0 <= k < new.len() && new[k] == d;
        assert(new[k].uri == uri);
    }
}

/// A closed document is forgotten: its text and all its symbols are gone, and
/// no other document changes.
pub proof fn law_closed_is_forgotten(v: BackendView, uri: Seq<char>, other: Seq<char>)
    requires
        v.is_well_formed(),
    ensures
        v.closed(uri).text_of(uri) is None,
        forall|i: int|
            0 <= i < v.closed(uri).symbol_defs.len() ==> (#[trigger] v.closed(
                uri,
            ).symbol_defs[i]).uri != uri,
        other != uri ==> v.closed(uri).text_of(other) == v.text_of(other),
        forall|i: int|
            0 <= i < v.symbol_defs.len() && (#[trigger] v.symbol_defs[i]).uri != uri ==> v.closed(
                uri,
            ).symbol_defs.contains(v.symbol_defs[i]),
{
    law_without_document(v.documents, uri, other);
    lemma_outside_document(v.symbol_defs, uri);
}

/// Closing a document that was opened anew undoes the opening.
pub proof fn law_close_undoes_open(
    v: BackendView,
    uri: Seq<char>,
    text: Seq<char>,
    analysis: Analysis,
)
    requires
        v.is_well_formed(),
        v.text_of(uri) is None,
    ensures
        v.opened(uri, text, analysis).closed(uri) == v,
{
    let once = v.opened(uri, text, analysis);
    law_with_text(v.documents, uri, text, uri);
    lemma_index_of_uri(v.documents, uri);
    let at = v.documents.len() as int;
    let docs = with_text(v.documents, uri, text);
    assert(docs[at].uri == uri);
    lemma_index_of_uri_is(docs, uri, at);
    assert(docs.remove(at) =~= v.documents);
    lemma_outside_document_add(
        outside_document(v.symbol_defs, uri),
        symbols_of(analysis, uri),
        uri,
    );
    lemma_outside_document_is_stable(v.symbol_defs, uri);
    lemma_symbols_are_inside(analysis, uri);
    lemma_nothing_inside(v.symbol_defs, uri, v);
    assert(once.closed(uri).symbol_defs =~= v.symbol_defs);
}

proof fn lemma_nothing_inside(defs: Seq<SymbolDefView>, uri: Seq<char>, v: BackendView)
    requires
        v.text_of(uri) is None,
        forall|i: int| 0 <= i < defs.len() ==> v.text_of((#[trigger] defs[i]).uri) is Some,
    ensures
        outside_document(defs, uri) == defs,
    decreases defs.len(),
{
    if defs.len() > 0 {
        let init = defs.drop_last();
        assert(forall|i: int| 0 <= i < init.len() ==> #[trigger] init[i] == defs[i]);
        lemma_nothing_inside(init, uri, v);
        assert(defs[defs.len() - 1] == defs.last());
        assert(init.push(defs.last()) =~= defs);
    } else {
        assert(outside_document(defs, uri) =~= defs);
    }
}

/// The one action that is offered for a diagnostic.
pub open spec fn dismiss_action() -> CodeActionView {
    CodeActionView {
        title: "Dismiss error"@,
        kind: CodeActionKind::QuickFix,
        is_preferred: true,
    }
}

impl Backend {
    /// A server without documents.
    pub fn new() -> (r: Backend)
        ensures
            r@.documents == Seq::<DocumentView>::empty(),
            r@.symbol_defs == Seq::<SymbolDefView>::empty(),
            r@.is_well_formed(),
    {
        let r = Backend { documents: Vec::new(), symbol_defs: Vec::new() };
        assert(r@.documents =~= Seq::<DocumentView>::empty());
        assert(r@.symbol_defs =~= Seq::<SymbolDefView>::empty());
        r
    }

    /// Opens a document.
    pub fn open_document(&mut self, uri: &str, text: &str, analysis: &Analysis)
        ensures
            final(self)@ == old(self)@.opened(uri@, text@, *analysis),
            old(self)@.is_well_formed() ==> final(self)@.is_well_formed(),
    {
        put_text(&mut self.documents, uri, text);
        self.scan_document(uri, analysis);
        proof {
            if old(self)@.is_well_formed() {
                law_opened_is_well_formed(old(self)@, uri@, text@, *analysis);
            }
        }
    }

    /// Changes the text of a document.
    pub fn update_document(&mut self, uri: &str, text: &str, analysis: &Analysis)
        ensures
            final(self)@ == old(self)@.opened(uri@, text@, *analysis),
            old(self)@.is_well_formed() ==> final(self)@.is_well_formed(),
    {
        self.open_document(uri, text, analysis);
    }

    /// Closes a document.
    pub fn close_document(&mut self, uri: &str)
        ensures
            final(self)@ == old(self)@.closed(uri@),
            old(self)@.is_well_formed() ==> final(self)@.is_well_formed(),
    {
        drop_document(&mut self.documents, uri);
        drop_defs(&mut self.symbol_defs, uri);
        proof {
            if old(self)@.is_well_formed() {
                law_closed_is_well_formed(old(self)@, uri@);
            }
        }
    }

    /// Reads the symbols of a document anew.
    pub fn scan_document(&mut self, uri: &str, analysis: &Analysis)
        ensures
            final(self)@ == old(self)@.scanned(uri@, *analysis),
            old(self)@.is_well_formed() && old(self)@.text_of(uri@) is Some
                ==> final(self)@.is_well_formed(),
    {
        drop_defs(&mut self.symbol_defs, uri);
        collect_symbols(analysis, uri, &mut self.symbol_defs);
        proof {
            let kept = outside_document(old(self)@.symbol_defs, uri@);
            lemma_outside_document(old(self)@.symbol_defs, uri@);
            lemma_symbols_alone(kept, *analysis, uri@);
            if old(self)@.is_well_formed() && old(self)@.text_of(uri@) is Some {
                lemma_scanned_is_well_formed(old(self)@, uri@, *analysis);
            }
        }
    }

    /// The text of an open document.
    pub fn document_text(&self, uri: &str) -> (r: Option<&String>)
        ensures
            r.deep_view() == self@.text_of(uri@),
    {
        find_text(&self.documents, uri)
    }

    /// The word at a position of an open document.
    pub fn word_at_position(&self, uri: &str, pos: Position) -> (r: Option<String>)
        ensures
            r.deep_view() == self@.word_at(uri@, pos),
    {
        match self.document_text(uri) {
            Some(text) => token_at_position(text.as_str(), pos),
            None => None,
        }
    }

    /// The call around a position of an open document.
    pub fn call_at_position(&self, uri: &str, pos: Position) -> (r: Option<Call>)
        ensures
            r.deep_view() == self@.call_at(uri@, pos),
    {
        match self.document_text(uri) {
            Some(text) => call_at_position(text.as_str(), pos),
            None => None,
        }
    }

    /// The diagnostics of a text.
    pub fn compute_diagnostics(&self, analysis: &Analysis) -> (r: Vec<Diagnostic>)
        ensures
            r.deep_view() == diagnostics_of(*analysis),
    {
        diagnose(analysis)
    }

    /// The diagnostics of a document, addressed to its URL.
    pub fn publish_diagnostics(&self, uri: &str, diagnostics: Vec<Diagnostic>) -> (r: Result<
        PublishDiagnostics,
        String,
    >)
        ensures
            match r {
                Ok(p) => published(uri@, document_url(uri@), diagnostics.deep_view()) == Ok::<
                    PublishDiagnosticsView,
                    Seq<char>,
                >(p.deep_view()),
                Err(e) => published(uri@, document_url(uri@), diagnostics.deep_view()) == Err::<
                    PublishDiagnosticsView,
                    Seq<char>,
                >(e@),
            },
    {
        address_diagnostics(uri, parse_uri(uri), diagnostics)
    }

    /// Whether a completion list can be made at a position.
    pub fn is_completable(&self, uri: &str, pos: Position) -> (r: bool)
        ensures
            r == self@.can_complete(uri@, pos),
    {
        match self.document_text(uri) {
            Some(text) => is_word_prefix_at(text.as_str(), pos),
            None => true,
        }
    }

    /// The completion list at a position.
    pub fn get_completions(&self, uri: &str, pos: Position, bindings: &Vec<Binding>) -> (r: Vec<
        CompletionItem,
    >)
        requires
            self@.can_complete(uri@, pos),
        ensures
            r.deep_view() == self@.completions(uri@, pos, bindings.deep_view()),
    {
        let prefix: String = match self.document_text(uri) {
            Some(text) => word_prefix_at_position(text.as_str(), pos),
            None => String::new(),
        };
        complete(bindings, &self.symbol_defs, prefix.as_str())
    }

    /// The hover text at a position.
    pub fn get_hover(
        &self,
        uri: &str,
        pos: Position,
        help: &Option<String>,
        bindings: &Vec<Binding>,
    ) -> (r: Option<Hover>)
        ensures
            r.deep_view() == self@.hover(uri@, pos, help.deep_view(), bindings.deep_view()),
    {
        match self.word_at_position(uri, pos) {
            Some(word) => hover_for(word.as_str(), help, bindings, &self.symbol_defs),
            None => None,
        }
    }

    /// Where the word at a position is defined.
    pub fn get_definition(&self, uri: &str, pos: Position) -> (r: Option<Location>)
        ensures
            r.deep_view() == self@.definition(uri@, pos),
    {
        match self.word_at_position(uri, pos) {
            Some(word) => locate_definition(&self.symbol_defs, word.as_str(), uri, pos),
            None => None,
        }
    }

    /// The outline of a document.
    pub fn get_document_symbols(&self, uri: &str) -> (r: Vec<DocumentSymbol>)
        ensures
            r.deep_view() == outline(self@.symbol_defs, uri@),
    {
        collect_outline(&self.symbol_defs, uri)
    }

    /// The signature help at a position.
    pub fn get_signature_help(&self, uri: &str, pos: Position, help: &Option<String>) -> (r: Option<
        SignatureHelp,
    >)
        ensures
            r.deep_view() == self@.signature_help(uri@, pos, help.deep_view()),
    {
        let call: Call = match self.call_at_position(uri, pos) {
            Some(call) => call,
            None => {
                return None;
            },
        };
        let signature: Option<String> = match find_def(&self.symbol_defs, call.head.as_str()) {
            Some(d) => match &d.signature {
                Some(signature) => Some(copied(signature.as_str())),
                None => None,
            },
            None => None,
        };
        Some(describe_call(&call, help, &signature))
    }

    /// The rename of the word at a position.
    pub fn get_rename(&self, uri: &str, pos: Position, new_name: &str) -> (r: Option<WorkspaceEdit>)
        ensures
            r.deep_view() == self@.rename(uri@, pos, new_name@),
    {
        let text: &String = match self.document_text(uri) {
            Some(text) => text,
            None => {
                return None;
            },
        };
        match token_at_position(text.as_str(), pos) {
            Some(word) => rename_symbol(
                &self.documents,
                &self.symbol_defs,
                uri,
                text.as_str(),
                word.as_str(),
                new_name,
            ),
            None => None,
        }
    }

    /// The definitions of all documents that are found by a query.
    pub fn get_workspace_symbols(&self, query: &str) -> (r: Vec<SymbolInformation>)
        ensures
            r.deep_view() == search(self@.symbol_defs, query@),
    {
        search_symbols(&self.symbol_defs, query)
    }

    /// The references to the word at a position.
    pub fn get_references(&self, uri: &str, pos: Position) -> (r: Vec<Location>)
        ensures
            r.deep_view() == self@.references(uri@, pos),
    {
        match self.word_at_position(uri, pos) {
            Some(word) => collect_references(&self.documents, word.as_str(), uri, pos),
            None => {
                let none: Vec<Location> = Vec::new();
                assert(none.deep_view() =~= Seq::<LocationView>::empty());
                none
            },
        }
    }

    /// The actions that are offered for a range of a document.
    pub fn get_code_actions(&self, uri: &str, range: Range) -> (r: Vec<CodeAction>)
        ensures
            r.deep_view() == seq![dismiss_action()],
    {
        let mut out: Vec<CodeAction> = Vec::new();
        out.push(
            CodeAction {
                title: copied("Dismiss error"),
                kind: CodeActionKind::QuickFix,
                is_preferred: true,
            },
        );
        assert(out.deep_view() =~= seq![dismiss_action()]);
        out
    }

    /// The folding ranges of a text.
    pub fn get_folding_ranges(&self, text: &str) -> (r: Vec<FoldingRange>)
        ensures
            r@ == folding_ranges(text@),
    {
        get_folding_ranges(text)
    }

    /// The semantic tokens of a text, given its tokens if the lexer takes it.
    pub fn get_semantic_tokens(&self, tokens: &Option<Vec<SpannedToken>>) -> (r: Option<
        Vec<SemanticToken>,
    >)
        ensures
            match r {
                Some(encoded) => tokens_of(tokens.deep_view()) == Some(encoded@),
                None => tokens_of(tokens.deep_view()) is None,
            },
    {
        match tokens {
            Some(tokens) => encode_semantic_tokens(tokens),
            None => None,
        }
    }

    /// The highlights of the word at a position.
    pub fn get_document_highlights(&self, uri: &str, pos: Position) -> (r: Vec<DocumentHighlight>)
        ensures
            r@ == self@.highlights(uri@, pos),
    {
        let text: &String = match self.document_text(uri) {
            Some(text) => text,
            None => {
                return Vec::new();
            },
        };
        match token_at_position(text.as_str(), pos) {
            Some(word) => collect_highlights(text.as_str(), word.as_str()),
            None => Vec::new(),
        }
    }
}

} // verus!
