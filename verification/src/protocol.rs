//! The values that the server exchanges with an editor. Texts are viewed as
//! character sequences: the deep view of each type is its `..View`.

use vstd::prelude::*;

verus! {

/// A cursor position: line and column, both counted from zero.
#[derive(Clone, Copy, Debug, PartialEq, Eq, Structural)]
pub struct Position {
    pub line: u32,
    pub character: u32,
}

/// The positions from `start` up to `end`.
#[derive(Clone, Copy, Debug, PartialEq, Eq, Structural)]
pub struct Range {
    pub start: Position,
    pub end: Position,
}

impl Range {
    /// The empty range at the start of a document.
    pub open spec fn zero_spec() -> Range {
        Range {
            start: Position { line: 0, character: 0 },
            end: Position { line: 0, character: 0 },
        }
    }

    /// The empty range at the start of a document.
    pub fn zero() -> (r: Range)
        ensures
            r == Range::zero_spec(),
    {
        Range {
            start: Position { line: 0, character: 0 },
            end: Position { line: 0, character: 0 },
        }
    }
}

/// What a symbol is.
#[derive(Clone, Copy, Debug, PartialEq, Eq, Structural)]
pub enum SymbolKind {
    Variable,
    Function,
    Class,
    Module,
}

/// What a completion inserts.
#[derive(Clone, Copy, Debug, PartialEq, Eq, Structural)]
pub enum CompletionItemKind {
    Variable,
    Function,
    Class,
    Module,
}

/// What a folding range hides.
#[derive(Clone, Copy, Debug, PartialEq, Eq, Structural)]
pub enum FoldingRangeKind {
    Comment,
    Region,
}

/// How serious a diagnostic is.
#[derive(Clone, Copy, Debug, PartialEq, Eq, Structural)]
pub enum DiagnosticSeverity {
    Error,
}

/// The markup of a hover text.
#[derive(Clone, Copy, Debug, PartialEq, Eq, Structural)]
pub enum MarkupKind {
    Markdown,
}

/// How an occurrence is highlighted.
#[derive(Clone, Copy, Debug, PartialEq, Eq, Structural)]
pub enum DocumentHighlightKind {
    Text,
}

/// The family of a code action.
#[derive(Clone, Copy, Debug, PartialEq, Eq, Structural)]
pub enum CodeActionKind {
    QuickFix,
}

/// Why a request is refused.
#[derive(Clone, Copy, Debug, PartialEq, Eq, Structural)]
pub enum ErrorKind {
    InvalidParams,
}

/// A range in a document.
#[derive(Debug)]
pub struct Location {
    pub uri: String,
    pub range: Range,
}

#[verifier::ext_equal]
pub struct LocationView {
    pub uri: Seq<char>,
    pub range: Range,
}

impl DeepView for Location {
    type V = LocationView;

    open spec fn deep_view(&self) -> LocationView {
        LocationView { uri: self.uri@, range: self.range }
    }
}

/// The replacement of a range by a text.
#[derive(Debug)]
pub struct TextEdit {
    pub range: Range,
    pub new_text: String,
}

#[verifier::ext_equal]
pub struct TextEditView {
    pub range: Range,
    pub new_text: Seq<char>,
}

impl DeepView for TextEdit {
    type V = TextEditView;

    open spec fn deep_view(&self) -> TextEditView {
        TextEditView { range: self.range, new_text: self.new_text@ }
    }
}

/// The edits of one document.
#[derive(Debug)]
pub struct TextDocumentEdit {
    pub uri: String,
    pub edits: Vec<TextEdit>,
}

#[verifier::ext_equal]
pub struct TextDocumentEditView {
    pub uri: Seq<char>,
    pub edits: Seq<TextEditView>,
}

impl DeepView for TextDocumentEdit {
    type V = TextDocumentEditView;

    open spec fn deep_view(&self) -> TextDocumentEditView {
        TextDocumentEditView { uri: self.uri@, edits: self.edits.deep_view() }
    }
}

/// The edits of a whole workspace; none at all where there is nothing to do.
#[derive(Debug)]
pub struct WorkspaceEdit {
    pub document_changes: Option<Vec<TextDocumentEdit>>,
}

#[verifier::ext_equal]
pub struct WorkspaceEditView {
    pub document_changes: Option<Seq<TextDocumentEditView>>,
}

impl DeepView for WorkspaceEdit {
    type V = WorkspaceEditView;

    open spec fn deep_view(&self) -> WorkspaceEditView {
        WorkspaceEditView { document_changes: self.document_changes.deep_view() }
    }
}

/// A message about a range of a document.
#[derive(Debug)]
pub struct Diagnostic {
    pub range: Range,
    pub severity: DiagnosticSeverity,
    pub message: String,
    pub source: String,
}

#[verifier::ext_equal]
pub struct DiagnosticView {
    pub range: Range,
    pub severity: DiagnosticSeverity,
    pub message: Seq<char>,
    pub source: Seq<char>,
}

impl DeepView for Diagnostic {
    type V = DiagnosticView;

    open spec fn deep_view(&self) -> DiagnosticView {
        DiagnosticView {
            range: self.range,
            severity: self.severity,
            message: self.message@,
            source: self.source@,
        }
    }
}

/// All diagnostics of one document.
#[derive(Debug)]
pub struct PublishDiagnostics {
    pub uri: String,
    pub diagnostics: Vec<Diagnostic>,
}

#[verifier::ext_equal]
pub struct PublishDiagnosticsView {
    pub uri: Seq<char>,
    pub diagnostics: Seq<DiagnosticView>,
}

impl DeepView for PublishDiagnostics {
    type V = PublishDiagnosticsView;

    open spec fn deep_view(&self) -> PublishDiagnosticsView {
        PublishDiagnosticsView { uri: self.uri@, diagnostics: self.diagnostics.deep_view() }
    }
}

/// One proposal of a completion list.
#[derive(Debug)]
pub struct CompletionItem {
    pub label: String,
    pub kind: CompletionItemKind,
    pub detail: String,
    pub insert_text: String,
}

#[verifier::ext_equal]
pub struct CompletionItemView {
    pub label: Seq<char>,
    pub kind: CompletionItemKind,
    pub detail: Seq<char>,
    pub insert_text: Seq<char>,
}

impl DeepView for CompletionItem {
    type V = CompletionItemView;

    open spec fn deep_view(&self) -> CompletionItemView {
        CompletionItemView {
            label: self.label@,
            kind: self.kind,
            detail: self.detail@,
            insert_text: self.insert_text@,
        }
    }
}

/// The text that is shown over a symbol.
#[derive(Debug)]
pub struct Hover {
    pub kind: MarkupKind,
    pub value: String,
}

#[verifier::ext_equal]
pub struct HoverView {
    pub kind: MarkupKind,
    pub value: Seq<char>,
}

impl DeepView for Hover {
    type V = HoverView;

    open spec fn deep_view(&self) -> HoverView {
        HoverView { kind: self.kind, value: self.value@ }
    }
}

/// One entry of a document's outline.
#[derive(Debug)]
pub struct DocumentSymbol {
    pub name: String,
    pub detail: String,
    pub kind: SymbolKind,
    pub range: Range,
    pub selection_range: Range,
}

#[verifier::ext_equal]
pub struct DocumentSymbolView {
    pub name: Seq<char>,
    pub detail: Seq<char>,
    pub kind: SymbolKind,
    pub range: Range,
    pub selection_range: Range,
}

impl DeepView for DocumentSymbol {
    type V = DocumentSymbolView;

    open spec fn deep_view(&self) -> DocumentSymbolView {
        DocumentSymbolView {
            name: self.name@,
            detail: self.detail@,
            kind: self.kind,
            range: self.range,
            selection_range: self.selection_range,
        }
    }
}

/// One hit of a workspace symbol search.
#[derive(Debug)]
pub struct SymbolInformation {
    pub name: String,
    pub kind: SymbolKind,
    pub location: Location,
}

#[verifier::ext_equal]
pub struct SymbolInformationView {
    pub name: Seq<char>,
    pub kind: SymbolKind,
    pub location: LocationView,
}

impl DeepView for SymbolInformation {
    type V = SymbolInformationView;

    open spec fn deep_view(&self) -> SymbolInformationView {
        SymbolInformationView {
            name: self.name@,
            kind: self.kind,
            location: self.location.deep_view(),
        }
    }
}

/// The signature of the call around the cursor.
#[derive(Debug)]
pub struct SignatureHelp {
    pub label: String,
    pub documentation: Option<String>,
    pub parameters: Option<Vec<String>>,
    pub active_signature: u32,
    pub active_parameter: u32,
}

#[verifier::ext_equal]
pub struct SignatureHelpView {
    pub label: Seq<char>,
    pub documentation: Option<Seq<char>>,
    pub parameters: Option<Seq<Seq<char>>>,
    pub active_signature: u32,
    pub active_parameter: u32,
}

impl DeepView for SignatureHelp {
    type V = SignatureHelpView;

    open spec fn deep_view(&self) -> SignatureHelpView {
        SignatureHelpView {
            label: self.label@,
            documentation: self.documentation.deep_view(),
            parameters: self.parameters.deep_view(),
            active_signature: self.active_signature,
            active_parameter: self.active_parameter,
        }
    }
}

/// An action that the editor offers at a diagnostic.
#[derive(Debug)]
pub struct CodeAction {
    pub title: String,
    pub kind: CodeActionKind,
    pub is_preferred: bool,
}

#[verifier::ext_equal]
pub struct CodeActionView {
    pub title: Seq<char>,
    pub kind: CodeActionKind,
    pub is_preferred: bool,
}

impl DeepView for CodeAction {
    type V = CodeActionView;

    open spec fn deep_view(&self) -> CodeActionView {
        CodeActionView { title: self.title@, kind: self.kind, is_preferred: self.is_preferred }
    }
}

/// A part of a document that can be collapsed.
#[derive(Clone, Copy, Debug, PartialEq, Eq, Structural)]
pub struct FoldingRange {
    pub start_line: u32,
    pub start_character: u32,
    pub end_line: u32,
    pub end_character: u32,
    pub kind: FoldingRangeKind,
}

/// A highlighted token, placed relative to the token before it.
#[derive(Clone, Copy, Debug, PartialEq, Eq, Structural)]
pub struct SemanticToken {
    pub delta_line: u32,
    pub delta_start: u32,
    pub length: u32,
    pub token_type: u32,
    pub token_modifiers_bitset: u32,
}

/// An occurrence of the symbol under the cursor.
#[derive(Clone, Copy, Debug, PartialEq, Eq, Structural)]
pub struct DocumentHighlight {
    pub range: Range,
    pub kind: DocumentHighlightKind,
}

} // verus!
