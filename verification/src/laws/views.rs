//! What the contracts say of a value.
//!
//! The contracts speak of values with their texts as character sequences. These
//! laws say that nothing is lost on the way: each field of such a view holds what
//! the field of the same name holds.

use crate::completion::Binding;
use crate::documents::Document;
use crate::protocol::{
    CodeAction, CompletionItem, Diagnostic, DocumentSymbol, Hover, Location, PublishDiagnostics,
    SignatureHelp, SymbolInformation, TextDocumentEdit, TextEdit, WorkspaceEdit,
};
use crate::server::{
    Action, ActionView, NotificationAction, NotificationActionView, Reply, ReplyView,
};
use crate::signature::Call;
use crate::symbols::SymbolDef;
use crate::syntax::{FixedToken, SpannedToken, Token, TokenView};
use vstd::prelude::*;

verus! {

/// The views of places and edits in documents.
pub proof fn law_views_of_places(
    location: Location,
    edit: TextEdit,
    document: TextDocumentEdit,
    workspace: WorkspaceEdit,
)
    ensures
        location.deep_view().uri == location.uri@,
        location.deep_view().range == location.range,
        edit.deep_view().range == edit.range,
        edit.deep_view().new_text == edit.new_text@,
        document.deep_view().uri == document.uri@,
        document.deep_view().edits == document.edits.deep_view(),
        workspace.document_changes is None ==> workspace.deep_view().document_changes is None,
        workspace.document_changes matches Some(changes) ==> workspace.deep_view().document_changes
            == Some(changes.deep_view()),
{
}

/// The views of diagnostics and of actions that are offered for them.
pub proof fn law_views_of_diagnostics(d: Diagnostic, p: PublishDiagnostics, action: CodeAction)
    ensures
        d.deep_view().range == d.range,
        d.deep_view().severity == d.severity,
        d.deep_view().message == d.message@,
        d.deep_view().source == d.source@,
        p.deep_view().uri == p.uri@,
        p.deep_view().diagnostics == p.diagnostics.deep_view(),
        action.deep_view().title == action.title@,
        action.deep_view().kind == action.kind,
        action.deep_view().is_preferred == action.is_preferred,
{
}

/// The views of proposals, hover texts and signature help.
pub proof fn law_views_of_proposals(item: CompletionItem, hover: Hover, help: SignatureHelp)
    ensures
        item.deep_view().label == item.label@,
        item.deep_view().kind == item.kind,
        item.deep_view().detail == item.detail@,
        item.deep_view().insert_text == item.insert_text@,
        hover.deep_view().kind == hover.kind,
        hover.deep_view().value == hover.value@,
        help.deep_view().label == help.label@,
        help.deep_view().active_signature == help.active_signature,
        help.deep_view().active_parameter == help.active_parameter,
        help.documentation is None ==> help.deep_view().documentation is None,
        help.documentation matches Some(text) ==> help.deep_view().documentation == Some(text@),
        help.parameters is None ==> help.deep_view().parameters is None,
        help.parameters matches Some(names) ==> help.deep_view().parameters == Some(
            names.deep_view(),
        ),
{
}

/// The views of symbols, of bindings and of calls.
pub proof fn law_views_of_symbols(
    d: SymbolDef,
    entry: DocumentSymbol,
    hit: SymbolInformation,
    b: Binding,
    call: Call,
)
    ensures
        d.deep_view().name == d.name@,
        d.deep_view().uri == d.uri@,
        d.deep_view().range == d.range,
        d.deep_view().kind == d.kind,
        d.deep_view().detail == d.detail@,
        d.signature is None ==> d.deep_view().signature is None,
        d.signature matches Some(text) ==> d.deep_view().signature == Some(text@),
        entry.deep_view().name == entry.name@,
        entry.deep_view().detail == entry.detail@,
        entry.deep_view().kind == entry.kind,
        entry.deep_view().range == entry.range,
        entry.deep_view().selection_range == entry.selection_range,
        hit.deep_view().name == hit.name@,
        hit.deep_view().kind == hit.kind,
        hit.deep_view().location == hit.location.deep_view(),
        b.deep_view().name == b.name@,
        b.deep_view().value == b.value@,
        call.deep_view().head == call.head@,
        call.deep_view().commas == call.commas,
{
}

/// The views of documents and of tokens.
pub proof fn law_views_of_documents_and_tokens(
    document: Document,
    spanned: SpannedToken,
    s: String,
    n: u64,
    t: FixedToken,
)
    ensures
        document.deep_view().uri == document.uri@,
        document.deep_view().text == document.text@,
        spanned.deep_view().token == spanned.token.deep_view(),
        spanned.deep_view().span == spanned.span,
        Token::Ident(s).deep_view() == TokenView::Ident(s@),
        Token::Integer(s).deep_view() == TokenView::Integer(s@),
        Token::Real(s).deep_view() == TokenView::Real(s@),
        Token::Str(s).deep_view() == TokenView::Str(s@),
        Token::Operator(s).deep_view() == TokenView::Operator(s@),
        Token::SlotN(n).deep_view() == TokenView::SlotN(n),
        Token::SlotSequenceN(n).deep_view() == TokenView::SlotSequenceN(n),
        Token::Fixed(t).deep_view() == TokenView::Fixed(t),
{
}

/// The views of replies.
pub proof fn law_views_of_replies(reply: Reply)
    ensures
        reply.deep_view() == (match reply {
            Reply::Completion(x) => ReplyView::Completion(x.deep_view()),
            Reply::Hover(x) => ReplyView::Hover(x.deep_view()),
            Reply::Definition(x) => ReplyView::Definition(x.deep_view()),
            Reply::DocumentSymbol(x) => ReplyView::DocumentSymbol(x.deep_view()),
            Reply::SignatureHelp(x) => ReplyView::SignatureHelp(x.deep_view()),
            Reply::Rename(x) => ReplyView::Rename(x.deep_view()),
            Reply::WorkspaceSymbol(x) => ReplyView::WorkspaceSymbol(x.deep_view()),
            Reply::References(x) => ReplyView::References(x.deep_view()),
            Reply::CodeAction(x) => ReplyView::CodeAction(x.deep_view()),
            Reply::FoldingRange(x) => ReplyView::FoldingRange(x@),
            Reply::SemanticTokens(x) => ReplyView::SemanticTokens(x@),
            Reply::DocumentHighlight(x) => ReplyView::DocumentHighlight(x@),
            Reply::Error { kind, message } => ReplyView::Error { kind, message: message@ },
        }),
{
}

/// The views of what is to be done about a message.
pub proof fn law_views_of_actions(action: Action, other: NotificationAction)
    ensures
        action.deep_view() == (match action {
            Action::Reply(reply) => ActionView::Reply(reply.deep_view()),
            Action::AskHelp(name) => ActionView::AskHelp(name@),
            Action::AskBindings => ActionView::AskBindings,
            Action::AskTokens(text) => ActionView::AskTokens(text@),
            Action::BadCursor => ActionView::BadCursor,
        }),
        other.deep_view() == (match other {
            NotificationAction::Analyze(text) => NotificationActionView::Analyze(text@),
            NotificationAction::Publish(p) => NotificationActionView::Publish(p.deep_view()),
            NotificationAction::Fail(message) => NotificationActionView::Fail(message@),
            NotificationAction::Nothing => NotificationActionView::Nothing,
        }),
{
}

} // verus!
