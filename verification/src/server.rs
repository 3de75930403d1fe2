//! The server's decisions: how each message is answered, and what has to be
//! asked of the language before it can be.

use crate::analysis::{diagnostics_of, Analysis};
use crate::backend::{
    dismiss_action, law_close_undoes_open, published, tokens_of, Backend, BackendView,
};
use crate::completion::{Binding, BindingView};
use crate::folding::folding_ranges;
use crate::protocol::{
    CodeAction, CodeActionView, CompletionItem, CompletionItemView, Diagnostic, DiagnosticView,
    DocumentHighlight, DocumentSymbol, DocumentSymbolView, ErrorKind, FoldingRange, Hover,
    HoverView, Location, LocationView, Position, PublishDiagnostics, PublishDiagnosticsView, Range,
    SemanticToken, SignatureHelp, SignatureHelpView, SymbolInformation, SymbolInformationView,
    WorkspaceEdit, WorkspaceEditView,
};
use crate::queries::{outline, search};
use crate::strings::{concat3, copied, same};
use crate::syntax::SpannedToken;
use crate::uri::document_url;
use vstd::prelude::*;

verus! {

// ---------------------------------------------------------------------
// Methods
// ---------------------------------------------------------------------

/// The requests that the server answers.
#[derive(Clone, Copy, Debug, PartialEq, Eq, Structural)]
pub enum Method {
    Completion,
    Hover,
    Definition,
    DocumentSymbol,
    SignatureHelp,
    Rename,
    WorkspaceSymbol,
    References,
    CodeAction,
    FoldingRange,
    SemanticTokens,
    DocumentHighlight,
}

/// The request with a method name; other requests are not answered.
pub open spec fn method_named(name: Seq<char>) -> Option<Method> {
    if name == "textDocument/completion"@ {
        Some(Method::Completion)
    } else if name == "textDocument/hover"@ {
        Some(Method::Hover)
    } else if name == "textDocument/definition"@ {
        Some(Method::Definition)
    } else if name == "textDocument/documentSymbol"@ {
        Some(Method::DocumentSymbol)
    } else if name == "textDocument/signatureHelp"@ {
        Some(Method::SignatureHelp)
    } else if name == "textDocument/rename"@ {
        Some(Method::Rename)
    } else if name == "workspace/symbol"@ {
        Some(Method::WorkspaceSymbol)
    } else if name == "textDocument/references"@ {
        Some(Method::References)
    } else if name == "textDocument/codeAction"@ {
        Some(Method::CodeAction)
    } else if name == "textDocument/foldingRange"@ {
        Some(Method::FoldingRange)
    } else if name == "textDocument/semanticTokens/full"@ {
        Some(Method::SemanticTokens)
    } else if name == "textDocument/documentHighlight"@ {
        Some(Method::DocumentHighlight)
    } else {
        None
    }
}

/// The request with a method name.
pub fn route_request(name: &str) -> (r: Option<Method>)
    ensures
        r == method_named(name@),
{
    if same(name, "textDocument/completion") {
        Some(Method::Completion)
    } else if same(name, "textDocument/hover") {
        Some(Method::Hover)
    } else if same(name, "textDocument/definition") {
        Some(Method::Definition)
    } else if same(name, "textDocument/documentSymbol") {
        Some(Method::DocumentSymbol)
    } else if same(name, "textDocument/signatureHelp") {
        Some(Method::SignatureHelp)
    } else if same(name, "textDocument/rename") {
        Some(Method::Rename)
    } else if same(name, "workspace/symbol") {
        Some(Method::WorkspaceSymbol)
    } else if same(name, "textDocument/references") {
        Some(Method::References)
    } else if same(name, "textDocument/codeAction") {
        Some(Method::CodeAction)
    } else if same(name, "textDocument/foldingRange") {
        Some(Method::FoldingRange)
    } else if same(name, "textDocument/semanticTokens/full") {
        Some(Method::SemanticTokens)
    } else if same(name, "textDocument/documentHighlight") {
        Some(Method::DocumentHighlight)
    } else {
        None
    }
}

/// The method name of a request.
pub open spec fn method_name(method: Method) -> Seq<char> {
    match method {
        Method::Completion => "textDocument/completion"@,
        Method::Hover => "textDocument/hover"@,
        Method::Definition => "textDocument/definition"@,
        Method::DocumentSymbol => "textDocument/documentSymbol"@,
        Method::SignatureHelp => "textDocument/signatureHelp"@,
        Method::Rename => "textDocument/rename"@,
        Method::WorkspaceSymbol => "workspace/symbol"@,
        Method::References => "textDocument/references"@,
        Method::CodeAction => "textDocument/codeAction"@,
        Method::FoldingRange => "textDocument/foldingRange"@,
        Method::SemanticTokens => "textDocument/semanticTokens/full"@,
        Method::DocumentHighlight => "textDocument/documentHighlight"@,
    }
}

/// A method name stands for one request, and every request has its own.
pub proof fn law_methods_have_names_of_their_own(name: Seq<char>, method: Method)
    ensures
        method_named(name) == Some(method) <==> name == method_name(method),
{
    reveal_strlit("textDocument/completion");
    reveal_strlit("textDocument/hover");
    reveal_strlit("textDocument/definition");
    reveal_strlit("textDocument/documentSymbol");
    reveal_strlit("textDocument/signatureHelp");
    reveal_strlit("textDocument/rename");
    reveal_strlit("workspace/symbol");
    reveal_strlit("textDocument/references");
    reveal_strlit("textDocument/codeAction");
    reveal_strlit("textDocument/foldingRange");
    reveal_strlit("textDocument/semanticTokens/full");
    reveal_strlit("textDocument/documentHighlight");
    assert("textDocument/completion"@.len() == 23);
    assert("textDocument/hover"@.len() == 18);
    assert("textDocument/definition"@.len() == 23);
    assert("textDocument/documentSymbol"@.len() == 27);
    assert("textDocument/signatureHelp"@.len() == 26);
    assert("textDocument/rename"@.len() == 19);
    assert("workspace/symbol"@.len() == 16);
    assert("textDocument/references"@.len() == 23);
    assert("textDocument/codeAction"@.len() == 23);
    assert("textDocument/foldingRange"@.len() == 25);
    assert("textDocument/semanticTokens/full"@.len() == 32);
    assert("textDocument/documentHighlight"@.len() == 30);
    // Four of the names are equally long.
    assert("textDocument/completion"@[13] == 'c' && "textDocument/completion"@[15] == 'm');
    assert("textDocument/definition"@[13] == 'd');
    assert("textDocument/references"@[13] == 'r');
    assert("textDocument/codeAction"@[13] == 'c' && "textDocument/codeAction"@[15] == 'd');
}

/// What the parameters of a request are called in messages.
pub open spec fn params_label(method: Method) -> Seq<char> {
    match method {
        Method::Completion => "completion"@,
        Method::Hover => "hover"@,
        Method::Definition => "definition"@,
        Method::DocumentSymbol => "documentSymbol"@,
        Method::SignatureHelp => "signatureHelp"@,
        Method::Rename => "rename"@,
        Method::WorkspaceSymbol => "workspaceSymbol"@,
        Method::References => "references"@,
        Method::CodeAction => "codeAction"@,
        Method::FoldingRange => "foldingRange"@,
        Method::SemanticTokens => "semanticTokens"@,
        Method::DocumentHighlight => "documentHighlight"@,
    }
}

fn label_of(method: Method) -> (r: &'static str)
    ensures
        r@ == params_label(method),
{
    match method {
        Method::Completion => "completion",
        Method::Hover => "hover",
        Method::Definition => "definition",
        Method::DocumentSymbol => "documentSymbol",
        Method::SignatureHelp => "signatureHelp",
        Method::Rename => "rename",
        Method::WorkspaceSymbol => "workspaceSymbol",
        Method::References => "references",
        Method::CodeAction => "codeAction",
        Method::FoldingRange => "foldingRange",
        Method::SemanticTokens => "semanticTokens",
        Method::DocumentHighlight => "documentHighlight",
    }
}

/// The notifications that the server acts on.
#[derive(Clone, Copy, Debug, PartialEq, Eq, Structural)]
pub enum NotificationMethod {
    DidOpen,
    DidChange,
    DidClose,
}

/// The notification with a method name; other notifications are ignored, that
/// of a saved document among them.
pub open spec fn notification_named(name: Seq<char>) -> Option<NotificationMethod> {
    if name == "textDocument/didOpen"@ {
        Some(NotificationMethod::DidOpen)
    } else if name == "textDocument/didChange"@ {
        Some(NotificationMethod::DidChange)
    } else if name == "textDocument/didClose"@ {
        Some(NotificationMethod::DidClose)
    } else {
        None
    }
}

/// The notification with a method name.
pub fn route_notification(name: &str) -> (r: Option<NotificationMethod>)
    ensures
        r == notification_named(name@),
{
    if same(name, "textDocument/didOpen") {
        Some(NotificationMethod::DidOpen)
    } else if same(name, "textDocument/didChange") {
        Some(NotificationMethod::DidChange)
    } else if same(name, "textDocument/didClose") {
        Some(NotificationMethod::DidClose)
    } else {
        None
    }
}

// ---------------------------------------------------------------------
// Requests
// ---------------------------------------------------------------------

/// A request with its parameters.
#[derive(Debug)]
pub enum Request {
    Completion { uri: String, pos: Position },
    Hover { uri: String, pos: Position },
    Definition { uri: String, pos: Position },
    DocumentSymbol { uri: String },
    SignatureHelp { uri: String, pos: Position },
    Rename { uri: String, pos: Position, new_name: String },
    WorkspaceSymbol { query: String },
    References { uri: String, pos: Position },
    CodeAction { uri: String, range: Range },
    FoldingRange { uri: String },
    SemanticTokens { uri: String },
    DocumentHighlight { uri: String, pos: Position },
}

/// What is known when a request is looked at: nothing yet, or what the
/// language says on being asked.
#[derive(Debug)]
pub enum Event {
    Start,
    /// The help text of the name that was asked about.
    Help(Option<String>),
    /// What the environment binds.
    Bindings(Vec<Binding>),
    /// The tokens of the text that was asked about, if the lexer takes it.
    Tokens(Option<Vec<SpannedToken>>),
}

/// The answer to a request.
#[derive(Debug)]
pub enum Reply {
    Completion(Vec<CompletionItem>),
    Hover(Option<Hover>),
    Definition(Option<Location>),
    DocumentSymbol(Vec<DocumentSymbol>),
    SignatureHelp(Option<SignatureHelp>),
    Rename(WorkspaceEdit),
    WorkspaceSymbol(Vec<SymbolInformation>),
    References(Vec<Location>),
    CodeAction(Vec<CodeAction>),
    FoldingRange(Vec<FoldingRange>),
    SemanticTokens(Vec<SemanticToken>),
    DocumentHighlight(Vec<DocumentHighlight>),
    Error { kind: ErrorKind, message: String },
}

/// The answer to a request, with its texts as character sequences.
#[verifier::ext_equal]
pub enum ReplyView {
    Completion(Seq<CompletionItemView>),
    Hover(Option<HoverView>),
    Definition(Option<LocationView>),
    DocumentSymbol(Seq<DocumentSymbolView>),
    SignatureHelp(Option<SignatureHelpView>),
    Rename(WorkspaceEditView),
    WorkspaceSymbol(Seq<SymbolInformationView>),
    References(Seq<LocationView>),
    CodeAction(Seq<CodeActionView>),
    FoldingRange(Seq<FoldingRange>),
    SemanticTokens(Seq<SemanticToken>),
    DocumentHighlight(Seq<DocumentHighlight>),
    Error { kind: ErrorKind, message: Seq<char> },
}

impl DeepView for Reply {
    type V = ReplyView;

    open spec fn deep_view(&self) -> ReplyView {
        match self {
            Reply::Completion(items) => ReplyView::Completion(items.deep_view()),
            Reply::Hover(hover) => ReplyView::Hover(hover.deep_view()),
            Reply::Definition(location) => ReplyView::Definition(location.deep_view()),
            Reply::DocumentSymbol(symbols) => ReplyView::DocumentSymbol(symbols.deep_view()),
            Reply::SignatureHelp(help) => ReplyView::SignatureHelp(help.deep_view()),
            Reply::Rename(edit) => ReplyView::Rename(edit.deep_view()),
            Reply::WorkspaceSymbol(symbols) => ReplyView::WorkspaceSymbol(symbols.deep_view()),
            Reply::References(locations) => ReplyView::References(locations.deep_view()),
            Reply::CodeAction(actions) => ReplyView::CodeAction(actions.deep_view()),
            Reply::FoldingRange(ranges) => ReplyView::FoldingRange(ranges@),
            Reply::SemanticTokens(tokens) => ReplyView::SemanticTokens(tokens@),
            Reply::DocumentHighlight(marks) => ReplyView::DocumentHighlight(marks@),
            Reply::Error { kind, message } => ReplyView::Error { kind: *kind, message: message@ },
        }
    }
}

/// What is to be done about a request next.
#[derive(Debug)]
pub enum Action {
    /// Send this answer.
    Reply(Reply),
    /// Ask for the help text of a name.
    AskHelp(String),
    /// Ask what the environment binds.
    AskBindings,
    /// Ask for the tokens of a text.
    AskTokens(String),
    /// Give up: no word prefix can be cut out before the cursor.
    BadCursor,
}

/// What is to be done about a request next, with its texts as character
/// sequences.
#[verifier::ext_equal]
pub enum ActionView {
    Reply(ReplyView),
    AskHelp(Seq<char>),
    AskBindings,
    AskTokens(Seq<char>),
    BadCursor,
}

impl DeepView for Action {
    type V = ActionView;

    open spec fn deep_view(&self) -> ActionView {
        match self {
            Action::Reply(reply) => ActionView::Reply(reply.deep_view()),
            Action::AskHelp(name) => ActionView::AskHelp(name@),
            Action::AskBindings => ActionView::AskBindings,
            Action::AskTokens(text) => ActionView::AskTokens(text@),
            Action::BadCursor => ActionView::BadCursor,
        }
    }
}

/// The answer that refuses a request.
pub open spec fn refusal(message: Seq<char>) -> ReplyView {
    ReplyView::Error { kind: ErrorKind::InvalidParams, message }
}

/// The answer to a request whose parameters cannot be read.
pub open spec fn bad_params(method: Method, detail: Seq<char>) -> ReplyView {
    refusal("invalid "@ + params_label(method) + " params: "@ + detail)
}

fn refuse(message: &str) -> (r: Reply)
    ensures
        r.deep_view() == refusal(message@),
{
    Reply::Error { kind: ErrorKind::InvalidParams, message: copied(message) }
}

/// The answer to a request whose parameters cannot be read.
pub fn refuse_params(method: Method, detail: &str) -> (r: Reply)
    ensures
        r.deep_view() == bad_params(method, detail@),
{
    let mut message: String = concat3("invalid ", label_of(method), " params: ");
    message.append(detail);
    Reply::Error { kind: ErrorKind::InvalidParams, message }
}

/// What is to be done about a completion request.
pub open spec fn on_completion(
    v: BackendView,
    uri: Seq<char>,
    pos: Position,
    event: Event,
) -> ActionView {
    if !v.can_complete(uri, pos) {
        ActionView::BadCursor
    } else {
        match event {
            Event::Bindings(bindings) => ActionView::Reply(
                ReplyView::Completion(v.completions(uri, pos, bindings.deep_view())),
            ),
            _ => ActionView::AskBindings,
        }
    }
}

/// What is to be done about a hover request: the help text of the word is
/// asked for first, and the bindings only if there is none.
pub open spec fn on_hover(
    v: BackendView,
    uri: Seq<char>,
    pos: Position,
    event: Event,
) -> ActionView {
    match v.word_at(uri, pos) {
        None => ActionView::Reply(ReplyView::Hover(None)),
        Some(word) => match event {
            Event::Help(Some(help)) => ActionView::Reply(
                ReplyView::Hover(v.hover(uri, pos, Some(help@), Seq::empty())),
            ),
            Event::Help(None) => ActionView::AskBindings,
            Event::Bindings(bindings) => ActionView::Reply(
                ReplyView::Hover(v.hover(uri, pos, None, bindings.deep_view())),
            ),
            _ => ActionView::AskHelp(word),
        },
    }
}

/// What is to be done about a signature help request.
pub open spec fn on_signature_help(
    v: BackendView,
    uri: Seq<char>,
    pos: Position,
    event: Event,
) -> ActionView {
    match v.call_at(uri, pos) {
        None => ActionView::Reply(ReplyView::SignatureHelp(None)),
        Some(call) => match event {
            Event::Help(help) => ActionView::Reply(
                ReplyView::SignatureHelp(v.signature_help(uri, pos, help.deep_view())),
            ),
            _ => ActionView::AskHelp(call.head),
        },
    }
}

/// What is to be done about a semantic tokens request.
pub open spec fn on_semantic_tokens(v: BackendView, uri: Seq<char>, event: Event) -> ActionView {
    match v.text_of(uri) {
        None => ActionView::Reply(refusal("Document not found"@)),
        Some(text) => match event {
            Event::Tokens(tokens) => ActionView::Reply(
                ReplyView::SemanticTokens(
                    match tokens_of(tokens.deep_view()) {
                        Some(encoded) => encoded,
                        None => Seq::empty(),
                    },
                ),
            ),
            _ => ActionView::AskTokens(text),
        },
    }
}

/// What is to be done about a request, given what is known. What was not
/// asked for tells nothing.
pub open spec fn next_action(v: BackendView, request: Request, event: Event) -> ActionView {
    match request {
        Request::Completion { uri, pos } => on_completion(v, uri@, pos, event),
        Request::Hover { uri, pos } => on_hover(v, uri@, pos, event),
        Request::Definition { uri, pos } => ActionView::Reply(
            ReplyView::Definition(v.definition(uri@, pos)),
        ),
        Request::DocumentSymbol { uri } => ActionView::Reply(
            ReplyView::DocumentSymbol(outline(v.symbol_defs, uri@)),
        ),
        Request::SignatureHelp { uri, pos } => on_signature_help(v, uri@, pos, event),
        Request::Rename { uri, pos, new_name } => ActionView::Reply(
            match v.rename(uri@, pos, new_name@) {
                Some(edit) => ReplyView::Rename(edit),
                None => refusal("No symbol found at position"@),
            },
        ),
        Request::WorkspaceSymbol { query } => ActionView::Reply(
            ReplyView::WorkspaceSymbol(search(v.symbol_defs, query@)),
        ),
        Request::References { uri, pos } => ActionView::Reply(
            ReplyView::References(v.references(uri@, pos)),
        ),
        Request::CodeAction { uri, range } => ActionView::Reply(
            ReplyView::CodeAction(seq![dismiss_action()]),
        ),
        Request::FoldingRange { uri } => ActionView::Reply(
            match v.text_of(uri@) {
                Some(text) => ReplyView::FoldingRange(folding_ranges(text)),
                None => refusal("Document not found"@),
            },
        ),
        Request::SemanticTokens { uri } => on_semantic_tokens(v, uri@, event),
        Request::DocumentHighlight { uri, pos } => ActionView::Reply(
            ReplyView::DocumentHighlight(v.highlights(uri@, pos)),
        ),
    }
}

/// Whether an event tells what an action asks for.
pub open spec fn tells(action: ActionView, event: Event) -> bool {
    match action {
        ActionView::AskHelp(_) => event is Help,
        ActionView::AskBindings => event is Bindings,
        ActionView::AskTokens(_) => event is Tokens,
        _ => false,
    }
}

/// Whether nothing is left to ask.
pub open spec fn is_final(action: ActionView) -> bool {
    action is Reply || action is BadCursor
}

/// Every request is settled after at most two questions.
pub proof fn law_requests_are_settled(v: BackendView, request: Request, first: Event, second: Event)
    ensures
        ({
            let a = next_action(v, request, Event::Start);
            let b = next_action(v, request, first);
            let c = next_action(v, request, second);
            is_final(a) || (tells(a, first) ==> is_final(b) || (tells(b, second) ==> is_final(c)))
        }),
{
}

/// A request is answered in its own kind or refused, and given up only for a
/// completion.
pub proof fn law_replies_fit_requests(v: BackendView, request: Request, event: Event)
    ensures
        next_action(v, request, event) matches ActionView::Reply(reply) ==> reply is Error || (
        match request {
            Request::Completion { .. } => reply is Completion,
            Request::Hover { .. } => reply is Hover,
            Request::Definition { .. } => reply is Definition,
            Request::DocumentSymbol { .. } => reply is DocumentSymbol,
            Request::SignatureHelp { .. } => reply is SignatureHelp,
            Request::Rename { .. } => reply is Rename,
            Request::WorkspaceSymbol { .. } => reply is WorkspaceSymbol,
            Request::References { .. } => reply is References,
            Request::CodeAction { .. } => reply is CodeAction,
            Request::FoldingRange { .. } => reply is FoldingRange,
            Request::SemanticTokens { .. } => reply is SemanticTokens,
            Request::DocumentHighlight { .. } => reply is DocumentHighlight,
        }),
        next_action(v, request, event) is BadCursor ==> request is Completion,
{
}

/// A request is refused exactly if it is about the text of a document that is
/// not open, or renames where nothing can be renamed.
pub proof fn law_refused_requests(v: BackendView, request: Request, event: Event)
    ensures
        (next_action(v, request, event) matches ActionView::Reply(reply) && reply is Error) <==> (
        match request {
            Request::FoldingRange { uri } => v.text_of(uri@) is None,
            Request::SemanticTokens { uri } => v.text_of(uri@) is None,
            Request::Rename { uri, pos, new_name } => v.rename(uri@, pos, new_name@) is None,
            _ => false,
        }),
{
}

// ---------------------------------------------------------------------
// Notifications
// ---------------------------------------------------------------------

/// A notification with its parameters.
#[derive(Debug)]
pub enum Notification {
    DidOpen { uri: String, text: String },
    /// A document was changed; each change is a whole new text.
    DidChange { uri: String, changes: Vec<String> },
    DidClose { uri: String },
}

/// What is to be done about a notification next.
#[derive(Debug)]
pub enum NotificationAction {
    /// Analyse this text.
    Analyze(String),
    /// Publish these diagnostics.
    Publish(PublishDiagnostics),
    /// Stop with this error.
    Fail(String),
    Nothing,
}

/// What is to be done about a notification next, with its texts as character
/// sequences.
#[verifier::ext_equal]
pub enum NotificationActionView {
    Analyze(Seq<char>),
    Publish(PublishDiagnosticsView),
    Fail(Seq<char>),
    Nothing,
}

impl DeepView for NotificationAction {
    type V = NotificationActionView;

    open spec fn deep_view(&self) -> NotificationActionView {
        match self {
            NotificationAction::Analyze(text) => NotificationActionView::Analyze(text@),
            NotificationAction::Publish(p) => NotificationActionView::Publish(p.deep_view()),
            NotificationAction::Fail(message) => NotificationActionView::Fail(message@),
            NotificationAction::Nothing => NotificationActionView::Nothing,
        }
    }
}

/// The publication of the diagnostics of a document, or the error that there
/// is no URL to publish them at.
pub open spec fn publication(uri: Seq<char>, diagnostics: Seq<DiagnosticView>) ->
    NotificationActionView {
    match published(uri, document_url(uri), diagnostics) {
        Ok(p) => NotificationActionView::Publish(p),
        Err(message) => NotificationActionView::Fail(message),
    }
}

/// The new state and what is to be done when a document has a new text: first
/// the text is analysed, then the state follows it.
pub open spec fn on_new_text(
    v: BackendView,
    uri: Seq<char>,
    text: Seq<char>,
    analysis: Option<Analysis>,
) -> (BackendView, NotificationActionView) {
    match analysis {
        None => (v, NotificationActionView::Analyze(text)),
        Some(analysis) => (
            v.opened(uri, text, analysis),
            publication(uri, diagnostics_of(analysis)),
        ),
    }
}

/// The new state and what is to be done about a notification. Of several
/// changes the last is the one that counts.
pub open spec fn on_notification(
    v: BackendView,
    notification: Notification,
    analysis: Option<Analysis>,
) -> (BackendView, NotificationActionView) {
    match notification {
        Notification::DidOpen { uri, text } => on_new_text(v, uri@, text@, analysis),
        Notification::DidChange { uri, changes } => if changes@.len() == 0 {
            (v, NotificationActionView::Nothing)
        } else {
            on_new_text(v, uri@, changes@.last()@, analysis)
        },
        Notification::DidClose { uri } => (v.closed(uri@), publication(uri@, Seq::empty())),
    }
}

/// Closing a document that was opened anew undoes the opening.
pub proof fn law_closing_undoes_opening(
    v: BackendView,
    uri: String,
    text: String,
    analysis: Analysis,
)
    requires
        v.is_well_formed(),
        v.text_of(uri@) is None,
    ensures
        ({
            let opened = on_notification(
                v,
                Notification::DidOpen { uri, text },
                Some(analysis),
            ).0;
            on_notification(opened, Notification::DidClose { uri }, None).0 == v
        }),
{
    law_close_undoes_open(v, uri@, text@, analysis);
}

impl Backend {
    /// What is to be done about a request, given what is known.
    pub fn handle_request(&self, request: &Request, event: &Event) -> (r: Action)
        ensures
            r.deep_view() == next_action(self@, *request, *event),
    {
        match request {
            Request::Completion { uri, pos } => self.handle_completion(uri.as_str(), *pos, event),
            Request::Hover { uri, pos } => self.handle_hover(uri.as_str(), *pos, event),
            Request::Definition { uri, pos } => Action::Reply(
                Reply::Definition(self.get_definition(uri.as_str(), *pos)),
            ),
            Request::DocumentSymbol { uri } => Action::Reply(
                Reply::DocumentSymbol(self.get_document_symbols(uri.as_str())),
            ),
            Request::SignatureHelp { uri, pos } => self.handle_signature_help(
                uri.as_str(),
                *pos,
                event,
            ),
            Request::Rename { uri, pos, new_name } => {
                match self.get_rename(uri.as_str(), *pos, new_name.as_str()) {
                    Some(edit) => Action::Reply(Reply::Rename(edit)),
                    None => Action::Reply(refuse("No symbol found at position")),
                }
            },
            Request::WorkspaceSymbol { query } => Action::Reply(
                Reply::WorkspaceSymbol(self.get_workspace_symbols(query.as_str())),
            ),
            Request::References { uri, pos } => Action::Reply(
                Reply::References(self.get_references(uri.as_str(), *pos)),
            ),
            Request::CodeAction { uri, range } => Action::Reply(
                Reply::CodeAction(self.get_code_actions(uri.as_str(), *range)),
            ),
            Request::FoldingRange { uri } => match self.document_text(uri.as_str()) {
                Some(text) => Action::Reply(
                    Reply::FoldingRange(self.get_folding_ranges(text.as_str())),
                ),
                None => Action::Reply(refuse("Document not found")),
            },
            Request::SemanticTokens { uri } => self.handle_semantic_tokens(uri.as_str(), event),
            Request::DocumentHighlight { uri, pos } => Action::Reply(
                Reply::DocumentHighlight(self.get_document_highlights(uri.as_str(), *pos)),
            ),
        }
    }

    fn handle_completion(&self, uri: &str, pos: Position, event: &Event) -> (r: Action)
        ensures
            r.deep_view() == on_completion(self@, uri@, pos, *event),
    {
        if !self.is_completable(uri, pos) {
            return Action::BadCursor;
        }
        match event {
            Event::Bindings(bindings) => Action::Reply(
                Reply::Completion(self.get_completions(uri, pos, bindings)),
            ),
            _ => Action::AskBindings,
        }
    }

    fn handle_hover(&self, uri: &str, pos: Position, event: &Event) -> (r: Action)
        ensures
            r.deep_view() == on_hover(self@, uri@, pos, *event),
    {
        let word: String = match self.word_at_position(uri, pos) {
            Some(word) => word,
            None => {
                return Action::Reply(Reply::Hover(None));
            },
        };
        match event {
            Event::Help(help) => match help {
                Some(_) => {
                    let none: Vec<Binding> = Vec::new();
                    assert(none.deep_view() =~= Seq::<BindingView>::empty());
                    Action::Reply(Reply::Hover(self.get_hover(uri, pos, help, &none)))
                },
                None => Action::AskBindings,
            },
            Event::Bindings(bindings) => Action::Reply(
                Reply::Hover(self.get_hover(uri, pos, &None, bindings)),
            ),
            _ => Action::AskHelp(word),
        }
    }

    fn handle_signature_help(&self, uri: &str, pos: Position, event: &Event) -> (r: Action)
        ensures
            r.deep_view() == on_signature_help(self@, uri@, pos, *event),
    {
        match self.call_at_position(uri, pos) {
            None => Action::Reply(Reply::SignatureHelp(None)),
            Some(call) => match event {
                Event::Help(help) => Action::Reply(
                    Reply::SignatureHelp(self.get_signature_help(uri, pos, help)),
                ),
                _ => Action::AskHelp(call.head),
            },
        }
    }

    fn handle_semantic_tokens(&self, uri: &str, event: &Event) -> (r: Action)
        ensures
            r.deep_view() == on_semantic_tokens(self@, uri@, *event),
    {
        match self.document_text(uri) {
            None => Action::Reply(refuse("Document not found")),
            Some(text) => match event {
                Event::Tokens(tokens) => match self.get_semantic_tokens(tokens) {
                    Some(encoded) => Action::Reply(Reply::SemanticTokens(encoded)),
                    None => Action::Reply(Reply::SemanticTokens(Vec::new())),
                },
                _ => Action::AskTokens(copied(text.as_str())),
            },
        }
    }

    fn publish(&self, uri: &str, diagnostics: Vec<Diagnostic>) -> (r: NotificationAction)
        ensures
            r.deep_view() == publication(uri@, diagnostics.deep_view()),
    {
        match self.publish_diagnostics(uri, diagnostics) {
            Ok(p) => NotificationAction::Publish(p),
            Err(message) => NotificationAction::Fail(message),
        }
    }

    /// Acts on a notification, once the analysis that it asks for is there.
    pub fn handle_notification(
        &mut self,
        notification: &Notification,
        analysis: &Option<Analysis>,
    ) -> (r: NotificationAction)
        ensures
            (final(self)@, r.deep_view()) == on_notification(
                old(self)@,
                *notification,
                *analysis,
            ),
            old(self)@.is_well_formed() ==> final(self)@.is_well_formed(),
    {
        match notification {
            Notification::DidOpen { uri, text } => match analysis {
                None => NotificationAction::Analyze(copied(text.as_str())),
                Some(analysis) => {
                    self.open_document(uri.as_str(), text.as_str(), analysis);
                    let diagnostics: Vec<Diagnostic> = self.compute_diagnostics(analysis);
                    self.publish(uri.as_str(), diagnostics)
                },
            },
            Notification::DidChange { uri, changes } => {
                if changes.len() == 0 {
                    return NotificationAction::Nothing;
                }
                let text: &String = &changes[changes.len() - 1];
                match analysis {
                    None => NotificationAction::Analyze(copied(text.as_str())),
                    Some(analysis) => {
                        self.update_document(uri.as_str(), text.as_str(), analysis);
                        let diagnostics: Vec<Diagnostic> = self.compute_diagnostics(analysis);
                        self.publish(uri.as_str(), diagnostics)
                    },
                }
            },
            Notification::DidClose { uri } => {
                self.close_document(uri.as_str());
                let none: Vec<Diagnostic> = Vec::new();
                assert(none.deep_view() =~= Seq::<DiagnosticView>::empty());
                self.publish(uri.as_str(), none)
            },
        }
    }
}

} // verus!
