use syma_lsp::analysis::Analysis;
use syma_lsp::backend::Backend;
use syma_lsp::completion::Binding;
use syma_lsp::protocol::{ErrorKind, Position, Range};
use syma_lsp::server::{
    refuse_params, route_notification, route_request, Action, Event, Method, Notification,
    NotificationAction, NotificationMethod, Reply, Request,
};
use syma_lsp::symbols::Expr;
use syma_lsp::syntax::{LexError, Span, SpannedToken, Token};

const DOC: &str = "file:///a.syma";

fn uri() -> String {
    DOC.to_string()
}

fn here(line: u32, character: u32) -> Position {
    Position { line, character }
}

fn failed() -> Analysis {
    Analysis::LexFailed(LexError { message: "bad".to_string(), line: 1, col: 2 })
}

fn opened(text: &str) -> Backend {
    let mut server = Backend::new();
    server.open_document(DOC, text, &failed());
    server
}

fn error_of(action: Action) -> String {
    match action {
        Action::Reply(Reply::Error { kind, message }) => {
            assert_eq!(kind, ErrorKind::InvalidParams);
            message
        }
        other => panic!("{:?}", other),
    }
}

#[test]
fn requests_are_routed() {
    let table = [
        ("textDocument/completion", Method::Completion),
        ("textDocument/hover", Method::Hover),
        ("textDocument/definition", Method::Definition),
        ("textDocument/documentSymbol", Method::DocumentSymbol),
        ("textDocument/signatureHelp", Method::SignatureHelp),
        ("textDocument/rename", Method::Rename),
        ("workspace/symbol", Method::WorkspaceSymbol),
        ("textDocument/references", Method::References),
        ("textDocument/codeAction", Method::CodeAction),
        ("textDocument/foldingRange", Method::FoldingRange),
        ("textDocument/semanticTokens/full", Method::SemanticTokens),
        ("textDocument/documentHighlight", Method::DocumentHighlight),
    ];
    for (name, method) in table {
        assert_eq!(route_request(name), Some(method));
    }
    assert_eq!(route_request("textDocument/formatting"), None);
    assert_eq!(route_request(""), None);
}

#[test]
fn notifications_are_routed() {
    assert_eq!(route_notification("textDocument/didOpen"), Some(NotificationMethod::DidOpen));
    assert_eq!(route_notification("textDocument/didChange"), Some(NotificationMethod::DidChange));
    assert_eq!(route_notification("textDocument/didClose"), Some(NotificationMethod::DidClose));
    assert_eq!(route_notification("textDocument/didSave"), None);
    assert_eq!(route_notification("initialized"), None);
}

#[test]
fn unreadable_parameters_are_refused() {
    let table = [
        (Method::Completion, "completion"),
        (Method::Hover, "hover"),
        (Method::Definition, "definition"),
        (Method::DocumentSymbol, "documentSymbol"),
        (Method::SignatureHelp, "signatureHelp"),
        (Method::Rename, "rename"),
        (Method::WorkspaceSymbol, "workspaceSymbol"),
        (Method::References, "references"),
        (Method::CodeAction, "codeAction"),
        (Method::FoldingRange, "foldingRange"),
        (Method::SemanticTokens, "semanticTokens"),
        (Method::DocumentHighlight, "documentHighlight"),
    ];
    for (method, label) in table {
        let message = error_of(Action::Reply(refuse_params(method, "missing field `position`")));
        assert_eq!(message, format!("invalid {} params: missing field `position`", label));
    }
}

#[test]
fn completion_asks_for_bindings() {
    let server = opened("Si");
    let request = Request::Completion { uri: uri(), pos: here(0, 2) };
    assert!(matches!(server.handle_request(&request, &Event::Start), Action::AskBindings));
    let bindings = vec![
        Binding { name: "Sin".to_string(), value: "f".to_string() },
        Binding { name: "Cos".to_string(), value: "g".to_string() },
    ];
    match server.handle_request(&request, &Event::Bindings(bindings)) {
        Action::Reply(Reply::Completion(items)) => {
            assert_eq!(items.len(), 1);
            assert_eq!(items[0].label, "Sin");
        }
        other => panic!("{:?}", other),
    }
}

#[test]
fn completion_gives_up_within_a_character() {
    let server = opened("é");
    let request = Request::Completion { uri: uri(), pos: here(0, 1) };
    assert!(matches!(server.handle_request(&request, &Event::Start), Action::BadCursor));
    let event = Event::Bindings(vec![]);
    assert!(matches!(server.handle_request(&request, &event), Action::BadCursor));
}

#[test]
fn hover_asks_for_help_and_then_for_bindings() {
    let server = opened("pi + 1");
    let request = Request::Hover { uri: uri(), pos: here(0, 0) };
    match server.handle_request(&request, &Event::Start) {
        Action::AskHelp(name) => assert_eq!(name, "pi"),
        other => panic!("{:?}", other),
    }
    match server.handle_request(&request, &Event::Help(Some("the constant".to_string()))) {
        Action::Reply(Reply::Hover(Some(hover))) => {
            assert_eq!(hover.value, "```syma\nthe constant\n```")
        }
        other => panic!("{:?}", other),
    }
    assert!(matches!(server.handle_request(&request, &Event::Help(None)), Action::AskBindings));
    let bindings = vec![Binding { name: "pi".to_string(), value: "3".to_string() }];
    match server.handle_request(&request, &Event::Bindings(bindings)) {
        Action::Reply(Reply::Hover(Some(hover))) => assert_eq!(hover.value, "```syma\npi = 3\n```"),
        other => panic!("{:?}", other),
    }
    let nowhere = Request::Hover { uri: uri(), pos: here(0, 3) };
    assert!(matches!(
        server.handle_request(&nowhere, &Event::Start),
        Action::Reply(Reply::Hover(None))
    ));
}

#[test]
fn signature_help_asks_for_help() {
    let server = opened("f[1, ");
    let request = Request::SignatureHelp { uri: uri(), pos: here(0, 5) };
    match server.handle_request(&request, &Event::Start) {
        Action::AskHelp(name) => assert_eq!(name, "f"),
        other => panic!("{:?}", other),
    }
    match server.handle_request(&request, &Event::Help(None)) {
        Action::Reply(Reply::SignatureHelp(Some(help))) => {
            assert_eq!(help.label, "f[...]");
            assert_eq!(help.active_parameter, 1);
        }
        other => panic!("{:?}", other),
    }
    let nowhere = Request::SignatureHelp { uri: uri(), pos: here(0, 1) };
    assert!(matches!(
        server.handle_request(&nowhere, &Event::Start),
        Action::Reply(Reply::SignatureHelp(None))
    ));
}

#[test]
fn semantic_tokens_ask_for_tokens() {
    let server = opened("x");
    let request = Request::SemanticTokens { uri: uri() };
    match server.handle_request(&request, &Event::Start) {
        Action::AskTokens(text) => assert_eq!(text, "x"),
        other => panic!("{:?}", other),
    }
    let tokens = vec![SpannedToken {
        token: Token::Ident("x".to_string()),
        span: Span { line: 1, col: 1 },
    }];
    match server.handle_request(&request, &Event::Tokens(Some(tokens))) {
        Action::Reply(Reply::SemanticTokens(data)) => assert_eq!(data.len(), 1),
        other => panic!("{:?}", other),
    }
    match server.handle_request(&request, &Event::Tokens(None)) {
        Action::Reply(Reply::SemanticTokens(data)) => assert!(data.is_empty()),
        other => panic!("{:?}", other),
    }
}

#[test]
fn documents_must_be_open() {
    let server = opened("x");
    let other = "file:///b.syma".to_string();
    let request = Request::SemanticTokens { uri: other.clone() };
    assert_eq!(error_of(server.handle_request(&request, &Event::Start)), "Document not found");
    let request = Request::FoldingRange { uri: other };
    assert_eq!(error_of(server.handle_request(&request, &Event::Start)), "Document not found");
}

#[test]
fn renames_need_a_symbol() {
    let server = opened("x + 1");
    let request =
        Request::Rename { uri: uri(), pos: here(0, 1), new_name: "y".to_string() };
    assert_eq!(
        error_of(server.handle_request(&request, &Event::Start)),
        "No symbol found at position"
    );
    let request =
        Request::Rename { uri: uri(), pos: here(0, 0), new_name: "y".to_string() };
    match server.handle_request(&request, &Event::Start) {
        Action::Reply(Reply::Rename(edit)) => {
            assert_eq!(edit.document_changes.unwrap()[0].edits.len(), 1)
        }
        other => panic!("{:?}", other),
    }
}

#[test]
fn other_requests_are_answered_at_once() {
    let server = opened("x + (\n) x");
    let range = Range::zero();
    let answer = |request: Request| match server.handle_request(&request, &Event::Start) {
        Action::Reply(reply) => reply,
        other => panic!("{:?}", other),
    };
    assert!(matches!(
        answer(Request::Definition { uri: uri(), pos: here(0, 0) }),
        Reply::Definition(None)
    ));
    assert!(matches!(
        answer(Request::DocumentSymbol { uri: uri() }),
        Reply::DocumentSymbol(list) if list.is_empty()
    ));
    assert!(matches!(
        answer(Request::WorkspaceSymbol { query: "x".to_string() }),
        Reply::WorkspaceSymbol(list) if list.is_empty()
    ));
    assert!(matches!(
        answer(Request::References { uri: uri(), pos: here(0, 0) }),
        Reply::References(list) if list.len() == 1
    ));
    assert!(matches!(
        answer(Request::CodeAction { uri: uri(), range }),
        Reply::CodeAction(list) if list.len() == 1
    ));
    assert!(matches!(
        answer(Request::FoldingRange { uri: uri() }),
        Reply::FoldingRange(list) if list.len() == 1
    ));
    assert!(matches!(
        answer(Request::DocumentHighlight { uri: uri(), pos: here(0, 0) }),
        Reply::DocumentHighlight(list) if list.len() == 2
    ));
}

#[test]
fn opened_documents_are_analysed_and_diagnosed() {
    let mut server = Backend::new();
    let note = Notification::DidOpen { uri: uri(), text: "x".to_string() };
    match server.handle_notification(&note, &None) {
        NotificationAction::Analyze(text) => assert_eq!(text, "x"),
        other => panic!("{:?}", other),
    }
    assert!(server.document_text(DOC).is_none());
    match server.handle_notification(&note, &Some(failed())) {
        NotificationAction::Publish(message) => {
            assert_eq!(message.uri, DOC);
            assert_eq!(message.diagnostics.len(), 1);
            assert_eq!(message.diagnostics[0].message, "bad");
        }
        other => panic!("{:?}", other),
    }
    assert_eq!(server.document_text(DOC).map(|t| t.as_str()), Some("x"));
}

#[test]
fn changed_documents_take_the_last_text() {
    let mut server = opened("x");
    let changes = vec!["y".to_string(), "z = 1".to_string()];
    let note = Notification::DidChange { uri: uri(), changes };
    match server.handle_notification(&note, &None) {
        NotificationAction::Analyze(text) => assert_eq!(text, "z = 1"),
        other => panic!("{:?}", other),
    }
    let analysis = Analysis::Parsed {
        tokens: vec![],
        statements: vec![Expr::Assign { lhs: Box::new(Expr::Symbol("z".to_string())) }],
    };
    match server.handle_notification(&note, &Some(analysis)) {
        NotificationAction::Publish(message) => assert!(message.diagnostics.is_empty()),
        other => panic!("{:?}", other),
    }
    assert_eq!(server.document_text(DOC).map(|t| t.as_str()), Some("z = 1"));
    assert_eq!(server.get_document_symbols(DOC).len(), 1);
    let empty = Notification::DidChange { uri: uri(), changes: vec![] };
    assert!(matches!(
        server.handle_notification(&empty, &Some(failed())),
        NotificationAction::Nothing
    ));
    assert_eq!(server.document_text(DOC).map(|t| t.as_str()), Some("z = 1"));
}

#[test]
fn closed_documents_have_no_diagnostics() {
    let mut server = opened("x");
    let note = Notification::DidClose { uri: uri() };
    match server.handle_notification(&note, &None) {
        NotificationAction::Publish(message) => {
            assert_eq!(message.uri, DOC);
            assert!(message.diagnostics.is_empty());
        }
        other => panic!("{:?}", other),
    }
    assert!(server.document_text(DOC).is_none());
}

#[test]
fn diagnostics_need_a_url() {
    let mut server = Backend::new();
    let note = Notification::DidOpen { uri: "http://[".to_string(), text: "x".to_string() };
    match server.handle_notification(&note, &Some(failed())) {
        NotificationAction::Fail(message) => assert_eq!(message, "invalid URI: http://["),
        other => panic!("{:?}", other),
    }
    assert_eq!(server.document_text("http://[").map(|t| t.as_str()), Some("x"));
}

#[test]
fn every_request_is_settled_after_two_questions() {
    let server = opened("f[pi");
    let requests = vec![
        Request::Completion { uri: uri(), pos: here(0, 2) },
        Request::Hover { uri: uri(), pos: here(0, 2) },
        Request::SignatureHelp { uri: uri(), pos: here(0, 4) },
        Request::SemanticTokens { uri: uri() },
        Request::Definition { uri: uri(), pos: here(0, 2) },
    ];
    for request in requests {
        let mut event = Event::Start;
        let mut asked = 0;
        loop {
            event = match server.handle_request(&request, &event) {
                Action::Reply(_) | Action::BadCursor => break,
                Action::AskHelp(_) => Event::Help(None),
                Action::AskBindings => Event::Bindings(vec![]),
                Action::AskTokens(_) => Event::Tokens(None),
            };
            asked += 1;
        }
        assert!(asked <= 2);
    }
}
