//! How messages are answered.

use crate::analysis::{diagnostics_of, Analysis};
use crate::backend::{dismiss_action, published, tokens_of, BackendView};
use crate::folding::folding_ranges;
use crate::laws::answers::fenced;
use crate::protocol::{
    CodeActionKind, CodeActionView, DiagnosticView, ErrorKind, Position, PublishDiagnosticsView,
    Range, SemanticToken,
};
use crate::queries::{outline, search};
use crate::semantic::semantic_tokens;
use crate::server::{
    bad_params, law_methods_have_names_of_their_own, method_name, method_named, next_action,
    notification_named, on_notification, params_label, ActionView, Event, Method, Notification,
    NotificationActionView, NotificationMethod, ReplyView, Request,
};
use crate::syntax::SpannedTokenView;
use crate::uri::document_url;
use vstd::prelude::*;

verus! {

// ---------------------------------------------------------------------
// Names
// ---------------------------------------------------------------------

/// The name of a message about documents.
pub open spec fn about_documents(rest: Seq<char>) -> Seq<char> {
    seq!['t', 'e', 'x', 't', 'D', 'o', 'c', 'u', 'm', 'e', 'n', 't', '/'] + rest
}

/// The requests that are answered are those with these names, and no others.
pub proof fn law_request_names(name: Seq<char>)
    ensures
        method_named(name) == Some(Method::Completion) <==> name == about_documents(
            seq!['c', 'o', 'm', 'p', 'l', 'e', 't', 'i', 'o', 'n'],
        ),
        method_named(name) == Some(Method::Hover) <==> name == about_documents(
            seq!['h', 'o', 'v', 'e', 'r'],
        ),
        method_named(name) == Some(Method::Definition) <==> name == about_documents(
            seq!['d', 'e', 'f', 'i', 'n', 'i', 't', 'i', 'o', 'n'],
        ),
        method_named(name) == Some(Method::DocumentSymbol) <==> name == about_documents(
            seq!['d', 'o', 'c', 'u', 'm', 'e', 'n', 't', 'S', 'y', 'm', 'b', 'o', 'l'],
        ),
        method_named(name) == Some(Method::SignatureHelp) <==> name == about_documents(
            seq!['s', 'i', 'g', 'n', 'a', 't', 'u', 'r', 'e', 'H', 'e', 'l', 'p'],
        ),
        method_named(name) == Some(Method::Rename) <==> name == about_documents(
            seq!['r', 'e', 'n', 'a', 'm', 'e'],
        ),
        method_named(name) == Some(Method::References) <==> name == about_documents(
            seq!['r', 'e', 'f', 'e', 'r', 'e', 'n', 'c', 'e', 's'],
        ),
        method_named(name) == Some(Method::CodeAction) <==> name == about_documents(
            seq!['c', 'o', 'd', 'e', 'A', 'c', 't', 'i', 'o', 'n'],
        ),
        method_named(name) == Some(Method::FoldingRange) <==> name == about_documents(
            seq!['f', 'o', 'l', 'd', 'i', 'n', 'g', 'R', 'a', 'n', 'g', 'e'],
        ),
        method_named(name) == Some(Method::SemanticTokens) <==> name == about_documents(
            seq![
                's', 'e', 'm', 'a', 'n', 't', 'i', 'c', 'T', 'o', 'k', 'e', 'n', 's', '/', 'f',
                'u', 'l', 'l',
            ],
        ),
        method_named(name) == Some(Method::DocumentHighlight) <==> name == about_documents(
            seq![
                'd', 'o', 'c', 'u', 'm', 'e', 'n', 't', 'H', 'i', 'g', 'h', 'l', 'i', 'g', 'h',
                't',
            ],
        ),
        method_named(name) == Some(Method::WorkspaceSymbol) <==> name == seq![
            'w', 'o', 'r', 'k', 's', 'p', 'a', 'c', 'e', '/', 's', 'y', 'm', 'b', 'o', 'l',
        ],
{
    law_methods_have_names_of_their_own(name, Method::Completion);
    law_methods_have_names_of_their_own(name, Method::Hover);
    law_methods_have_names_of_their_own(name, Method::Definition);
    law_methods_have_names_of_their_own(name, Method::DocumentSymbol);
    law_methods_have_names_of_their_own(name, Method::SignatureHelp);
    law_methods_have_names_of_their_own(name, Method::Rename);
    law_methods_have_names_of_their_own(name, Method::References);
    law_methods_have_names_of_their_own(name, Method::CodeAction);
    law_methods_have_names_of_their_own(name, Method::FoldingRange);
    law_methods_have_names_of_their_own(name, Method::SemanticTokens);
    law_methods_have_names_of_their_own(name, Method::DocumentHighlight);
    law_methods_have_names_of_their_own(name, Method::WorkspaceSymbol);
    reveal_strlit("textDocument/completion");
    assert(method_name(Method::Completion) =~= about_documents(
        seq!['c', 'o', 'm', 'p', 'l', 'e', 't', 'i', 'o', 'n'],
    ));
    reveal_strlit("textDocument/hover");
    assert(method_name(Method::Hover) =~= about_documents(
        seq!['h', 'o', 'v', 'e', 'r'],
    ));
    reveal_strlit("textDocument/definition");
    assert(method_name(Method::Definition) =~= about_documents(
        seq!['d', 'e', 'f', 'i', 'n', 'i', 't', 'i', 'o', 'n'],
    ));
    reveal_strlit("textDocument/documentSymbol");
    assert(method_name(Method::DocumentSymbol) =~= about_documents(
        seq!['d', 'o', 'c', 'u', 'm', 'e', 'n', 't', 'S', 'y', 'm', 'b', 'o', 'l'],
    ));
    reveal_strlit("textDocument/signatureHelp");
    assert(method_name(Method::SignatureHelp) =~= about_documents(
        seq!['s', 'i', 'g', 'n', 'a', 't', 'u', 'r', 'e', 'H', 'e', 'l', 'p'],
    ));
    reveal_strlit("textDocument/rename");
    assert(method_name(Method::Rename) =~= about_documents(
        seq!['r', 'e', 'n', 'a', 'm', 'e'],
    ));
    reveal_strlit("textDocument/references");
    assert(method_name(Method::References) =~= about_documents(
        seq!['r', 'e', 'f', 'e', 'r', 'e', 'n', 'c', 'e', 's'],
    ));
    reveal_strlit("textDocument/codeAction");
    assert(method_name(Method::CodeAction) =~= about_documents(
        seq!['c', 'o', 'd', 'e', 'A', 'c', 't', 'i', 'o', 'n'],
    ));
    reveal_strlit("textDocument/foldingRange");
    assert(method_name(Method::FoldingRange) =~= about_documents(
        seq!['f', 'o', 'l', 'd', 'i', 'n', 'g', 'R', 'a', 'n', 'g', 'e'],
    ));
    reveal_strlit("textDocument/semanticTokens/full");
    assert(method_name(Method::SemanticTokens) =~= about_documents(
        seq![
            's', 'e', 'm', 'a', 'n', 't', 'i', 'c', 'T', 'o', 'k', 'e', 'n', 's', '/', 'f',
            'u', 'l', 'l',
        ],
    ));
    reveal_strlit("textDocument/documentHighlight");
    assert(method_name(Method::DocumentHighlight) =~= about_documents(
        seq![
            'd', 'o', 'c', 'u', 'm', 'e', 'n', 't', 'H', 'i', 'g', 'h', 'l', 'i', 'g', 'h',
            't',
        ],
    ));
    reveal_strlit("workspace/symbol");
    assert(method_name(Method::WorkspaceSymbol) =~= seq![
        'w', 'o', 'r', 'k', 's', 'p', 'a', 'c', 'e', '/', 's', 'y', 'm', 'b', 'o', 'l',
    ]);
}

/// The notifications that are acted on are those of a document that is opened,
/// changed or closed.
pub proof fn law_notification_names(name: Seq<char>)
    ensures
        notification_named(name) == Some(NotificationMethod::DidOpen) <==> name == about_documents(
            seq!['d', 'i', 'd', 'O', 'p', 'e', 'n'],
        ),
        notification_named(name) == Some(NotificationMethod::DidChange) <==> name == about_documents(
            seq!['d', 'i', 'd', 'C', 'h', 'a', 'n', 'g', 'e'],
        ),
        notification_named(name) == Some(NotificationMethod::DidClose) <==> name == about_documents(
            seq!['d', 'i', 'd', 'C', 'l', 'o', 's', 'e'],
        ),
{
    reveal_strlit("textDocument/didOpen");
    reveal_strlit("textDocument/didChange");
    reveal_strlit("textDocument/didClose");
    assert("textDocument/didOpen"@ =~= about_documents(seq!['d', 'i', 'd', 'O', 'p', 'e', 'n']));
    assert("textDocument/didChange"@ =~= about_documents(seq![
        'd', 'i', 'd', 'C', 'h', 'a', 'n', 'g', 'e',
    ]));
    assert("textDocument/didClose"@ =~= about_documents(seq![
        'd', 'i', 'd', 'C', 'l', 'o', 's', 'e',
    ]));
    assert("textDocument/didOpen"@.len() == 20);
    assert("textDocument/didChange"@.len() == 22);
    assert("textDocument/didClose"@.len() == 21);
}

// ---------------------------------------------------------------------
// Refusals
// ---------------------------------------------------------------------

/// A refusal for bad parameters.
pub open spec fn refused(message: Seq<char>) -> ReplyView {
    ReplyView::Error { kind: ErrorKind::InvalidParams, message }
}

/// A request whose parameters cannot be read is refused as bad, with a message
/// that says of which request the parameters are and why they cannot be read.
pub proof fn law_unreadable_requests_are_refused(method: Method, detail: Seq<char>)
    ensures
        bad_params(method, detail) == refused(
            seq!['i', 'n', 'v', 'a', 'l', 'i', 'd', ' '] + params_label(method)
                + seq![' ', 'p', 'a', 'r', 'a', 'm', 's', ':', ' '] + detail,
        ),
        params_label(Method::Completion) == seq!['c', 'o', 'm', 'p', 'l', 'e', 't', 'i', 'o', 'n'],
        params_label(Method::Hover) == seq!['h', 'o', 'v', 'e', 'r'],
        params_label(Method::Definition) == seq!['d', 'e', 'f', 'i', 'n', 'i', 't', 'i', 'o', 'n'],
        params_label(Method::DocumentSymbol) == seq![
            'd', 'o', 'c', 'u', 'm', 'e', 'n', 't', 'S', 'y', 'm', 'b', 'o', 'l',
        ],
        params_label(Method::SignatureHelp) == seq![
            's', 'i', 'g', 'n', 'a', 't', 'u', 'r', 'e', 'H', 'e', 'l', 'p',
        ],
        params_label(Method::Rename) == seq!['r', 'e', 'n', 'a', 'm', 'e'],
        params_label(Method::References) == seq!['r', 'e', 'f', 'e', 'r', 'e', 'n', 'c', 'e', 's'],
        params_label(Method::CodeAction) == seq!['c', 'o', 'd', 'e', 'A', 'c', 't', 'i', 'o', 'n'],
        params_label(Method::FoldingRange) == seq![
            'f', 'o', 'l', 'd', 'i', 'n', 'g', 'R', 'a', 'n', 'g', 'e',
        ],
        params_label(Method::SemanticTokens) == seq![
            's', 'e', 'm', 'a', 'n', 't', 'i', 'c', 'T', 'o', 'k', 'e', 'n', 's',
        ],
        params_label(Method::DocumentHighlight) == seq![
            'd', 'o', 'c', 'u', 'm', 'e', 'n', 't', 'H', 'i', 'g', 'h', 'l', 'i', 'g', 'h',
            't',
        ],
        params_label(Method::WorkspaceSymbol) == seq![
            'w', 'o', 'r', 'k', 's', 'p', 'a', 'c', 'e', 'S', 'y', 'm', 'b', 'o', 'l',
        ],
{
    reveal_strlit("invalid ");
    reveal_strlit(" params: ");
    assert("invalid "@ =~= seq!['i', 'n', 'v', 'a', 'l', 'i', 'd', ' ']);
    assert(" params: "@ =~= seq![' ', 'p', 'a', 'r', 'a', 'm', 's', ':', ' ']);
    reveal_strlit("completion");
    assert(params_label(Method::Completion) =~= seq![
        'c', 'o', 'm', 'p', 'l', 'e', 't', 'i', 'o', 'n',
    ]);
    reveal_strlit("hover");
    assert(params_label(Method::Hover) =~= seq!['h', 'o', 'v', 'e', 'r']);
    reveal_strlit("definition");
    assert(params_label(Method::Definition) =~= seq![
        'd', 'e', 'f', 'i', 'n', 'i', 't', 'i', 'o', 'n',
    ]);
    reveal_strlit("documentSymbol");
    assert(params_label(Method::DocumentSymbol) =~= seq![
        'd', 'o', 'c', 'u', 'm', 'e', 'n', 't', 'S', 'y', 'm', 'b', 'o', 'l',
    ]);
    reveal_strlit("signatureHelp");
    assert(params_label(Method::SignatureHelp) =~= seq![
        's', 'i', 'g', 'n', 'a', 't', 'u', 'r', 'e', 'H', 'e', 'l', 'p',
    ]);
    reveal_strlit("rename");
    assert(params_label(Method::Rename) =~= seq!['r', 'e', 'n', 'a', 'm', 'e']);
    reveal_strlit("references");
    assert(params_label(Method::References) =~= seq![
        'r', 'e', 'f', 'e', 'r', 'e', 'n', 'c', 'e', 's',
    ]);
    reveal_strlit("codeAction");
    assert(params_label(Method::CodeAction) =~= seq![
        'c', 'o', 'd', 'e', 'A', 'c', 't', 'i', 'o', 'n',
    ]);
    reveal_strlit("foldingRange");
    assert(params_label(Method::FoldingRange) =~= seq![
        'f', 'o', 'l', 'd', 'i', 'n', 'g', 'R', 'a', 'n', 'g', 'e',
    ]);
    reveal_strlit("semanticTokens");
    assert(params_label(Method::SemanticTokens) =~= seq![
        's', 'e', 'm', 'a', 'n', 't', 'i', 'c', 'T', 'o', 'k', 'e', 'n', 's',
    ]);
    reveal_strlit("documentHighlight");
    assert(params_label(Method::DocumentHighlight) =~= seq![
        'd', 'o', 'c', 'u', 'm', 'e', 'n', 't', 'H', 'i', 'g', 'h', 'l', 'i', 'g', 'h', 't',
    ]);
    reveal_strlit("workspaceSymbol");
    assert(params_label(Method::WorkspaceSymbol) =~= seq![
        'w', 'o', 'r', 'k', 's', 'p', 'a', 'c', 'e', 'S', 'y', 'm', 'b', 'o', 'l',
    ]);
}

/// The message about a document that is not open.
pub open spec fn no_document() -> ReplyView {
    refused(
        seq![
            'D', 'o', 'c', 'u', 'm', 'e', 'n', 't', ' ', 'n', 'o', 't', ' ', 'f', 'o', 'u',
            'n', 'd',
        ],
    )
}

/// The message about a position without a symbol.
pub open spec fn no_symbol() -> ReplyView {
    refused(
        seq![
            'N', 'o', ' ', 's', 'y', 'm', 'b', 'o', 'l', ' ', 'f', 'o', 'u', 'n', 'd', ' ',
            'a', 't', ' ', 'p', 'o', 's', 'i', 't', 'i', 'o', 'n',
        ],
    )
}

proof fn lemma_messages()
    ensures
        crate::server::refusal("Document not found"@) == no_document(),
        crate::server::refusal("No symbol found at position"@) == no_symbol(),
{
    reveal_strlit("Document not found");
    reveal_strlit("No symbol found at position");
    assert("Document not found"@ =~= no_document()->message);
    assert("No symbol found at position"@ =~= no_symbol()->message);
}

// ---------------------------------------------------------------------
// Requests
// ---------------------------------------------------------------------

/// A completion request is answered with the proposals for the bindings that the
/// language knows, which are asked for first. It is given up where the word
/// before the cursor cannot be cut out.
pub proof fn law_completion_requests(v: BackendView, uri: String, pos: Position, event: Event)
    ensures
        ({
            let action = next_action(v, Request::Completion { uri, pos }, event);
            &&& !v.can_complete(uri@, pos) ==> action is BadCursor
            &&& v.can_complete(uri@, pos) ==> (match event {
                Event::Bindings(bindings) => action == ActionView::Reply(
                    ReplyView::Completion(v.completions(uri@, pos, bindings.deep_view())),
                ),
                _ => action is AskBindings,
            })
        }),
{
}

/// A hover request is answered at once if there is no word at the cursor. Else
/// the help text of the word is asked for and shown, and if there is none, the
/// bindings are asked for and looked through.
pub proof fn law_hover_requests(v: BackendView, uri: String, pos: Position, event: Event)
    ensures
        ({
            let action = next_action(v, Request::Hover { uri, pos }, event);
            match v.word_at(uri@, pos) {
                None => action == ActionView::Reply(ReplyView::Hover(None)),
                Some(word) => match event {
                    Event::Start => action == ActionView::AskHelp(word),
                    Event::Help(Some(help)) => action == ActionView::Reply(
                        ReplyView::Hover(Some(fenced(help@))),
                    ),
                    Event::Help(None) => action is AskBindings,
                    Event::Bindings(bindings) => action == ActionView::Reply(
                        ReplyView::Hover(v.hover(uri@, pos, None, bindings.deep_view())),
                    ),
                    Event::Tokens(_) => action == ActionView::AskHelp(word),
                },
            }
        }),
{
    if let Event::Help(Some(help)) = event {
        crate::laws::answers::law_hover_shows_help_first(v, uri@, pos, help@, Seq::empty());
    }
}

/// A request for signature help is answered at once if there is no call around
/// the cursor. Else the help text of the call's head is asked for first.
pub proof fn law_signature_help_requests(v: BackendView, uri: String, pos: Position, event: Event)
    ensures
        ({
            let action = next_action(v, Request::SignatureHelp { uri, pos }, event);
            match v.call_at(uri@, pos) {
                None => action == ActionView::Reply(ReplyView::SignatureHelp(None)),
                Some(call) => match event {
                    Event::Help(help) => action == ActionView::Reply(
                        ReplyView::SignatureHelp(v.signature_help(uri@, pos, help.deep_view())),
                    ),
                    _ => action == ActionView::AskHelp(call.head),
                },
            }
        }),
{
}

/// A request for semantic tokens is refused if the document is not open. Else
/// the tokens of its text are asked for and encoded; a text that the lexer does
/// not take has none.
pub proof fn law_semantic_tokens_requests(v: BackendView, uri: String, event: Event)
    ensures
        ({
            let action = next_action(v, Request::SemanticTokens { uri }, event);
            match v.text_of(uri@) {
                None => action == ActionView::Reply(no_document()),
                Some(text) => match event {
                    Event::Tokens(Some(tokens)) => action == ActionView::Reply(
                        ReplyView::SemanticTokens(
                            match semantic_tokens(tokens.deep_view()) {
                                Some(encoded) => encoded,
                                None => Seq::<SemanticToken>::empty(),
                            },
                        ),
                    ),
                    Event::Tokens(None) => action == ActionView::Reply(
                        ReplyView::SemanticTokens(Seq::empty()),
                    ),
                    _ => action == ActionView::AskTokens(text),
                },
            }
        }),
{
    lemma_messages();
}

/// The tokens of a text are those that the lexer makes of it.
pub proof fn law_tokens_are_those_of_the_lexer(tokens: Seq<SpannedTokenView>)
    ensures
        tokens_of(None) is None,
        tokens_of(Some(tokens)) == semantic_tokens(tokens),
{
}

/// The other requests about a position are answered at once, whatever is known:
/// with the definition, the references and the highlights of the word there, and
/// with its rename, which is refused if there is none.
pub proof fn law_requests_about_positions(
    v: BackendView,
    uri: String,
    pos: Position,
    new_name: String,
    event: Event,
)
    ensures
        next_action(v, Request::Definition { uri, pos }, event) == ActionView::Reply(
            ReplyView::Definition(v.definition(uri@, pos)),
        ),
        next_action(v, Request::References { uri, pos }, event) == ActionView::Reply(
            ReplyView::References(v.references(uri@, pos)),
        ),
        next_action(v, Request::DocumentHighlight { uri, pos }, event) == ActionView::Reply(
            ReplyView::DocumentHighlight(v.highlights(uri@, pos)),
        ),
        next_action(v, Request::Rename { uri, pos, new_name }, event) == ActionView::Reply(
            match v.rename(uri@, pos, new_name@) {
                Some(edit) => ReplyView::Rename(edit),
                None => no_symbol(),
            },
        ),
{
    lemma_messages();
}

/// The requests about whole documents are answered at once: with the outline of
/// the document, with the definitions that a query finds in all documents, with
/// the folding ranges of the document's text, which is refused if it is not open,
/// and with one action to dismiss an error.
pub proof fn law_requests_about_documents(
    v: BackendView,
    uri: String,
    query: String,
    range: Range,
    event: Event,
)
    ensures
        next_action(v, Request::DocumentSymbol { uri }, event) == ActionView::Reply(
            ReplyView::DocumentSymbol(outline(v.symbol_defs, uri@)),
        ),
        next_action(v, Request::WorkspaceSymbol { query }, event) == ActionView::Reply(
            ReplyView::WorkspaceSymbol(search(v.symbol_defs, query@)),
        ),
        next_action(v, Request::FoldingRange { uri }, event) == ActionView::Reply(
            match v.text_of(uri@) {
                Some(text) => ReplyView::FoldingRange(folding_ranges(text)),
                None => no_document(),
            },
        ),
        next_action(v, Request::CodeAction { uri, range }, event) == ActionView::Reply(
            ReplyView::CodeAction(
                seq![
                    CodeActionView {
                        title: seq![
                            'D', 'i', 's', 'm', 'i', 's', 's', ' ', 'e', 'r', 'r', 'o', 'r',
                        ],
                        kind: CodeActionKind::QuickFix,
                        is_preferred: true,
                    },
                ],
            ),
        ),
{
    lemma_messages();
    reveal_strlit("Dismiss error");
    assert(dismiss_action().title =~= seq![
        'D', 'i', 's', 'm', 'i', 's', 's', ' ', 'e', 'r', 'r', 'o', 'r',
    ]);
}

// ---------------------------------------------------------------------
// Notifications
// ---------------------------------------------------------------------

/// Diagnostics are published at the URL of their document. Where it has none,
/// there is an error that names its URI.
pub open spec fn sent(uri: Seq<char>, diagnostics: Seq<DiagnosticView>) -> NotificationActionView {
    match document_url(uri) {
        Some(url) => NotificationActionView::Publish(
            PublishDiagnosticsView { uri: url, diagnostics },
        ),
        None => NotificationActionView::Fail(
            seq!['i', 'n', 'v', 'a', 'l', 'i', 'd', ' ', 'U', 'R', 'I', ':', ' '] + uri,
        ),
    }
}

proof fn lemma_sent(uri: Seq<char>, diagnostics: Seq<DiagnosticView>)
    ensures
        crate::server::publication(uri, diagnostics) == sent(uri, diagnostics),
{
    reveal_strlit("invalid URI: ");
    assert("invalid URI: "@ =~= seq![
        'i', 'n', 'v', 'a', 'l', 'i', 'd', ' ', 'U', 'R', 'I', ':', ' ',
    ]);
}

/// Diagnostics are addressed to the URL that they are given, as they are.
pub proof fn law_diagnostics_are_addressed(
    uri: Seq<char>,
    url: Option<Seq<char>>,
    diagnostics: Seq<DiagnosticView>,
)
    ensures
        url matches Some(at) ==> published(uri, url, diagnostics) == Ok::<
            PublishDiagnosticsView,
            Seq<char>,
        >(PublishDiagnosticsView { uri: at, diagnostics }),
        url is None ==> published(uri, url, diagnostics) == Err::<PublishDiagnosticsView, Seq<char>>(
            seq!['i', 'n', 'v', 'a', 'l', 'i', 'd', ' ', 'U', 'R', 'I', ':', ' '] + uri,
        ),
{
    reveal_strlit("invalid URI: ");
    assert("invalid URI: "@ =~= seq![
        'i', 'n', 'v', 'a', 'l', 'i', 'd', ' ', 'U', 'R', 'I', ':', ' ',
    ]);
}

/// A document that is opened is analysed first, and nothing changes until then.
/// Then it is open with its text and what the analysis found, and the diagnostics
/// of the analysis are published.
pub proof fn law_opening_a_document(
    v: BackendView,
    uri: String,
    text: String,
    analysis: Analysis,
)
    ensures
        on_notification(v, Notification::DidOpen { uri, text }, None) == (
            v,
            NotificationActionView::Analyze(text@),
        ),
        on_notification(v, Notification::DidOpen { uri, text }, Some(analysis)) == (
            v.opened(uri@, text@, analysis),
            sent(uri@, diagnostics_of(analysis)),
        ),
{
    lemma_sent(uri@, diagnostics_of(analysis));
}

/// A document that is changed is treated as one that is opened with the last of
/// the new texts. Without a new text nothing is done.
pub proof fn law_changing_a_document(
    v: BackendView,
    uri: String,
    changes: Vec<String>,
    analysis: Option<Analysis>,
)
    ensures
        changes@.len() == 0 ==> on_notification(
            v,
            Notification::DidChange { uri, changes },
            analysis,
        ) == (v, NotificationActionView::Nothing),
        changes@.len() > 0 ==> on_notification(
            v,
            Notification::DidChange { uri, changes },
            analysis,
        ) == on_notification(
            v,
            Notification::DidOpen { uri, text: changes@[changes@.len() - 1] },
            analysis,
        ),
{
}

/// A document that is closed is forgotten, and its diagnostics are taken back,
/// whatever was analysed.
pub proof fn law_closing_a_document(v: BackendView, uri: String, analysis: Option<Analysis>)
    ensures
        on_notification(v, Notification::DidClose { uri }, analysis) == (
            v.closed(uri@),
            sent(uri@, Seq::empty()),
        ),
{
    lemma_sent(uri@, Seq::empty());
}

} // verus!
