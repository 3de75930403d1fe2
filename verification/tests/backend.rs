use syma_lsp::analysis::Analysis;
use syma_lsp::backend::Backend;
use syma_lsp::completion::Binding;
use syma_lsp::protocol::{
    CodeActionKind, DocumentHighlightKind, MarkupKind, Position, Range, SymbolKind,
};
use syma_lsp::queries::rename_in_single_document;
use syma_lsp::symbols::{Expr, Pattern};
use syma_lsp::syntax::{LexError, Span, SpannedToken, Token};

const A: &str = "file:///a.syma";
const B: &str = "file:///b.syma";

fn pos(line: u32, character: u32) -> Position {
    Position { line, character }
}

fn range(line: u32, from: u32, to: u32) -> Range {
    Range { start: pos(line, from), end: pos(line, to) }
}

fn no_program() -> Analysis {
    Analysis::LexFailed(LexError { message: "bad".to_string(), line: 1, col: 1 })
}

fn variable(name: &str, line: usize, col: usize) -> Analysis {
    Analysis::Parsed {
        tokens: vec![SpannedToken {
            token: Token::Ident(name.to_string()),
            span: Span { line, col },
        }],
        statements: vec![Expr::Assign { lhs: Box::new(Expr::Symbol(name.to_string())) }],
    }
}

fn function(name: &str, param: &str) -> Analysis {
    Analysis::Parsed {
        tokens: vec![SpannedToken {
            token: Token::Ident(name.to_string()),
            span: Span { line: 1, col: 1 },
        }],
        statements: vec![Expr::FuncDef {
            name: name.to_string(),
            params: vec![Pattern::NamedBlank { name: param.to_string(), type_constraint: None }],
        }],
    }
}

fn binding(name: &str, value: &str) -> Binding {
    Binding { name: name.to_string(), value: value.to_string() }
}

fn outline_names(server: &Backend, uri: &str) -> Vec<String> {
    server.get_document_symbols(uri).into_iter().map(|s| s.name).collect()
}

#[test]
fn documents_are_opened_changed_and_closed() {
    let mut server = Backend::new();
    assert!(server.document_text(A).is_none());
    server.open_document(A, "x = 1", &variable("x", 1, 1));
    server.open_document(B, "y = 1", &variable("y", 1, 1));
    assert_eq!(server.document_text(A).map(|t| t.as_str()), Some("x = 1"));
    server.update_document(A, "z = 1", &variable("z", 1, 1));
    assert_eq!(server.document_text(A).map(|t| t.as_str()), Some("z = 1"));
    assert_eq!(server.document_text(B).map(|t| t.as_str()), Some("y = 1"));
    server.close_document(A);
    assert!(server.document_text(A).is_none());
    assert_eq!(server.document_text(B).map(|t| t.as_str()), Some("y = 1"));
    server.close_document(A);
    assert_eq!(server.document_text(B).map(|t| t.as_str()), Some("y = 1"));
}

#[test]
fn outlines_follow_their_documents() {
    let mut server = Backend::new();
    server.open_document(A, "x = 1", &variable("x", 1, 1));
    server.open_document(B, "f[p_] := p", &function("f", "p"));
    assert_eq!(outline_names(&server, A), vec!["x"]);
    let entries = server.get_document_symbols(B);
    assert_eq!(entries.len(), 1);
    assert_eq!(entries[0].name, "f");
    assert_eq!(entries[0].detail, "f[...] := ... | p_");
    assert_eq!(entries[0].kind, SymbolKind::Function);
    assert_eq!(entries[0].range, range(0, 0, 1));
    assert_eq!(entries[0].selection_range, range(0, 0, 1));
    server.update_document(A, "y = 1", &variable("y", 1, 1));
    assert_eq!(outline_names(&server, A), vec!["y"]);
    assert_eq!(outline_names(&server, B), vec!["f"]);
    server.update_document(A, "y = ", &no_program());
    assert!(outline_names(&server, A).is_empty());
    server.close_document(B);
    assert!(outline_names(&server, B).is_empty());
}

#[test]
fn scanning_replaces_the_symbols_of_a_document() {
    let mut server = Backend::new();
    server.open_document(A, "x = 1", &variable("x", 1, 1));
    server.scan_document(A, &variable("y", 1, 1));
    assert_eq!(outline_names(&server, A), vec!["y"]);
    assert_eq!(server.document_text(A).map(|t| t.as_str()), Some("x = 1"));
}

#[test]
fn closing_undoes_opening() {
    let mut server = Backend::new();
    server.open_document(A, "x = 1", &variable("x", 1, 1));
    server.open_document(B, "y = x", &variable("y", 1, 1));
    server.close_document(B);
    assert_eq!(outline_names(&server, A), vec!["x"]);
    assert!(server.get_workspace_symbols("y").is_empty());
    assert!(server.get_references(A, pos(0, 0)).is_empty());
}

#[test]
fn only_the_last_change_counts() {
    let mut once = Backend::new();
    once.open_document(A, "b = 1", &variable("b", 1, 1));
    let mut twice = Backend::new();
    twice.open_document(A, "a = 1", &variable("a", 1, 1));
    twice.open_document(A, "b = 1", &variable("b", 1, 1));
    assert_eq!(once.document_text(A), twice.document_text(A));
    assert_eq!(outline_names(&once, A), outline_names(&twice, A));
    assert_eq!(twice.get_workspace_symbols("").len(), 1);
}

#[test]
fn words_and_calls_of_open_documents() {
    let mut server = Backend::new();
    server.open_document(A, "f[x, yz", &no_program());
    assert_eq!(server.word_at_position(A, pos(0, 5)).as_deref(), Some("yz"));
    assert_eq!(server.word_at_position(B, pos(0, 5)), None);
    let call = server.call_at_position(A, pos(0, 7)).unwrap();
    assert_eq!((call.head.as_str(), call.commas), ("f", 1));
    assert!(server.call_at_position(B, pos(0, 7)).is_none());
}

#[test]
fn diagnostics_are_addressed() {
    let server = Backend::new();
    let found = server.compute_diagnostics(&no_program());
    assert_eq!(found.len(), 1);
    let message = server.publish_diagnostics("/x y", found).unwrap();
    assert_eq!(message.uri, "file:///x%20y");
    assert_eq!(message.diagnostics.len(), 1);
    assert_eq!(message.diagnostics[0].message, "bad");
    let error = server.publish_diagnostics("http://[", vec![]).unwrap_err();
    assert_eq!(error, "invalid URI: http://[");
}

#[test]
fn completions_follow_the_prefix() {
    let mut server = Backend::new();
    server.open_document(A, "sin = 1\nSi", &variable("sin", 1, 1));
    let bindings = vec![binding("Sinh", "f"), binding("Cos", "g")];
    assert!(server.is_completable(A, pos(1, 2)));
    let found: Vec<String> =
        server.get_completions(A, pos(1, 2), &bindings).into_iter().map(|i| i.label).collect();
    assert_eq!(found, vec!["Sinh", "sin"]);
    assert!(server.is_completable(B, pos(1, 2)));
    assert_eq!(server.get_completions(B, pos(1, 2), &bindings).len(), 3);
}

#[test]
fn completions_need_a_cursor_between_characters() {
    let mut server = Backend::new();
    server.open_document(A, "é", &no_program());
    assert!(!server.is_completable(A, pos(0, 1)));
    assert!(server.is_completable(A, pos(0, 2)));
}

#[test]
fn hover_prefers_help_then_bindings_then_definitions() {
    let mut server = Backend::new();
    server.open_document(A, "f[x_] := x", &function("f", "x"));
    let help = Some("f[x] is it".to_string());
    let bindings = vec![binding("g", "1"), binding("f", "2"), binding("f", "3")];
    let shown = server.get_hover(A, pos(0, 0), &help, &bindings).unwrap();
    assert_eq!(shown.kind, MarkupKind::Markdown);
    assert_eq!(shown.value, "```syma\nf[x] is it\n```");
    let shown = server.get_hover(A, pos(0, 0), &None, &bindings).unwrap();
    assert_eq!(shown.value, "```syma\nf = 2\n```");
    let shown = server.get_hover(A, pos(0, 0), &None, &vec![]).unwrap();
    assert_eq!(shown.value, "```syma\nf[...] := ... | x_\n```");
    assert!(server.get_hover(A, pos(0, 2), &None, &vec![]).is_none());
    assert!(server.get_hover(A, pos(0, 1), &help, &bindings).is_none());
    assert!(server.get_hover(B, pos(0, 0), &help, &bindings).is_none());
}

#[test]
fn hover_of_a_variable_shows_its_detail() {
    let mut server = Backend::new();
    server.open_document(A, "x = 1", &variable("x", 1, 1));
    let shown = server.get_hover(A, pos(0, 0), &None, &vec![]).unwrap();
    assert_eq!(shown.value, "```syma\nx = ...\n```");
}

#[test]
fn definitions_are_found_elsewhere() {
    let mut server = Backend::new();
    server.open_document(A, "x = 1\ny = x", &variable("x", 1, 1));
    let found = server.get_definition(A, pos(1, 4)).unwrap();
    assert_eq!((found.uri.as_str(), found.range), (A, range(0, 0, 1)));
    assert!(server.get_definition(A, pos(0, 0)).is_none());
    assert!(server.get_definition(A, pos(1, 0)).is_none());
    assert!(server.get_definition(A, pos(1, 2)).is_none());
    assert!(server.get_definition(B, pos(0, 0)).is_none());
    server.open_document(B, "\nx = 2", &variable("x", 2, 1));
    let found = server.get_definition(A, pos(0, 0)).unwrap();
    assert_eq!((found.uri.as_str(), found.range), (B, range(1, 0, 1)));
}

#[test]
fn definitions_without_a_url_are_not_located() {
    let mut server = Backend::new();
    server.open_document("http://[", "x = 1\nx", &variable("x", 1, 1));
    assert!(server.get_definition("http://[", pos(1, 0)).is_none());
    assert!(server.get_workspace_symbols("x").is_empty());
    assert!(server.get_references("http://[", pos(0, 0)).is_empty());
    assert!(server.get_rename("http://[", pos(0, 0), "y").is_none());
}

#[test]
fn signatures_are_shown_in_calls() {
    let mut server = Backend::new();
    server.open_document(A, "f[x_] := x\nf[1, ", &function("f", "x"));
    let shown = server.get_signature_help(A, pos(1, 5), &None).unwrap();
    assert_eq!(shown.label, "f[x_]");
    assert_eq!(shown.active_parameter, 1);
    let shown = server.get_signature_help(A, pos(1, 5), &Some("f[a]".to_string())).unwrap();
    assert_eq!(shown.label, "f[...]");
    assert_eq!(shown.parameters, Some(vec!["a".to_string()]));
    assert!(server.get_signature_help(A, pos(0, 0), &None).is_none());
    assert!(server.get_signature_help(B, pos(0, 0), &None).is_none());
}

#[test]
fn undefined_words_are_renamed_in_their_document() {
    let mut server = Backend::new();
    server.open_document(A, "x + x\nxy", &no_program());
    server.open_document(B, "x", &no_program());
    let edit = server.get_rename(A, pos(0, 0), "z").unwrap();
    let changes = edit.document_changes.unwrap();
    assert_eq!(changes.len(), 1);
    assert_eq!(changes[0].uri, A);
    let ranges: Vec<Range> = changes[0].edits.iter().map(|e| e.range).collect();
    assert_eq!(ranges, vec![range(0, 0, 1), range(0, 4, 5)]);
    assert!(changes[0].edits.iter().all(|e| e.new_text == "z"));
}

#[test]
fn defined_words_are_renamed_where_they_are_defined() {
    let mut server = Backend::new();
    server.open_document(A, "x = 1", &variable("x", 1, 1));
    server.open_document(B, "y + x", &no_program());
    let edit = server.get_rename(B, pos(0, 4), "z").unwrap();
    let changes = edit.document_changes.unwrap();
    assert_eq!(changes.len(), 1);
    assert_eq!(changes[0].uri, A);
    assert_eq!(changes[0].edits.len(), 1);
    assert_eq!(changes[0].edits[0].range, range(0, 0, 1));
}

#[test]
fn a_word_that_is_defined_twice_is_edited_twice() {
    let mut server = Backend::new();
    server.open_document(A, "x = 1", &variable("x", 1, 1));
    server.open_document(B, "x = 2", &variable("x", 1, 1));
    let edit = server.get_rename(A, pos(0, 0), "z").unwrap();
    let uris: Vec<String> = edit.document_changes.unwrap().into_iter().map(|c| c.uri).collect();
    assert_eq!(uris, vec![A.to_string(), B.to_string()]);
}

#[test]
fn renames_that_change_nothing() {
    let mut server = Backend::new();
    server.open_document(A, "xx = 1", &no_program());
    let edit = server.get_rename(A, pos(0, 0), "xx").unwrap();
    assert!(edit.document_changes.is_none());
    let edit = server.get_rename(A, pos(0, 1), "xx").unwrap();
    assert!(edit.document_changes.is_none());
    let edit = rename_in_single_document(A, "x", "y", "z").unwrap();
    assert!(edit.document_changes.is_none());
    assert!(server.get_rename(A, pos(0, 2), "y").is_none());
    assert!(server.get_rename(B, pos(0, 0), "y").is_none());
}

#[test]
fn a_cursor_within_a_word_stands_for_the_word() {
    let mut server = Backend::new();
    server.open_document(A, "foo = 1\nfoo + 1", &variable("foo", 1, 1));
    let found = server.get_definition(A, pos(1, 2)).unwrap();
    assert_eq!(found.range, range(0, 0, 3));
    assert_eq!(server.get_document_highlights(A, pos(1, 1)).len(), 2);
    let edit = server.get_rename(A, pos(0, 1), "bar").unwrap();
    assert_eq!(edit.document_changes.unwrap()[0].edits.len(), 2);
    let shown = server.get_hover(A, pos(1, 1), &None, &vec![]).unwrap();
    assert_eq!(shown.value, "```syma\nfoo = ...\n```");
}

#[test]
fn workspace_symbols_are_searched_in_any_case() {
    let mut server = Backend::new();
    server.open_document(A, "fooBar = 1", &variable("fooBar", 1, 1));
    server.open_document("/b", "Bart = 1", &variable("Bart", 1, 1));
    let names = |query: &str| -> Vec<String> {
        server.get_workspace_symbols(query).into_iter().map(|s| s.name).collect()
    };
    assert_eq!(names("BAR"), vec!["fooBar", "Bart"]);
    assert_eq!(names("rt"), vec!["Bart"]);
    assert_eq!(names("").len(), 2);
    assert!(names("x").is_empty());
    let hit = &server.get_workspace_symbols("bart")[0];
    assert_eq!(hit.kind, SymbolKind::Variable);
    assert_eq!(hit.location.uri, "file:///b");
    assert_eq!(hit.location.range, range(0, 0, 4));
}

#[test]
fn references_leave_out_the_cursor() {
    let mut server = Backend::new();
    server.open_document(A, "x + x", &no_program());
    server.open_document(B, "x * xs", &no_program());
    let found: Vec<(String, Range)> =
        server.get_references(A, pos(0, 0)).into_iter().map(|l| (l.uri, l.range)).collect();
    assert_eq!(
        found,
        vec![(A.to_string(), range(0, 4, 5)), (B.to_string(), range(0, 0, 1))]
    );
    assert!(server.get_references(A, pos(0, 2)).is_empty());
    assert!(server.get_references("file:///c", pos(0, 0)).is_empty());
}

#[test]
fn highlights_are_the_occurrences_in_the_document() {
    let mut server = Backend::new();
    server.open_document(A, "x + x\nxs x", &no_program());
    server.open_document(B, "x", &no_program());
    let marks = server.get_document_highlights(A, pos(0, 4));
    let ranges: Vec<Range> = marks.iter().map(|m| m.range).collect();
    assert_eq!(ranges, vec![range(0, 0, 1), range(0, 4, 5), range(1, 3, 4)]);
    assert!(marks.iter().all(|m| m.kind == DocumentHighlightKind::Text));
    assert!(server.get_document_highlights(A, pos(0, 1)).is_empty());
    assert!(server.get_document_highlights("file:///c", pos(0, 0)).is_empty());
}

#[test]
fn one_action_is_offered() {
    let server = Backend::new();
    let actions = server.get_code_actions(A, range(0, 0, 1));
    assert_eq!(actions.len(), 1);
    assert_eq!(actions[0].title, "Dismiss error");
    assert_eq!(actions[0].kind, CodeActionKind::QuickFix);
    assert!(actions[0].is_preferred);
}

#[test]
fn texts_are_folded_and_highlighted() {
    let server = Backend::new();
    assert_eq!(server.get_folding_ranges("{\n}").len(), 1);
    assert!(server.get_semantic_tokens(&None).is_none());
    assert!(server.get_semantic_tokens(&Some(vec![])).is_none());
    let tokens = vec![SpannedToken {
        token: Token::Ident("x".to_string()),
        span: Span { line: 1, col: 1 },
    }];
    assert_eq!(server.get_semantic_tokens(&Some(tokens)).unwrap().len(), 1);
}
