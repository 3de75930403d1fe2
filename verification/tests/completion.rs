use syma_lsp::completion::{complete, kind_of_symbol, starts_with, Binding};
use syma_lsp::protocol::{CompletionItem, CompletionItemKind, Range, SymbolKind};
use syma_lsp::strings::to_lower;
use syma_lsp::symbols::SymbolDef;

fn bound(name: &str) -> Binding {
    Binding { name: name.to_string(), value: "0".to_string() }
}

fn defined(name: &str, kind: SymbolKind) -> SymbolDef {
    SymbolDef {
        name: name.to_string(),
        uri: "file:///a".to_string(),
        range: Range::zero(),
        kind,
        detail: format!("about {}", name),
        signature: None,
    }
}

fn labels(items: &[CompletionItem]) -> Vec<&str> {
    items.iter().map(|i| i.label.as_str()).collect()
}

#[test]
fn everything_is_proposed_for_no_prefix() {
    let bindings = vec![bound("Sin"), bound("pi")];
    let defs = vec![defined("f", SymbolKind::Function), defined("C", SymbolKind::Class)];
    let items = complete(&bindings, &defs, "");
    assert_eq!(labels(&items), vec!["Sin", "pi", "f", "C"]);
    assert_eq!(items[0].kind, CompletionItemKind::Function);
    assert_eq!(items[0].detail, "Syma builtin");
    assert_eq!(items[0].insert_text, "Sin");
    assert_eq!(items[1].kind, CompletionItemKind::Variable);
    assert_eq!(items[2].kind, CompletionItemKind::Function);
    assert_eq!(items[2].detail, "about f");
    assert_eq!(items[2].insert_text, "f");
    assert_eq!(items[3].kind, CompletionItemKind::Class);
}

#[test]
fn prefixes_match_in_any_case() {
    let bindings = vec![bound("Sin"), bound("Sinh"), bound("Cos"), bound("aSin")];
    let defs = vec![defined("SIN2", SymbolKind::Variable)];
    assert_eq!(labels(&complete(&bindings, &defs, "sIn")), vec!["Sin", "Sinh", "SIN2"]);
    assert_eq!(labels(&complete(&bindings, &defs, "SINH")), vec!["Sinh"]);
    assert!(complete(&bindings, &defs, "tan").is_empty());
}

#[test]
fn prefixes_match_in_any_case_beyond_ascii() {
    let defs = vec![defined("Été", SymbolKind::Variable), defined("ete", SymbolKind::Variable)];
    assert_eq!(labels(&complete(&vec![], &defs, "éT")), vec!["Été"]);
}

#[test]
fn no_label_is_proposed_twice() {
    let bindings = vec![bound("x"), bound("x")];
    let defs = vec![
        defined("x", SymbolKind::Function),
        defined("y", SymbolKind::Module),
        defined("y", SymbolKind::Class),
    ];
    let items = complete(&bindings, &defs, "");
    assert_eq!(labels(&items), vec!["x", "y"]);
    assert_eq!(items[0].detail, "Syma builtin");
    assert_eq!(items[1].kind, CompletionItemKind::Module);
}

#[test]
fn every_matching_name_is_in_the_list() {
    let names = ["ab", "Ab", "b", "aB", "abc", "ab"];
    let bindings: Vec<Binding> = names.iter().map(|n| bound(n)).collect();
    let items = complete(&bindings, &vec![], "AB");
    for name in names {
        let expected = name.to_lowercase().starts_with("ab");
        assert_eq!(items.iter().any(|i| i.label == name), expected);
    }
}

#[test]
fn kinds_of_symbols() {
    assert_eq!(kind_of_symbol(SymbolKind::Variable), CompletionItemKind::Variable);
    assert_eq!(kind_of_symbol(SymbolKind::Function), CompletionItemKind::Function);
    assert_eq!(kind_of_symbol(SymbolKind::Class), CompletionItemKind::Class);
    assert_eq!(kind_of_symbol(SymbolKind::Module), CompletionItemKind::Module);
}

#[test]
fn names_beyond_ascii_are_functions_if_uppercase() {
    let items = complete(&vec![bound("Ωm"), bound("ωm")], &vec![], "");
    assert_eq!(items[0].kind, CompletionItemKind::Function);
    assert_eq!(items[1].kind, CompletionItemKind::Variable);
}

#[test]
fn prefixes_of_texts() {
    assert!(starts_with("abc", ""));
    assert!(starts_with("abc", "abc"));
    assert!(!starts_with("abc", "abcd"));
    assert!(!starts_with("abc", "b"));
}

#[test]
fn lowercase_is_that_of_unicode() {
    for s in ["", "aZ[09]@", "ÉTÉ", "ΑΣ", "İx", "ß"] {
        assert_eq!(to_lower(s), s.to_lowercase());
    }
}
