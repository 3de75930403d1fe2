use syma_lsp::analysis::{diagnose, Analysis};
use syma_lsp::protocol::{DiagnosticSeverity, Position, Range, SymbolKind};
use syma_lsp::symbols::{
    extract_param_name, walk_all_for_symbols, walk_expr_for_symbols, Expr, Pattern, SymbolDef,
};
use syma_lsp::syntax::{FixedToken, LexError, ParseError, Span, SpannedToken, Token};

fn owned(s: &str) -> String {
    s.to_string()
}

fn symbol(s: &str) -> Expr {
    Expr::Symbol(owned(s))
}

fn assign(lhs: Expr) -> Expr {
    Expr::Assign { lhs: Box::new(lhs) }
}

fn ident(s: &str, line: usize, col: usize) -> SpannedToken {
    SpannedToken { token: Token::Ident(owned(s)), span: Span { line, col } }
}

fn range_on(line: u32, from: u32, to: u32) -> Range {
    Range {
        start: Position { line, character: from },
        end: Position { line, character: to },
    }
}

fn symbols_in(expr: &Expr, tokens: &Vec<SpannedToken>) -> Vec<SymbolDef> {
    let mut defs = Vec::new();
    walk_expr_for_symbols(expr, "file:///a", tokens, &mut defs);
    defs
}

#[test]
fn assignments_define_variables() {
    let tokens = vec![ident("y", 1, 1), ident("xs", 2, 3), ident("xs", 3, 1)];
    let defs = symbols_in(&assign(symbol("xs")), &tokens);
    assert_eq!(defs.len(), 1);
    assert_eq!(defs[0].name, "xs");
    assert_eq!(defs[0].uri, "file:///a");
    assert_eq!(defs[0].range, range_on(1, 2, 4));
    assert_eq!(defs[0].kind, SymbolKind::Variable);
    assert_eq!(defs[0].detail, "xs = ...");
    assert_eq!(defs[0].signature, None);
}

fn fixed(token: FixedToken) -> SpannedToken {
    SpannedToken { token: Token::Fixed(token), span: Span { line: 9, col: 9 } }
}

#[test]
fn variables_are_defined_where_they_are_assigned() {
    let tokens = vec![
        ident("y", 1, 1),
        fixed(FixedToken::Assign),
        ident("x", 1, 5),
        fixed(FixedToken::Newline),
        ident("x", 2, 1),
        fixed(FixedToken::Assign),
        SpannedToken { token: Token::Integer(owned("1")), span: Span { line: 2, col: 5 } },
        fixed(FixedToken::Eof),
    ];
    let mut defs = Vec::new();
    walk_all_for_symbols(
        &vec![assign(symbol("y")), assign(symbol("x"))],
        "file:///a.syma",
        &tokens,
        &mut defs,
    );
    assert_eq!(defs[0].range, range_on(0, 0, 1));
    assert_eq!(defs[1].range, range_on(1, 0, 1));
}

#[test]
fn functions_are_defined_where_their_head_stands() {
    let def = Expr::FuncDef { name: owned("f"), params: vec![] };
    let call = |line: usize| {
        vec![
            ident("f", line, 1),
            fixed(FixedToken::LBracket),
            ident("g", line, 3),
            fixed(FixedToken::LBracket),
            ident("x", line, 5),
            fixed(FixedToken::RDoubleBracket),
        ]
    };
    let mut tokens = vec![ident("f", 1, 1), fixed(FixedToken::Newline)];
    assert_eq!(symbols_in(&def, &tokens)[0].range, range_on(0, 0, 1));
    tokens.extend(call(2));
    tokens.push(fixed(FixedToken::Newline));
    assert_eq!(symbols_in(&def, &tokens)[0].range, range_on(1, 0, 1));
    tokens.extend(call(3));
    tokens.push(fixed(FixedToken::DelayedAssign));
    assert_eq!(symbols_in(&def, &tokens)[0].range, range_on(2, 0, 1));
}

#[test]
fn classes_and_modules_are_defined_behind_their_keywords() {
    let tokens = vec![
        ident("C", 1, 1),
        fixed(FixedToken::Class),
        ident("C", 2, 7),
        fixed(FixedToken::Module),
        ident("C", 3, 8),
    ];
    let class = symbols_in(&Expr::ClassDef { name: owned("C") }, &tokens);
    assert_eq!(class[0].range, range_on(1, 6, 7));
    let module = symbols_in(&Expr::ModuleDef { name: owned("C") }, &tokens);
    assert_eq!(module[0].range, range_on(2, 7, 8));
}

#[test]
fn unpacked_symbols_are_defined_within_their_braces() {
    let tokens = vec![
        fixed(FixedToken::LBrace),
        ident("b", 1, 2),
        fixed(FixedToken::RBrace),
        fixed(FixedToken::Newline),
        fixed(FixedToken::LBrace),
        ident("a", 2, 2),
        fixed(FixedToken::LBracket),
        ident("b", 2, 4),
        fixed(FixedToken::RBracket),
        fixed(FixedToken::Comma),
        ident("b", 2, 8),
        fixed(FixedToken::Comma),
        ident("c", 2, 11),
        fixed(FixedToken::RBrace),
        fixed(FixedToken::Assign),
        ident("c", 2, 16),
    ];
    let expr = Expr::DestructAssign { patterns: vec![symbol("b"), symbol("c"), symbol("d")] };
    let defs = symbols_in(&expr, &tokens);
    assert_eq!(defs[0].range, range_on(1, 7, 8));
    assert_eq!(defs[1].range, range_on(1, 10, 11));
    assert_eq!(defs[2].range, range_on(0, 0, 0));
}

/// The tokens of a text whose tokens are set apart by single spaces.
fn tokens_of(text: &str, line_ends: bool) -> Vec<SpannedToken> {
    let mut tokens = Vec::new();
    for (number, line) in text.lines().enumerate() {
        let mut col = 1;
        for word in line.split(' ').filter(|w| !w.is_empty()) {
            let token = match word {
                "=" => Token::Fixed(FixedToken::Assign),
                ":=" => Token::Fixed(FixedToken::DelayedAssign),
                "[" => Token::Fixed(FixedToken::LBracket),
                "]" => Token::Fixed(FixedToken::RBracket),
                "{" => Token::Fixed(FixedToken::LBrace),
                "}" => Token::Fixed(FixedToken::RBrace),
                "(" => Token::Fixed(FixedToken::LParen),
                ")" => Token::Fixed(FixedToken::RParen),
                "," => Token::Fixed(FixedToken::Comma),
                ";" => Token::Fixed(FixedToken::Semicolon),
                "class" => Token::Fixed(FixedToken::Class),
                "module" => Token::Fixed(FixedToken::Module),
                "1" | "2" => Token::Integer(owned(word)),
                other => Token::Ident(owned(other)),
            };
            tokens.push(SpannedToken { token, span: Span { line: number + 1, col } });
            col += word.len() + 1;
        }
        if line_ends {
            let span = Span { line: number + 1, col };
            tokens.push(SpannedToken { token: Token::Fixed(FixedToken::Newline), span });
        }
    }
    tokens
}

fn starts(text: &str, statements: &Vec<Expr>, line_ends: bool) -> Vec<(u32, u32)> {
    let mut defs = Vec::new();
    let tokens = tokens_of(text, line_ends);
    walk_all_for_symbols(statements, "file:///a", &tokens, &mut defs);
    defs.iter().map(|d| (d.range.start.line, d.range.start.character)).collect()
}

fn func(s: &str) -> Expr {
    Expr::FuncDef { name: owned(s), params: vec![] }
}

#[test]
fn definitions_in_bodies_are_passed_over() {
    for line_ends in [true, false] {
        let program = vec![func("f"), assign(symbol("x"))];
        assert_eq!(
            starts("f [ y ] := x = y\nx = 1", &program, line_ends),
            vec![(0, 0), (1, 0)]
        );
        assert_eq!(
            starts("f [ y ] :=\n\nx = y\nx = 1", &program, line_ends),
            vec![(0, 0), (3, 0)]
        );
        assert_eq!(
            starts("f [ y ] := ( x = y ; x = 2 )\nx = 1", &program, line_ends),
            vec![(0, 0), (1, 0)]
        );
        assert_eq!(
            starts("f [ y ] := g [ 1 ,\nx = y ]\nx = 1", &program, line_ends),
            vec![(0, 0), (2, 0)]
        );
        assert_eq!(
            starts("f [ y ] := { x , y } = y\n{ y , x } = 1", &program, line_ends),
            vec![(0, 0), (1, 6)]
        );
        let chain = vec![assign(symbol("y")), assign(symbol("x"))];
        assert_eq!(starts("y = x = 1\nx = 2", &chain, line_ends), vec![(0, 0), (1, 0)]);
    }
}

#[test]
fn definitions_of_a_name_take_their_places_in_turn() {
    for line_ends in [true, false] {
        let twice = vec![assign(symbol("x")), assign(symbol("x"))];
        assert_eq!(starts("x = 1\nx = 2", &twice, line_ends), vec![(0, 0), (1, 0)]);
        assert_eq!(starts("x = 1 ; x = 2", &twice, line_ends), vec![(0, 0), (0, 8)]);
        let unpacked = vec![
            Expr::DestructAssign { patterns: vec![symbol("x"), symbol("y")] },
            assign(symbol("x")),
        ];
        assert_eq!(
            starts("{ x , y } = { y , x }\nx = 1", &unpacked, line_ends),
            vec![(0, 2), (0, 6), (1, 0)]
        );
        let functions = vec![func("f"), Expr::Other, func("f")];
        assert_eq!(
            starts("f [ 1 ] := 1\nf [ 2 ]\nf [ x ] := f [ 1 ]", &functions, line_ends),
            vec![(0, 0), (2, 0)]
        );
        let kinds = vec![
            Expr::ClassDef { name: owned("x") },
            assign(symbol("x")),
            func("x"),
            Expr::ModuleDef { name: owned("x") },
        ];
        assert_eq!(
            starts("class x\nx = 1\nx [ y ] := 1\nmodule x", &kinds, line_ends),
            vec![(0, 6), (1, 0), (2, 0), (3, 7)]
        );
    }
}

#[test]
fn statements_stand_in_lists_and_parentheses_too() {
    let program = vec![
        Expr::Sequence(vec![assign(symbol("x")), assign(symbol("x"))]),
        Expr::List(vec![assign(symbol("x")), assign(symbol("x"))]),
    ];
    let text = "( x = 1 ; x = 2 )\n{ x = 1 ,\nx = 2 }";
    for line_ends in [true, false] {
        assert_eq!(starts(text, &program, line_ends), vec![(0, 2), (0, 10), (1, 2), (2, 0)]);
    }
}

#[test]
fn definitions_without_a_place_of_their_own_stand_at_the_first() {
    let program = vec![assign(symbol("x")), assign(symbol("x"))];
    assert_eq!(starts("g [ x = 1 ]\nx = 2", &program, true), vec![(1, 0), (0, 4)]);
    assert_eq!(starts("g [ x ]\nx = 2", &program, true), vec![(1, 0), (1, 0)]);
}

#[test]
fn definitions_of_other_documents_do_not_count() {
    let tokens = tokens_of("x = 1\nx = 2", true);
    let mut defs = Vec::new();
    walk_expr_for_symbols(&assign(symbol("x")), "file:///a", &tokens, &mut defs);
    walk_expr_for_symbols(&assign(symbol("x")), "file:///b", &tokens, &mut defs);
    walk_expr_for_symbols(&assign(symbol("x")), "file:///b", &tokens, &mut defs);
    let lines: Vec<u32> = defs.iter().map(|d| d.range.start.line).collect();
    assert_eq!(lines, vec![0, 0, 1]);
}

#[test]
fn only_symbols_are_assigned() {
    assert!(symbols_in(&assign(Expr::Other), &vec![]).is_empty());
    assert!(symbols_in(&assign(Expr::List(vec![assign(symbol("x"))])), &vec![]).is_empty());
    assert!(symbols_in(&symbol("x"), &vec![]).is_empty());
    assert!(symbols_in(&Expr::Other, &vec![]).is_empty());
}

#[test]
fn symbols_without_a_token_stand_at_the_start() {
    let defs = symbols_in(&assign(symbol("x")), &vec![ident("y", 4, 4)]);
    assert_eq!(defs[0].range, range_on(0, 0, 0));
}

#[test]
fn ranges_of_symbols_count_characters() {
    let defs = symbols_in(&assign(symbol("été")), &vec![ident("été", 1, 1)]);
    assert_eq!(defs[0].range, range_on(0, 0, 3));
}

#[test]
fn functions_have_signatures() {
    let params = vec![
        Pattern::NamedBlank { name: owned("x"), type_constraint: None },
        Pattern::NamedBlank { name: owned("n"), type_constraint: Some(owned("Integer")) },
        Pattern::Symbol(owned("y")),
    ];
    let expr = Expr::FuncDef { name: owned("f"), params };
    let defs = symbols_in(&expr, &vec![ident("f", 5, 2)]);
    assert_eq!(defs.len(), 1);
    assert_eq!(defs[0].kind, SymbolKind::Function);
    assert_eq!(defs[0].detail, "f[...] := ...");
    assert_eq!(defs[0].signature.as_deref(), Some("x_, n_Integer, y"));
    assert_eq!(defs[0].range, range_on(4, 1, 2));
    let bare = Expr::FuncDef { name: owned("g"), params: vec![] };
    assert_eq!(symbols_in(&bare, &vec![])[0].signature, None);
}

#[test]
fn classes_and_modules_are_defined() {
    let class = symbols_in(&Expr::ClassDef { name: owned("C") }, &vec![]);
    assert_eq!(class[0].kind, SymbolKind::Class);
    assert_eq!(class[0].detail, "class C");
    let module = symbols_in(&Expr::ModuleDef { name: owned("M") }, &vec![]);
    assert_eq!(module[0].kind, SymbolKind::Module);
    assert_eq!(module[0].detail, "module M");
}

#[test]
fn destructuring_defines_each_symbol() {
    let expr = Expr::DestructAssign { patterns: vec![symbol("a"), Expr::Other, symbol("b")] };
    let defs = symbols_in(&expr, &vec![]);
    let names: Vec<&str> = defs.iter().map(|d| d.name.as_str()).collect();
    assert_eq!(names, vec!["a", "b"]);
    assert_eq!(defs[1].detail, "b = ...");
}

#[test]
fn sequences_and_lists_are_walked_in_order() {
    let expr = Expr::Sequence(vec![
        assign(symbol("a")),
        Expr::List(vec![assign(symbol("b")), Expr::ClassDef { name: owned("C") }]),
        Expr::Other,
        Expr::FuncDef { name: owned("d"), params: vec![] },
    ]);
    let names: Vec<String> =
        symbols_in(&expr, &vec![]).into_iter().map(|d| d.name).collect();
    assert_eq!(names, vec!["a", "b", "C", "d"]);
}

#[test]
fn symbols_are_added_behind_those_there() {
    let mut defs = symbols_in(&assign(symbol("a")), &vec![]);
    walk_all_for_symbols(
        &vec![assign(symbol("b")), assign(symbol("c"))],
        "file:///b",
        &vec![],
        &mut defs,
    );
    let found: Vec<(&str, &str)> =
        defs.iter().map(|d| (d.name.as_str(), d.uri.as_str())).collect();
    assert_eq!(found, vec![("a", "file:///a"), ("b", "file:///b"), ("c", "file:///b")]);
}

#[test]
fn parameters_are_shown() {
    let tc = || Some(owned("T"));
    let shown = [
        (Pattern::NamedBlank { name: owned("x"), type_constraint: None }, "x_"),
        (Pattern::NamedBlank { name: owned("x"), type_constraint: tc() }, "x_T"),
        (Pattern::Blank { type_constraint: None }, "_"),
        (Pattern::Blank { type_constraint: tc() }, "_T"),
        (Pattern::BlankSequence { name: None, type_constraint: None }, "___"),
        (Pattern::BlankSequence { name: Some(owned("x")), type_constraint: tc() }, "x__T"),
        (Pattern::BlankNullSequence { name: None, type_constraint: tc() }, "____T"),
        (Pattern::BlankNullSequence { name: Some(owned("x")), type_constraint: None }, "x___"),
        (Pattern::OptionalNamedBlank { name: owned("x"), type_constraint: None }, "x_."),
        (Pattern::OptionalNamedBlank { name: owned("x"), type_constraint: tc() }, "x_T."),
        (Pattern::OptionalBlank { type_constraint: None }, "_."),
        (Pattern::OptionalBlank { type_constraint: tc() }, "_T."),
        (Pattern::Symbol(owned("x")), "x"),
        (Pattern::Other(owned("{1, 2}")), "{1, 2}"),
    ];
    for (pattern, text) in shown {
        assert_eq!(extract_param_name(&pattern), text);
    }
}

#[test]
fn lexer_errors_are_diagnosed() {
    let error = LexError { message: owned("bad character"), line: 2, col: 4 };
    let found = diagnose(&Analysis::LexFailed(error));
    assert_eq!(found.len(), 1);
    assert_eq!(found[0].range, range_on(1, 3, 4));
    assert_eq!(found[0].severity, DiagnosticSeverity::Error);
    assert_eq!(found[0].message, "bad character");
    assert_eq!(found[0].source, "syma");
    let nowhere = LexError { message: owned("m"), line: 0, col: 0 };
    assert_eq!(diagnose(&Analysis::LexFailed(nowhere))[0].range, range_on(0, 0, 1));
}

#[test]
fn parser_errors_are_diagnosed() {
    let error = ParseError { message: owned("unexpected"), span: Some(Span { line: 1, col: 9 }) };
    let found = diagnose(&Analysis::ParseFailed(error));
    assert_eq!(found.len(), 1);
    assert_eq!(found[0].range, range_on(0, 8, 9));
    assert_eq!(found[0].message, "unexpected");
    let nowhere = ParseError { message: owned("m"), span: None };
    assert_eq!(diagnose(&Analysis::ParseFailed(nowhere))[0].range, range_on(0, 0, 0));
}

#[test]
fn programs_have_no_diagnostics() {
    let program = Analysis::Parsed { tokens: vec![], statements: vec![Expr::Other] };
    assert!(diagnose(&program).is_empty());
}
