//! What a program defines.

use crate::analysis::{symbols_after, symbols_of, Analysis};
use crate::laws::sequences::{lemma_pick_last, lemma_pick_nothing};
use crate::protocol::SymbolKind;
use crate::sites::name_range;
use crate::symbols::{
    all_assigned, all_declared, all_located, assigned, count_declared, count_in_document, declared,
    joined_params, lemma_all_located, lemma_located_in_turn, param_name, signature_of, Declaration,
    Expr, Pattern, SymbolDefView,
};
use crate::syntax::{SpannedToken, SpannedTokenView};
use vstd::prelude::*;

verus! {

// ---------------------------------------------------------------------
// Parameters
// ---------------------------------------------------------------------

/// The characters of a type, if there is one.
pub open spec fn type_of(constraint: Option<String>) -> Seq<char> {
    match constraint {
        Some(text) => text@,
        None => seq![],
    }
}

/// A parameter is shown as its name, its underscores and its type, with a dot
/// behind it if it is optional. A sequence without a name is shown with one
/// underscore more.
pub proof fn law_parameters_are_shown(name: String, constraint: Option<String>)
    ensures
        param_name(Pattern::NamedBlank { name, type_constraint: constraint }) == name@ + seq!['_']
            + type_of(constraint),
        param_name(Pattern::Blank { type_constraint: constraint }) == seq!['_'] + type_of(
            constraint,
        ),
        param_name(
            Pattern::BlankSequence { name: Some(name), type_constraint: constraint },
        ) == name@ + seq!['_', '_'] + type_of(constraint),
        param_name(
            Pattern::BlankSequence { name: None, type_constraint: constraint },
        ) == seq!['_', '_', '_'] + type_of(constraint),
        param_name(
            Pattern::BlankNullSequence { name: Some(name), type_constraint: constraint },
        ) == name@ + seq!['_', '_', '_'] + type_of(constraint),
        param_name(
            Pattern::BlankNullSequence { name: None, type_constraint: constraint },
        ) == seq!['_', '_', '_', '_'] + type_of(constraint),
        param_name(
            Pattern::OptionalNamedBlank { name, type_constraint: constraint },
        ) == name@ + seq!['_'] + type_of(constraint) + seq!['.'],
        param_name(Pattern::OptionalBlank { type_constraint: constraint }) == seq!['_'] + type_of(
            constraint,
        ) + seq!['.'],
        param_name(Pattern::Symbol(name)) == name@,
        param_name(Pattern::Other(name)) == name@,
{
    reveal_strlit("_");
    reveal_strlit("__");
    reveal_strlit("___");
    reveal_strlit(".");
    assert("_"@ =~= seq!['_']);
    assert("__"@ =~= seq!['_', '_']);
    assert("___"@ =~= seq!['_', '_', '_']);
    assert("."@ =~= seq!['.']);
    let t = type_of(constraint);
    assert(t =~= crate::symbols::or_nothing(constraint));
    assert("_"@ + "__"@ + t =~= seq!['_', '_', '_'] + t);
    assert("_"@ + "___"@ + t =~= seq!['_', '_', '_', '_'] + t);
}

/// The signature of a function is its parameters one after the other, with a
/// comma and a blank between them. A function without parameters has none.
pub proof fn law_signatures_join_the_parameters(params: Seq<Pattern>, p: Pattern)
    ensures
        signature_of(Seq::empty()) is None,
        signature_of(seq![p]) == Some(param_name(p)),
        params.len() > 0 ==> signature_of(params) is Some && signature_of(params.push(p)) == Some(
            signature_of(params)->Some_0 + seq![',', ' '] + param_name(p),
        ),
{
    reveal_strlit(", ");
    assert(", "@ =~= seq![',', ' ']);
    assert(params.push(p).drop_last() =~= params);
    assert(joined_params(seq![p]) == param_name(p));
}

// ---------------------------------------------------------------------
// Definitions
// ---------------------------------------------------------------------

/// The definition of a variable, with its name before ` = ...`.
pub open spec fn variable_named(name: Seq<char>) -> Declaration {
    Declaration {
        name,
        kind: SymbolKind::Variable,
        detail: name + seq![' ', '=', ' ', '.', '.', '.'],
        signature: None,
    }
}

proof fn lemma_variable(name: Seq<char>)
    ensures
        crate::symbols::variable(name) == variable_named(name),
{
    reveal_strlit(" = ...");
    assert(" = ..."@ =~= seq![' ', '=', ' ', '.', '.', '.']);
}

/// An assignment defines a variable if a symbol is assigned to, and nothing if
/// anything else is.
pub proof fn law_assignments_define_variables(lhs: Box<Expr>)
    ensures
        *lhs matches Expr::Symbol(name) ==> declared(Expr::Assign { lhs }) == seq![
            variable_named(name@),
        ],
        !(*lhs is Symbol) ==> declared(Expr::Assign { lhs }) == Seq::<Declaration>::empty(),
{
    if let Expr::Symbol(name) = *lhs {
        lemma_variable(name@);
    }
}

/// A destructuring assignment defines a variable for each symbol among its
/// targets, in their order.
pub proof fn law_destructuring_defines_all_variables(patterns: Vec<Expr>)
    ensures
        declared(Expr::DestructAssign { patterns }) == patterns@.filter(
            |e: Expr| e is Symbol,
        ).map_values(|e: Expr| variable_named(e->Symbol_0@)),
{
    lemma_all_assigned(patterns@);
}

proof fn lemma_all_assigned(targets: Seq<Expr>)
    ensures
        all_assigned(targets) == targets.filter(|e: Expr| e is Symbol).map_values(
            |e: Expr| variable_named(e->Symbol_0@),
        ),
    decreases targets.len(),
{
    let keep = |e: Expr| e is Symbol;
    let turn = |e: Expr| variable_named(e->Symbol_0@);
    if targets.len() == 0 {
        lemma_pick_nothing(targets, keep, turn);
    } else {
        lemma_all_assigned(targets.drop_last());
        lemma_pick_last(targets, keep, turn);
        if let Expr::Symbol(name) = targets.last() {
            lemma_variable(name@);
            assert(assigned(targets.last()) =~= seq![turn(targets.last())]);
        } else {
            assert(assigned(targets.last()) =~= Seq::<Declaration>::empty());
        }
    }
}

/// A function definition defines one function, with its name before
/// `[...] := ...` and with its signature.
pub proof fn law_function_definitions_define_functions(name: String, params: Vec<Pattern>)
    ensures
        declared(Expr::FuncDef { name, params }) == seq![
            Declaration {
                name: name@,
                kind: SymbolKind::Function,
                detail: name@ + seq![
                    '[',
                    '.',
                    '.',
                    '.',
                    ']',
                    ' ',
                    ':',
                    '=',
                    ' ',
                    '.',
                    '.',
                    '.',
                ],
                signature: signature_of(params@),
            },
        ],
{
    reveal_strlit("[...] := ...");
    assert("[...] := ..."@ =~= seq!['[', '.', '.', '.', ']', ' ', ':', '=', ' ', '.', '.', '.']);
}

/// A class and a module each define one symbol, with its name behind the word
/// for what it is.
pub proof fn law_classes_and_modules_are_defined(name: String)
    ensures
        declared(Expr::ClassDef { name }) == seq![
            Declaration {
                name: name@,
                kind: SymbolKind::Class,
                detail: seq!['c', 'l', 'a', 's', 's', ' '] + name@,
                signature: None,
            },
        ],
        declared(Expr::ModuleDef { name }) == seq![
            Declaration {
                name: name@,
                kind: SymbolKind::Module,
                detail: seq!['m', 'o', 'd', 'u', 'l', 'e', ' '] + name@,
                signature: None,
            },
        ],
{
    reveal_strlit("class ");
    reveal_strlit("module ");
    assert("class "@ =~= seq!['c', 'l', 'a', 's', 's', ' ']);
    assert("module "@ =~= seq!['m', 'o', 'd', 'u', 'l', 'e', ' ']);
}

/// A symbol alone and any other expression define nothing.
pub proof fn law_other_expressions_define_nothing(name: String)
    ensures
        declared(Expr::Symbol(name)) == Seq::<Declaration>::empty(),
        declared(Expr::Other) == Seq::<Declaration>::empty(),
{
}

/// A sequence or a list defines what its expressions define, one after the
/// other.
pub proof fn law_expressions_define_in_their_order(
    items: Vec<Expr>,
    a: Seq<Expr>,
    e: Expr,
    b: Seq<Expr>,
)
    ensures
        declared(Expr::Sequence(items)) == all_declared(items@),
        declared(Expr::List(items)) == all_declared(items@),
        all_declared(Seq::empty()) == Seq::<Declaration>::empty(),
        all_declared(seq![e]) == declared(e),
        all_declared(a + b) == all_declared(a) + all_declared(b),
    decreases b.len(),
{
    reveal_with_fuel(all_declared, 2);
    assert(seq![e].drop_last() =~= Seq::<Expr>::empty());
    assert(all_declared(seq![e]) =~= declared(e));
    if b.len() == 0 {
        assert(a + b =~= a);
        assert(all_declared(a) + all_declared(b) =~= all_declared(a));
    } else {
        law_expressions_define_in_their_order(items, a, e, b.drop_last());
        assert((a + b).drop_last() =~= a + b.drop_last());
        assert((a + b).last() == b.last());
        assert(all_declared(a) + (all_declared(b.drop_last()) + declared(b.last()))
            =~= all_declared(a) + all_declared(b.drop_last()) + declared(b.last()));
        assert(all_declared(a + b) =~= all_declared(a) + all_declared(b));
    }
}

// ---------------------------------------------------------------------
// Documents
// ---------------------------------------------------------------------

proof fn lemma_count(found: Seq<Declaration>, name: Seq<char>, kind: SymbolKind)
    ensures
        count_declared(found, name, kind) == found.filter(
            |d: Declaration| d.name == name && d.kind == kind,
        ).len(),
    decreases found.len(),
{
    reveal(Seq::filter);
    if found.len() > 0 {
        lemma_count(found.drop_last(), name, kind);
    }
}

proof fn lemma_known(
    defs: Seq<SymbolDefView>,
    uri: Seq<char>,
    name: Seq<char>,
    kind: SymbolKind,
)
    ensures
        count_in_document(defs, uri, name, kind) == defs.filter(
            |d: SymbolDefView| d.uri == uri && d.name == name && d.kind == kind,
        ).len(),
    decreases defs.len(),
{
    reveal(Seq::filter);
    if defs.len() > 0 {
        lemma_known(defs.drop_last(), uri, name, kind);
    }
}

proof fn lemma_found(
    before: Seq<SymbolDefView>,
    found: Seq<Declaration>,
    uri: Seq<char>,
    tokens: Seq<SpannedTokenView>,
    name: Seq<char>,
    kind: SymbolKind,
)
    ensures
        count_in_document(before + all_located(before, found, uri, tokens), uri, name, kind)
            == count_in_document(before, uri, name, kind) + count_declared(found, name, kind),
    decreases found.len(),
{
    if found.len() == 0 {
        assert(before + all_located(before, found, uri, tokens) =~= before);
    } else {
        lemma_found(before, found.drop_last(), uri, tokens, name, kind);
        let all = before + all_located(before, found, uri, tokens);
        assert(all.drop_last() =~= before + all_located(before, found.drop_last(), uri, tokens));
    }
}

/// What is found in a document becomes a definition there, one for one and in
/// the same order, with its name, kind, detail and signature. It stands at the
/// place of its name and kind which comes behind those of the definitions of
/// this name and kind that the document has already.
pub proof fn law_definitions_come_behind_the_known_ones(
    before: Seq<SymbolDefView>,
    found: Seq<Declaration>,
    uri: Seq<char>,
    tokens: Seq<SpannedTokenView>,
    n: int,
)
    requires
        0 <= n < found.len(),
    ensures
        all_located(before, found, uri, tokens).len() == found.len(),
        ({
            let d = found[n];
            all_located(before, found, uri, tokens)[n] == (SymbolDefView {
                name: d.name,
                uri,
                range: name_range(
                    tokens,
                    d.name,
                    d.kind,
                    before.filter(
                        |other: SymbolDefView|
                            other.uri == uri && other.name == d.name && other.kind == d.kind,
                    ).len() + found.take(n).filter(
                        |other: Declaration| other.name == d.name && other.kind == d.kind,
                    ).len(),
                ),
                kind: d.kind,
                detail: d.detail,
                signature: d.signature,
            })
        }),
{
    let d = found[n];
    let head = found.take(n);
    lemma_all_located(before, found, uri, tokens);
    lemma_located_in_turn(before, found, uri, tokens, n);
    lemma_found(before, head, uri, tokens, d.name, d.kind);
    lemma_known(before, uri, d.name, d.kind);
    lemma_count(head, d.name, d.kind);
}

/// A document whose text is no program defines nothing. One whose text is a
/// program defines what its statements define, in their order: each symbol with
/// its name, kind, detail and signature, in this document, and at the place of
/// that name and kind which comes behind those of the same name and kind before.
pub proof fn law_documents_define_what_their_statements_define(
    before: Seq<SymbolDefView>,
    analysis: Analysis,
    uri: Seq<char>,
    tokens: Vec<SpannedToken>,
    statements: Vec<Expr>,
    n: int,
)
    ensures
        !(analysis is Parsed) ==> symbols_of(analysis, uri) == Seq::<SymbolDefView>::empty()
            && symbols_after(before, analysis, uri) == Seq::<SymbolDefView>::empty(),
        symbols_after(before, Analysis::Parsed { tokens, statements }, uri) == all_located(
            before,
            all_declared(statements@),
            uri,
            tokens.deep_view(),
        ),
        symbols_of(Analysis::Parsed { tokens, statements }, uri).len() == all_declared(
            statements@,
        ).len(),
        0 <= n < all_declared(statements@).len() ==> ({
            let found = all_declared(statements@);
            let d = found[n];
            symbols_of(Analysis::Parsed { tokens, statements }, uri)[n] == (SymbolDefView {
                name: d.name,
                uri,
                range: name_range(
                    tokens.deep_view(),
                    d.name,
                    d.kind,
                    found.take(n).filter(
                        |other: Declaration| other.name == d.name && other.kind == d.kind,
                    ).len(),
                ),
                kind: d.kind,
                detail: d.detail,
                signature: d.signature,
            })
        }),
{
    let all = tokens.deep_view();
    let found = all_declared(statements@);
    let none = Seq::<SymbolDefView>::empty();
    lemma_all_located(none, found, uri, all);
    if 0 <= n < found.len() {
        let d = found[n];
        law_definitions_come_behind_the_known_ones(none, found, uri, all, n);
        lemma_known(none, uri, d.name, d.kind);
    }
}

} // verus!
