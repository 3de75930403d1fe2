//! The outcome of analysing a document, and what follows from it.

use crate::protocol::{Diagnostic, DiagnosticView};
use crate::symbols::{
    all_declared, all_located, lemma_all_located, lemma_located_alone, walk_all_for_symbols, Expr,
    SymbolDef, SymbolDefView,
};
use crate::syntax::{
    diagnose_lex_error, diagnose_parse_error, lex_diagnostic, parse_diagnostic, LexError,
    ParseError, SpannedToken,
};
use vstd::prelude::*;

verus! {

/// What the lexer and the parser make of a text.
#[derive(Debug)]
pub enum Analysis {
    /// The text cannot be split into tokens.
    LexFailed(LexError),
    /// The tokens do not form a program.
    ParseFailed(ParseError),
    /// The tokens and the statements of a program.
    Parsed { tokens: Vec<SpannedToken>, statements: Vec<Expr> },
}

/// The diagnostics of a text: that of the error, if there is one.
pub open spec fn diagnostics_of(analysis: Analysis) -> Seq<DiagnosticView> {
    match analysis {
        Analysis::LexFailed(e) => seq![lex_diagnostic(e)],
        Analysis::ParseFailed(e) => seq![parse_diagnostic(e)],
        Analysis::Parsed { tokens, statements } => Seq::empty(),
    }
}

/// The symbols that a document defines, where `before` are the definitions that
/// are known already; none, if it is no program.
pub open spec fn symbols_after(
    before: Seq<SymbolDefView>,
    analysis: Analysis,
    uri: Seq<char>,
) -> Seq<SymbolDefView> {
    match analysis {
        Analysis::Parsed { tokens, statements } => all_located(
            before,
            all_declared(statements@),
            uri,
            tokens.deep_view(),
        ),
        _ => Seq::empty(),
    }
}

/// The symbols that a document defines.
pub open spec fn symbols_of(analysis: Analysis, uri: Seq<char>) -> Seq<SymbolDefView> {
    symbols_after(Seq::empty(), analysis, uri)
}

/// Every symbol that a document defines is defined in it.
pub proof fn lemma_symbols_uri(analysis: Analysis, uri: Seq<char>)
    ensures
        forall|i: int|
            0 <= i < symbols_of(analysis, uri).len() ==> (#[trigger] symbols_of(
                analysis,
                uri,
            )[i]).uri == uri,
{
    if let Analysis::Parsed { tokens, statements } = analysis {
        lemma_all_located(Seq::empty(), all_declared(statements@), uri, tokens.deep_view());
    }
}

/// The symbols of a document do not depend on those of other documents.
pub proof fn lemma_symbols_alone(before: Seq<SymbolDefView>, analysis: Analysis, uri: Seq<char>)
    requires
        forall|i: int| 0 <= i < before.len() ==> (#[trigger] before[i]).uri != uri,
    ensures
        symbols_after(before, analysis, uri) == symbols_of(analysis, uri),
{
    if let Analysis::Parsed { tokens, statements } = analysis {
        lemma_located_alone(before, all_declared(statements@), uri, tokens.deep_view());
    }
}

/// The definitions that do not stand in the document with a URI.
pub open spec fn outside_document(defs: Seq<SymbolDefView>, uri: Seq<char>) -> Seq<SymbolDefView>
    decreases defs.len(),
{
    if defs.len() == 0 {
        Seq::empty()
    } else {
        let before = outside_document(defs.drop_last(), uri);
        if defs.last().uri == uri {
            before
        } else {
            before.push(defs.last())
        }
    }
}

/// The definitions outside a document are those with another URI.
pub proof fn lemma_outside_document(defs: Seq<SymbolDefView>, uri: Seq<char>)
    ensures
        forall|i: int|
            0 <= i < outside_document(defs, uri).len() ==> (#[trigger] outside_document(
                defs,
                uri,
            )[i]).uri != uri && defs.contains(outside_document(defs, uri)[i]),
        forall|i: int|
            0 <= i < defs.len() && (#[trigger] defs[i]).uri != uri ==> outside_document(
                defs,
                uri,
            ).contains(defs[i]),
    decreases defs.len(),
{
    if defs.len() > 0 {
        let init = defs.drop_last();
        lemma_outside_document(init, uri);
        let before = outside_document(init, uri);
        let after = outside_document(defs, uri);
        assert forall|i: int| 0 <= i < after.len() implies (#[trigger] after[i]).uri != uri
            && defs.contains(after[i]) by {
            if i < before.len() {
                assert(after[i] == before[i]);
                let k = choose|k: int| 0 <= k < init.len() && init[k] == before[i];
                assert(defs[k] == after[i]);
            } else {
                assert(defs[defs.len() - 1] == after[i]);
            }
        }
        assert forall|i: int| 0 <= i < defs.len() && (#[trigger] defs[i]).uri
            != uri implies after.contains(defs[i]) by {
            if i < init.len() {
                assert(init[i] == defs[i]);
                let k = choose|k: int| 0 <= k < before.len() && before[k] == init[i];
                assert(after[k] == defs[i]);
            } else {
                assert(after[before.len() as int] == defs[i]);
            }
        }
    }
}

/// The definitions of a document are none, once those of the document are
/// left out.
pub proof fn lemma_outside_document_is_stable(defs: Seq<SymbolDefView>, uri: Seq<char>)
    ensures
        outside_document(outside_document(defs, uri), uri) == outside_document(defs, uri),
    decreases defs.len(),
{
    if defs.len() > 0 {
        lemma_outside_document_is_stable(defs.drop_last(), uri);
        if defs.last().uri != uri {
            let before = outside_document(defs.drop_last(), uri);
            assert(outside_document(defs, uri).drop_last() =~= before);
        }
    }
}

/// What is left out of two parts together is left out of each.
pub proof fn lemma_outside_document_add(
    a: Seq<SymbolDefView>,
    b: Seq<SymbolDefView>,
    uri: Seq<char>,
)
    ensures
        outside_document(a + b, uri) == outside_document(a, uri) + outside_document(b, uri),
    decreases b.len(),
{
    if b.len() == 0 {
        assert(a + b =~= a);
        assert(outside_document(a, uri) + Seq::<SymbolDefView>::empty() =~= outside_document(
            a,
            uri,
        ));
    } else {
        lemma_outside_document_add(a, b.drop_last(), uri);
        assert((a + b).drop_last() =~= a + b.drop_last());
        assert(outside_document(a + b, uri) =~= outside_document(a, uri) + outside_document(
            b,
            uri,
        ));
    }
}

/// The diagnostics of a text.
pub fn diagnose(analysis: &Analysis) -> (r: Vec<Diagnostic>)
    ensures
        r.deep_view() == diagnostics_of(*analysis),
{
    let mut out: Vec<Diagnostic> = Vec::new();
    match analysis {
        Analysis::LexFailed(e) => {
            out.push(diagnose_lex_error(e));
        },
        Analysis::ParseFailed(e) => {
            out.push(diagnose_parse_error(e));
        },
        Analysis::Parsed { tokens, statements } => {},
    }
    assert(out.deep_view() =~= diagnostics_of(*analysis));
    out
}

/// Adds the symbols that a document defines.
pub fn collect_symbols(analysis: &Analysis, uri: &str, defs: &mut Vec<SymbolDef>)
    ensures
        final(defs).deep_view() == old(defs).deep_view() + symbols_after(
            old(defs).deep_view(),
            *analysis,
            uri@,
        ),
{
    match analysis {
        Analysis::Parsed { tokens, statements } => {
            walk_all_for_symbols(statements, uri, tokens, defs);
        },
        _ => {
            assert(defs.deep_view() + Seq::<SymbolDefView>::empty() =~= defs.deep_view());
        },
    }
}

} // verus!
