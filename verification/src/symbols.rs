//! The symbols that a program defines.

use crate::protocol::{Range, SymbolKind};
use crate::sites::{
    is_place, law_definitions_stand_at_their_places, name_range, places_before, range_of_name,
    Scope,
};
use crate::strings::{concat2, copied, same};
use crate::syntax::{span_range, SpannedToken, SpannedTokenView};
use vstd::prelude::*;

verus! {

/// A parameter of a function definition.
#[derive(Debug)]
#[allow(inconsistent_fields)]
pub enum Pattern {
    /// `name_` or `name_Type`
    NamedBlank { name: String, type_constraint: Option<String> },
    /// `_` or `_Type`
    Blank { type_constraint: Option<String> },
    /// `name__` or `name__Type`
    BlankSequence { name: Option<String>, type_constraint: Option<String> },
    /// `name___` or `name___Type`
    BlankNullSequence { name: Option<String>, type_constraint: Option<String> },
    /// `name_.` or `name_Type.`
    OptionalNamedBlank { name: String, type_constraint: Option<String> },
    /// `_.` or `_Type.`
    OptionalBlank { type_constraint: Option<String> },
    /// A literal symbol.
    Symbol(String),
    /// Any other expression, as it is printed.
    Other(String),
}

/// An expression, as far as it can define symbols.
#[derive(Debug)]
pub enum Expr {
    /// `lhs = value`
    Assign { lhs: Box<Expr> },
    /// `name[params] := body`
    FuncDef { name: String, params: Vec<Pattern> },
    /// A class of this name.
    ClassDef { name: String },
    /// A module of this name.
    ModuleDef { name: String },
    /// `{patterns} = value`
    DestructAssign { patterns: Vec<Expr> },
    /// Expressions one after the other.
    Sequence(Vec<Expr>),
    /// A list of expressions.
    List(Vec<Expr>),
    /// A symbol.
    Symbol(String),
    /// An expression that defines nothing.
    Other,
}

/// A definition site of a symbol.
#[derive(Debug)]
pub struct SymbolDef {
    pub name: String,
    pub uri: String,
    pub range: Range,
    pub kind: SymbolKind,
    pub detail: String,
    /// The parameters of a function that has any, separated by commas.
    pub signature: Option<String>,
}

/// A definition site of a symbol, with its texts as character sequences.
#[verifier::ext_equal]
pub struct SymbolDefView {
    pub name: Seq<char>,
    pub uri: Seq<char>,
    pub range: Range,
    pub kind: SymbolKind,
    pub detail: Seq<char>,
    pub signature: Option<Seq<char>>,
}

impl DeepView for SymbolDef {
    type V = SymbolDefView;

    open spec fn deep_view(&self) -> SymbolDefView {
        SymbolDefView {
            name: self.name@,
            uri: self.uri@,
            range: self.range,
            kind: self.kind,
            detail: self.detail@,
            signature: self.signature.deep_view(),
        }
    }
}

// ---------------------------------------------------------------------
// Parameters
// ---------------------------------------------------------------------

/// A text, or nothing where there is none.
pub open spec fn or_nothing(s: Option<String>) -> Seq<char> {
    match s {
        Some(text) => text@,
        None => Seq::empty(),
    }
}

/// A name, or `_` where there is none.
pub open spec fn or_underscore(s: Option<String>) -> Seq<char> {
    match s {
        Some(text) => text@,
        None => "_"@,
    }
}

/// How a parameter is shown.
pub open spec fn param_name(p: Pattern) -> Seq<char> {
    match p {
        Pattern::NamedBlank { name, type_constraint } => name@ + "_"@ + or_nothing(type_constraint),
        Pattern::Blank { type_constraint } => "_"@ + or_nothing(type_constraint),
        Pattern::BlankSequence { name, type_constraint } => or_underscore(name) + "__"@
            + or_nothing(type_constraint),
        Pattern::BlankNullSequence { name, type_constraint } => or_underscore(name) + "___"@
            + or_nothing(type_constraint),
        Pattern::OptionalNamedBlank { name, type_constraint } => name@ + "_"@ + or_nothing(
            type_constraint,
        ) + "."@,
        Pattern::OptionalBlank { type_constraint } => "_"@ + or_nothing(type_constraint) + "."@,
        Pattern::Symbol(name) => name@,
        Pattern::Other(text) => text@,
    }
}

fn append_optional(out: &mut String, s: &Option<String>)
    ensures
        final(out)@ == old(out)@ + or_nothing(*s),
{
    match s {
        Some(text) => {
            out.append(text.as_str());
        },
        None => {
            assert(out@ + Seq::<char>::empty() =~= out@);
        },
    }
}

fn name_or_underscore(s: &Option<String>) -> (r: String)
    ensures
        r@ == or_underscore(*s),
{
    match s {
        Some(text) => copied(text.as_str()),
        None => copied("_"),
    }
}

/// How a parameter is shown.
pub fn extract_param_name(p: &Pattern) -> (r: String)
    ensures
        r@ == param_name(*p),
{
    match p {
        Pattern::NamedBlank { name, type_constraint } => {
            let mut out: String = concat2(name.as_str(), "_");
            append_optional(&mut out, type_constraint);
            out
        },
        Pattern::Blank { type_constraint } => {
            let mut out: String = copied("_");
            append_optional(&mut out, type_constraint);
            out
        },
        Pattern::BlankSequence { name, type_constraint } => {
            let mut out: String = name_or_underscore(name);
            out.append("__");
            append_optional(&mut out, type_constraint);
            out
        },
        Pattern::BlankNullSequence { name, type_constraint } => {
            let mut out: String = name_or_underscore(name);
            out.append("___");
            append_optional(&mut out, type_constraint);
            out
        },
        Pattern::OptionalNamedBlank { name, type_constraint } => {
            let mut out: String = concat2(name.as_str(), "_");
            append_optional(&mut out, type_constraint);
            out.append(".");
            out
        },
        Pattern::OptionalBlank { type_constraint } => {
            let mut out: String = copied("_");
            append_optional(&mut out, type_constraint);
            out.append(".");
            out
        },
        Pattern::Symbol(name) => copied(name.as_str()),
        Pattern::Other(text) => copied(text.as_str()),
    }
}

/// The parameters as they are shown, separated by commas.
pub open spec fn joined_params(params: Seq<Pattern>) -> Seq<char>
    decreases params.len(),
{
    if params.len() == 0 {
        Seq::empty()
    } else if params.len() == 1 {
        param_name(params[0])
    } else {
        joined_params(params.drop_last()) + ", "@ + param_name(params.last())
    }
}

/// The signature of a function with these parameters.
pub open spec fn signature_of(params: Seq<Pattern>) -> Option<Seq<char>> {
    if params.len() == 0 {
        None
    } else {
        Some(joined_params(params))
    }
}

fn build_signature(params: &Vec<Pattern>) -> (r: Option<String>)
    ensures
        r.deep_view() == signature_of(params@),
{
    if params.len() == 0 {
        return None;
    }
    let mut out: String = extract_param_name(&params[0]);
    let mut i: usize = 1;
    assert(params@.take(1)[0] == params@[0]);
    while i < params.len()
        invariant
            1 <= i <= params@.len(),
            out@ == joined_params(params@.take(i as int)),
        decreases params@.len() - i,
    {
        let name: String = extract_param_name(&params[i]);
        out.append(", ");
        out.append(name.as_str());
        i += 1;
        assert(params@.take(i as int).drop_last() =~= params@.take(i - 1));
    }
    assert(params@.take(i as int) =~= params@);
    Some(out)
}

// ---------------------------------------------------------------------
// Definitions
// ---------------------------------------------------------------------

/// A definition of a symbol, apart from where it stands.
#[verifier::ext_equal]
pub struct Declaration {
    pub name: Seq<char>,
    pub kind: SymbolKind,
    pub detail: Seq<char>,
    pub signature: Option<Seq<char>>,
}

/// The definition of a variable.
pub open spec fn variable(name: Seq<char>) -> Declaration {
    Declaration { name, kind: SymbolKind::Variable, detail: name + " = ..."@, signature: None }
}

/// The definition of a function.
pub open spec fn function(name: Seq<char>, params: Seq<Pattern>) -> Declaration {
    Declaration {
        name,
        kind: SymbolKind::Function,
        detail: name + "[...] := ..."@,
        signature: signature_of(params),
    }
}

/// The definition of a class.
pub open spec fn class(name: Seq<char>) -> Declaration {
    Declaration { name, kind: SymbolKind::Class, detail: "class "@ + name, signature: None }
}

/// The definition of a module.
pub open spec fn module(name: Seq<char>) -> Declaration {
    Declaration { name, kind: SymbolKind::Module, detail: "module "@ + name, signature: None }
}

/// The variable that an assignment to `target` defines, if the target is a
/// symbol.
pub open spec fn assigned(target: Expr) -> Seq<Declaration> {
    match target {
        Expr::Symbol(name) => seq![variable(name@)],
        _ => Seq::empty(),
    }
}

/// The variables that a destructuring assignment to all `targets` defines.
pub open spec fn all_assigned(targets: Seq<Expr>) -> Seq<Declaration>
    decreases targets.len(),
{
    if targets.len() == 0 {
        Seq::empty()
    } else {
        all_assigned(targets.drop_last()) + assigned(targets.last())
    }
}

/// The symbols that an expression defines, in their order.
pub open spec fn declared(expr: Expr) -> Seq<Declaration>
    decreases expr,
{
    match expr {
        Expr::Assign { lhs } => assigned(*lhs),
        Expr::FuncDef { name, params } => seq![function(name@, params@)],
        Expr::ClassDef { name } => seq![class(name@)],
        Expr::ModuleDef { name } => seq![module(name@)],
        Expr::DestructAssign { patterns } => all_assigned(patterns@),
        Expr::Sequence(items) => all_declared(items@),
        Expr::List(items) => all_declared(items@),
        Expr::Symbol(_) => Seq::empty(),
        Expr::Other => Seq::empty(),
    }
}

/// The symbols that a sequence of expressions defines, in their order.
pub open spec fn all_declared(exprs: Seq<Expr>) -> Seq<Declaration>
    decreases exprs,
{
    if exprs.len() == 0 {
        Seq::empty()
    } else {
        all_declared(exprs.drop_last()) + declared(exprs.last())
    }
}

/// How many definitions of a name and a kind a document has among `defs`.
pub open spec fn count_in_document(
    defs: Seq<SymbolDefView>,
    uri: Seq<char>,
    name: Seq<char>,
    kind: SymbolKind,
) -> nat
    decreases defs.len(),
{
    if defs.len() == 0 {
        0
    } else {
        let d = defs.last();
        count_in_document(defs.drop_last(), uri, name, kind) + (if d.uri == uri && d.name == name
            && d.kind == kind {
            1nat
        } else {
            0nat
        })
    }
}

/// A definition in the document `uri`, where `before` are the definitions that
/// are known already. It stands behind those of its name and kind.
pub open spec fn located(
    before: Seq<SymbolDefView>,
    d: Declaration,
    uri: Seq<char>,
    tokens: Seq<SpannedTokenView>,
) -> SymbolDefView {
    SymbolDefView {
        name: d.name,
        uri,
        range: name_range(tokens, d.name, d.kind, count_in_document(before, uri, d.name, d.kind)),
        kind: d.kind,
        detail: d.detail,
        signature: d.signature,
    }
}

/// Definitions in the document `uri`, where `before` are the definitions that
/// are known already.
pub open spec fn all_located(
    before: Seq<SymbolDefView>,
    found: Seq<Declaration>,
    uri: Seq<char>,
    tokens: Seq<SpannedTokenView>,
) -> Seq<SymbolDefView>
    decreases found.len(),
{
    if found.len() == 0 {
        Seq::empty()
    } else {
        let done = all_located(before, found.drop_last(), uri, tokens);
        done.push(located(before + done, found.last(), uri, tokens))
    }
}

/// Every definition is located in its document.
pub proof fn lemma_all_located(
    before: Seq<SymbolDefView>,
    found: Seq<Declaration>,
    uri: Seq<char>,
    tokens: Seq<SpannedTokenView>,
)
    ensures
        all_located(before, found, uri, tokens).len() == found.len(),
        forall|i: int|
            0 <= i < found.len() ==> (#[trigger] all_located(before, found, uri, tokens)[i]).uri
                == uri,
    decreases found.len(),
{
    if found.len() > 0 {
        lemma_all_located(before, found.drop_last(), uri, tokens);
    }
}

/// A definition is located behind those that are found before it.
pub proof fn lemma_located_in_turn(
    before: Seq<SymbolDefView>,
    found: Seq<Declaration>,
    uri: Seq<char>,
    tokens: Seq<SpannedTokenView>,
    n: int,
)
    requires
        0 <= n < found.len(),
    ensures
        all_located(before, found, uri, tokens)[n] == located(
            before + all_located(before, found.take(n), uri, tokens),
            found[n],
            uri,
            tokens,
        ),
    decreases found.len(),
{
    let init = found.drop_last();
    lemma_all_located(before, init, uri, tokens);
    if n < init.len() {
        lemma_located_in_turn(before, init, uri, tokens, n);
        assert(init.take(n) =~= found.take(n));
    } else {
        assert(init =~= found.take(n));
    }
}

/// Two groups of definitions are located one after the other.
proof fn lemma_all_located_add(
    before: Seq<SymbolDefView>,
    a: Seq<Declaration>,
    b: Seq<Declaration>,
    uri: Seq<char>,
    tokens: Seq<SpannedTokenView>,
)
    ensures
        all_located(before, a + b, uri, tokens) == all_located(before, a, uri, tokens)
            + all_located(before + all_located(before, a, uri, tokens), b, uri, tokens),
    decreases b.len(),
{
    let first = all_located(before, a, uri, tokens);
    let known = before + first;
    if b.len() == 0 {
        assert(a + b =~= a);
        assert(first + all_located(known, b, uri, tokens) =~= first);
    } else {
        let init = b.drop_last();
        lemma_all_located_add(before, a, init, uri, tokens);
        assert((a + b).drop_last() =~= a + init);
        let second = all_located(known, init, uri, tokens);
        assert(before + (first + second) =~= known + second);
        assert(all_located(before, a + b, uri, tokens) =~= first + all_located(
            known,
            b,
            uri,
            tokens,
        ));
    }
}

proof fn lemma_count_add(
    a: Seq<SymbolDefView>,
    b: Seq<SymbolDefView>,
    uri: Seq<char>,
    name: Seq<char>,
    kind: SymbolKind,
)
    ensures
        count_in_document(a + b, uri, name, kind) == count_in_document(a, uri, name, kind)
            + count_in_document(b, uri, name, kind),
    decreases b.len(),
{
    if b.len() == 0 {
        assert(a + b =~= a);
    } else {
        lemma_count_add(a, b.drop_last(), uri, name, kind);
        assert((a + b).drop_last() =~= a + b.drop_last());
    }
}

proof fn lemma_count_elsewhere(
    defs: Seq<SymbolDefView>,
    uri: Seq<char>,
    name: Seq<char>,
    kind: SymbolKind,
)
    requires
        forall|i: int| 0 <= i < defs.len() ==> (#[trigger] defs[i]).uri != uri,
    ensures
        count_in_document(defs, uri, name, kind) == 0,
    decreases defs.len(),
{
    if defs.len() > 0 {
        let init = defs.drop_last();
        assert(forall|i: int| 0 <= i < init.len() ==> #[trigger] init[i] == defs[i]);
        lemma_count_elsewhere(init, uri, name, kind);
        assert(defs[defs.len() - 1] == defs.last());
    }
}

/// The definitions of other documents have no say in where a definition
/// stands.
pub proof fn lemma_located_alone(
    before: Seq<SymbolDefView>,
    found: Seq<Declaration>,
    uri: Seq<char>,
    tokens: Seq<SpannedTokenView>,
)
    requires
        forall|i: int| 0 <= i < before.len() ==> (#[trigger] before[i]).uri != uri,
    ensures
        all_located(before, found, uri, tokens) == all_located(Seq::empty(), found, uri, tokens),
    decreases found.len(),
{
    if found.len() > 0 {
        let init = found.drop_last();
        let d = found.last();
        lemma_located_alone(before, init, uri, tokens);
        let done = all_located(before, init, uri, tokens);
        lemma_count_add(before, done, uri, d.name, d.kind);
        lemma_count_elsewhere(before, uri, d.name, d.kind);
        assert(Seq::<SymbolDefView>::empty() + done =~= done);
    }
}

/// How many of some definitions are of a name and a kind.
pub open spec fn count_declared(found: Seq<Declaration>, name: Seq<char>, kind: SymbolKind) -> nat
    decreases found.len(),
{
    if found.len() == 0 {
        0
    } else {
        count_declared(found.drop_last(), name, kind) + (if found.last().name == name
            && found.last().kind == kind {
            1nat
        } else {
            0nat
        })
    }
}

proof fn lemma_count_located(
    found: Seq<Declaration>,
    uri: Seq<char>,
    tokens: Seq<SpannedTokenView>,
    name: Seq<char>,
    kind: SymbolKind,
)
    ensures
        count_in_document(
            all_located(Seq::empty(), found, uri, tokens),
            uri,
            name,
            kind,
        ) == count_declared(found, name, kind),
    decreases found.len(),
{
    if found.len() > 0 {
        lemma_count_located(found.drop_last(), uri, tokens, name, kind);
        let all = all_located(Seq::empty(), found, uri, tokens);
        assert(all.drop_last() =~= all_located(Seq::empty(), found.drop_last(), uri, tokens));
    }
}

/// The definitions of a name and a kind in a document take the places of that
/// name in turn: if as many places as definitions come before, the definition
/// stands at the place.
pub proof fn law_definitions_take_their_places_in_turn(
    found: Seq<Declaration>,
    uri: Seq<char>,
    tokens: Seq<SpannedTokenView>,
    n: int,
    i: int,
)
    requires
        0 <= n < found.len(),
        is_place(tokens, i, found[n].name, Scope::Statement(found[n].kind)),
        places_before(tokens, found[n].name, Scope::Statement(found[n].kind), i)
            == count_declared(found.take(n), found[n].name, found[n].kind),
    ensures
        all_located(Seq::empty(), found, uri, tokens)[n].range == span_range(
            tokens[i].span,
            found[n].name.len(),
        ),
{
    let d = found[n];
    let head = found.take(n);
    let first = all_located(Seq::empty(), head, uri, tokens);
    lemma_located_in_turn(Seq::empty(), found, uri, tokens, n);
    assert(Seq::<SymbolDefView>::empty() + first =~= first);
    lemma_count_located(head, uri, tokens, d.name, d.kind);
    law_definitions_stand_at_their_places(tokens, d.name, d.kind, i);
}

fn count_known(defs: &Vec<SymbolDef>, uri: &str, name: &str, kind: SymbolKind) -> (r: usize)
    ensures
        r == count_in_document(defs.deep_view(), uri@, name@, kind),
{
    let ghost all = defs.deep_view();
    let mut count: usize = 0;
    let mut i: usize = 0;
    while i < defs.len()
        invariant
            i <= defs@.len(),
            count <= i,
            all == defs.deep_view(),
            count == count_in_document(all.take(i as int), uri@, name@, kind),
        decreases defs@.len() - i,
    {
        let d: &SymbolDef = &defs[i];
        assert(all.take(i + 1).drop_last() =~= all.take(i as int));
        assert(all.take(i + 1).last() == d.deep_view());
        if same(d.uri.as_str(), uri) && same(d.name.as_str(), name) && d.kind == kind {
            count += 1;
        }
        i += 1;
    }
    assert(all.take(i as int) =~= all);
    count
}

fn push_def(
    defs: &mut Vec<SymbolDef>,
    name: &String,
    uri: &str,
    tokens: &Vec<SpannedToken>,
    kind: SymbolKind,
    detail: String,
    signature: Option<String>,
)
    ensures
        final(defs).deep_view() == old(defs).deep_view() + all_located(
            old(defs).deep_view(),
            seq![
                Declaration {
                    name: name@,
                    kind,
                    detail: detail@,
                    signature: signature.deep_view(),
                },
            ],
            uri@,
            tokens.deep_view(),
        ),
{
    let ghost before = defs.deep_view();
    let ghost d = Declaration {
        name: name@,
        kind,
        detail: detail@,
        signature: signature.deep_view(),
    };
    let k: usize = count_known(defs, uri, name.as_str(), kind);
    let range: Range = range_of_name(tokens, name.as_str(), kind, k);
    defs.push(
        SymbolDef { name: copied(name.as_str()), uri: copied(uri), range, kind, detail, signature },
    );
    proof {
        let all = tokens.deep_view();
        reveal_with_fuel(all_located, 2);
        assert(seq![d].drop_last() =~= Seq::<Declaration>::empty());
        assert(before + Seq::<SymbolDefView>::empty() =~= before);
        assert(all_located(before, seq![d], uri@, all) =~= seq![located(before, d, uri@, all)]);
        assert(defs.deep_view() =~= before + seq![located(before, d, uri@, all)]);
    }
}

fn push_variable(target: &Expr, uri: &str, tokens: &Vec<SpannedToken>, defs: &mut Vec<SymbolDef>)
    ensures
        final(defs).deep_view() == old(defs).deep_view() + all_located(
            old(defs).deep_view(),
            assigned(*target),
            uri@,
            tokens.deep_view(),
        ),
{
    match target {
        Expr::Symbol(name) => {
            let detail: String = concat2(name.as_str(), " = ...");
            push_def(defs, name, uri, tokens, SymbolKind::Variable, detail, None);
        },
        _ => {
            assert(defs.deep_view() + Seq::<SymbolDefView>::empty() =~= defs.deep_view());
        },
    }
}

/// Collects the symbols that an expression tree defines.
pub fn walk_expr_for_symbols(
    expr: &Expr,
    uri: &str,
    tokens: &Vec<SpannedToken>,
    defs: &mut Vec<SymbolDef>,
)
    ensures
        final(defs).deep_view() == old(defs).deep_view() + all_located(
            old(defs).deep_view(),
            declared(*expr),
            uri@,
            tokens.deep_view(),
        ),
    decreases *expr,
{
    match expr {
        Expr::Assign { lhs } => {
            push_variable(lhs, uri, tokens, defs);
        },
        Expr::FuncDef { name, params } => {
            let signature: Option<String> = build_signature(params);
            let detail: String = concat2(name.as_str(), "[...] := ...");
            push_def(defs, name, uri, tokens, SymbolKind::Function, detail, signature);
        },
        Expr::ClassDef { name } => {
            let detail: String = concat2("class ", name.as_str());
            push_def(defs, name, uri, tokens, SymbolKind::Class, detail, None);
        },
        Expr::ModuleDef { name } => {
            let detail: String = concat2("module ", name.as_str());
            push_def(defs, name, uri, tokens, SymbolKind::Module, detail, None);
        },
        Expr::DestructAssign { patterns } => {
            let ghost before = defs.deep_view();
            let ghost all = tokens.deep_view();
            let mut i: usize = 0;
            assert(before + Seq::<SymbolDefView>::empty() =~= before);
            while i < patterns.len()
                invariant
                    i <= patterns@.len(),
                    all == tokens.deep_view(),
                    defs.deep_view() == before + all_located(
                        before,
                        all_assigned(patterns@.take(i as int)),
                        uri@,
                        all,
                    ),
                decreases patterns@.len() - i,
            {
                let ghost so_far = all_assigned(patterns@.take(i as int));
                let ghost one = assigned(patterns@[i as int]);
                let ghost known = defs.deep_view();
                push_variable(&patterns[i], uri, tokens, defs);
                proof {
                    lemma_all_located_add(before, so_far, one, uri@, all);
                    assert(patterns@.take(i + 1).drop_last() =~= patterns@.take(i as int));
                    assert(known + all_located(known, one, uri@, all) =~= before + all_located(
                        before,
                        so_far + one,
                        uri@,
                        all,
                    ));
                }
                i += 1;
            }
            assert(patterns@.take(i as int) =~= patterns@);
        },
        Expr::Sequence(items) => {
            walk_all_for_symbols(items, uri, tokens, defs);
        },
        Expr::List(items) => {
            walk_all_for_symbols(items, uri, tokens, defs);
        },
        Expr::Symbol(_) => {
            assert(defs.deep_view() + Seq::<SymbolDefView>::empty() =~= defs.deep_view());
        },
        Expr::Other => {
            assert(defs.deep_view() + Seq::<SymbolDefView>::empty() =~= defs.deep_view());
        },
    }
}

/// Collects the symbols that a sequence of expression trees defines.
pub fn walk_all_for_symbols(
    items: &Vec<Expr>,
    uri: &str,
    tokens: &Vec<SpannedToken>,
    defs: &mut Vec<SymbolDef>,
)
    ensures
        final(defs).deep_view() == old(defs).deep_view() + all_located(
            old(defs).deep_view(),
            all_declared(items@),
            uri@,
            tokens.deep_view(),
        ),
    decreases *items,
{
    let ghost before = defs.deep_view();
    let ghost all = tokens.deep_view();
    let mut i: usize = 0;
    assert(before + Seq::<SymbolDefView>::empty() =~= before);
    while i < items.len()
        invariant
            i <= items@.len(),
            all == tokens.deep_view(),
            defs.deep_view() == before + all_located(
                before,
                all_declared(items@.take(i as int)),
                uri@,
                all,
            ),
        decreases items@.len() - i,
    {
        let ghost so_far = all_declared(items@.take(i as int));
        let ghost one = declared(items@[i as int]);
        let ghost known = defs.deep_view();
        assert(decreases_to!(*items => items@[i as int]));
        walk_expr_for_symbols(&items[i], uri, tokens, defs);
        proof {
            lemma_all_located_add(before, so_far, one, uri@, all);
            assert(items@.take(i + 1).drop_last() =~= items@.take(i as int));
            assert(known + all_located(known, one, uri@, all) =~= before + all_located(
                before,
                so_far + one,
                uri@,
                all,
            ));
        }
        i += 1;
    }
    assert(items@.take(i as int) =~= items@);
}

} // verus!
