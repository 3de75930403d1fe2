//! Where in a document a name is defined.
//!
//! A definition stands where a statement begins: `name =`, `{.., name, ..} =`,
//! `name[..] :=`, `class name` or `module name`. The statements are those of the
//! document and of the lists and parentheses that are statements themselves;
//! what stands in the body of another construct is none of them.

use crate::protocol::{Range, SymbolKind};
use crate::strings::{copied, same};
use crate::syntax::{
    find_token_span, first_span, span_range, span_to_range_with_length, FixedToken, Span,
    SpannedToken, SpannedTokenView, Token, TokenView,
};
use vstd::prelude::*;

verus! {

/// Whether token `i` is a fixed token.
pub open spec fn is_fixed(tokens: Seq<SpannedTokenView>, i: int, t: FixedToken) -> bool {
    0 <= i < tokens.len() && tokens[i].token == TokenView::Fixed(t)
}

/// By how many levels a token opens brackets or, counted negative, closes them.
pub open spec fn nesting(token: TokenView) -> int {
    match token {
        TokenView::Fixed(FixedToken::LBrace) => 1,
        TokenView::Fixed(FixedToken::LBracket) => 1,
        TokenView::Fixed(FixedToken::LParen) => 1,
        TokenView::Fixed(FixedToken::LAssoc) => 1,
        TokenView::Fixed(FixedToken::LDoubleBracket) => 2,
        TokenView::Fixed(FixedToken::RBrace) => -1,
        TokenView::Fixed(FixedToken::RBracket) => -1,
        TokenView::Fixed(FixedToken::RParen) => -1,
        TokenView::Fixed(FixedToken::RAssoc) => -1,
        TokenView::Fixed(FixedToken::RDoubleBracket) => -2,
        _ => 0,
    }
}

/// The index of the token, from `from` on, that closes the bracket around
/// `from`, where `depth` brackets are open there.
pub open spec fn closing_token(tokens: Seq<SpannedTokenView>, from: int, depth: int) -> Option<int>
    decreases tokens.len() - from,
{
    if from < 0 || from >= tokens.len() {
        None
    } else if depth + nesting(tokens[from].token) <= 0 {
        Some(from)
    } else {
        closing_token(tokens, from + 1, depth + nesting(tokens[from].token))
    }
}

/// The index of the token before `end` that opens the bracket around `end`,
/// where `depth` brackets are to be opened.
pub open spec fn opening_token(tokens: Seq<SpannedTokenView>, end: int, depth: int) -> Option<int>
    decreases end,
{
    if end <= 0 || end > tokens.len() {
        None
    } else if depth - nesting(tokens[end - 1].token) <= 0 {
        Some(end - 1)
    } else {
        opening_token(tokens, end - 1, depth - nesting(tokens[end - 1].token))
    }
}

// ---------------------------------------------------------------------
// Statements
// ---------------------------------------------------------------------

/// Whether token `i` opens a list or a parenthesis.
pub open spec fn opens_group(tokens: Seq<SpannedTokenView>, i: int) -> bool {
    is_fixed(tokens, i, FixedToken::LBrace) || is_fixed(tokens, i, FixedToken::LParen)
}

/// The index of the last token before `i` that is no line end.
pub open spec fn token_before(tokens: Seq<SpannedTokenView>, i: int) -> Option<int>
    decreases i,
{
    if i <= 0 {
        None
    } else if is_fixed(tokens, i - 1, FixedToken::Newline) {
        token_before(tokens, i - 1)
    } else {
        Some(i - 1)
    }
}

/// Whether what stands before token `i` is complete: nothing stands there, or a
/// separator, or the start of a list or a parenthesis, or the end of a line,
/// unless the line ends in an assignment sign.
pub open spec fn begins_anew(tokens: Seq<SpannedTokenView>, i: int) -> bool {
    match token_before(tokens, i) {
        None => true,
        Some(j) => {
            ||| is_fixed(tokens, j, FixedToken::Semicolon)
            ||| is_fixed(tokens, j, FixedToken::Comma)
            ||| opens_group(tokens, j)
            ||| !is_fixed(tokens, j, FixedToken::Assign) && !is_fixed(
                tokens,
                j,
                FixedToken::DelayedAssign,
            ) && (j < i - 1 || tokens[i].span.line > tokens[j].span.line)
        },
    }
}

/// Whether a statement starts at token `i`: what stands before it is complete,
/// and it is in no bracket, or in a list or a parenthesis that itself stands
/// where a statement starts.
pub open spec fn starts_statement(tokens: Seq<SpannedTokenView>, i: int) -> bool
    decreases i,
    via starts_statement_decreases
{
    begins_anew(tokens, i) && match opening_token(tokens, i, 1) {
        Some(e) => opens_group(tokens, e) && starts_statement(tokens, e),
        None => true,
    }
}

#[via_fn]
proof fn starts_statement_decreases(tokens: Seq<SpannedTokenView>, i: int) {
    lemma_opening_token(tokens, i, 1);
}

/// The bracket around a token is opened before it.
pub proof fn lemma_opening_token(tokens: Seq<SpannedTokenView>, end: int, depth: int)
    ensures
        opening_token(tokens, end, depth) matches Some(e) ==> 0 <= e < end <= tokens.len(),
    decreases end,
{
    if 0 < end <= tokens.len() && depth - nesting(tokens[end - 1].token) > 0 {
        lemma_opening_token(tokens, end - 1, depth - nesting(tokens[end - 1].token));
    }
}

// ---------------------------------------------------------------------
// Places
// ---------------------------------------------------------------------

/// Whether token `i` stands directly within braces that are assigned to.
pub open spec fn is_unpacked(tokens: Seq<SpannedTokenView>, i: int) -> bool {
    &&& opening_token(tokens, i, 1) matches Some(e) && is_fixed(tokens, e, FixedToken::LBrace)
    &&& closing_token(tokens, i + 1, 1) matches Some(j) && is_fixed(tokens, j, FixedToken::RBrace)
        && is_fixed(tokens, j + 1, FixedToken::Assign)
}

/// Whether token `i` stands before a bracket, and `:=` behind that bracket's
/// end.
pub open spec fn is_headed(tokens: Seq<SpannedTokenView>, i: int) -> bool {
    &&& is_fixed(tokens, i + 1, FixedToken::LBracket)
    &&& closing_token(tokens, i + 2, 1) matches Some(j) && is_fixed(
        tokens,
        j + 1,
        FixedToken::DelayedAssign,
    )
}

/// Whether token `i` stands where a symbol of this kind is defined, be it in a
/// statement or in the body of another construct.
pub open spec fn is_defining(tokens: Seq<SpannedTokenView>, i: int, kind: SymbolKind) -> bool {
    match kind {
        SymbolKind::Variable => is_fixed(tokens, i + 1, FixedToken::Assign) || is_unpacked(
            tokens,
            i,
        ),
        SymbolKind::Function => is_headed(tokens, i),
        SymbolKind::Class => is_fixed(tokens, i - 1, FixedToken::Class),
        SymbolKind::Module => is_fixed(tokens, i - 1, FixedToken::Module),
    }
}

/// The token with which the definition at token `i` begins.
pub open spec fn definition_start(tokens: Seq<SpannedTokenView>, i: int, kind: SymbolKind) -> int {
    match kind {
        SymbolKind::Variable => if is_fixed(tokens, i + 1, FixedToken::Assign) {
            i
        } else {
            match opening_token(tokens, i, 1) {
                Some(e) => e,
                None => i,
            }
        },
        SymbolKind::Function => i,
        SymbolKind::Class => i - 1,
        SymbolKind::Module => i - 1,
    }
}

/// Whether token `i` is a name.
pub open spec fn is_name(tokens: Seq<SpannedTokenView>, i: int, name: Seq<char>) -> bool {
    0 <= i < tokens.len() && tokens[i].token == TokenView::Ident(name)
}

/// What counts as a place of a name.
#[derive(Clone, Copy, Debug, PartialEq, Eq, Structural)]
pub enum Scope {
    /// Where a statement defines a symbol of this kind.
    Statement(SymbolKind),
    /// Where a symbol of this kind is defined, at whatever level.
    Anywhere(SymbolKind),
    /// Before a bracket.
    Applied,
}

/// Whether a name has a place at token `i`.
pub open spec fn is_place(
    tokens: Seq<SpannedTokenView>,
    i: int,
    name: Seq<char>,
    scope: Scope,
) -> bool {
    is_name(tokens, i, name) && match scope {
        Scope::Statement(kind) => is_defining(tokens, i, kind) && starts_statement(
            tokens,
            definition_start(tokens, i, kind),
        ),
        Scope::Anywhere(kind) => is_defining(tokens, i, kind),
        Scope::Applied => is_fixed(tokens, i + 1, FixedToken::LBracket),
    }
}

/// Of the places of a name, from token `from` on, the one behind `k` others.
pub open spec fn nth_place(
    tokens: Seq<SpannedTokenView>,
    name: Seq<char>,
    scope: Scope,
    k: nat,
    from: int,
) -> Option<Span>
    decreases tokens.len() - from,
{
    if from < 0 || from >= tokens.len() {
        None
    } else if !is_place(tokens, from, name, scope) {
        nth_place(tokens, name, scope, k, from + 1)
    } else if k > 0 {
        nth_place(tokens, name, scope, (k - 1) as nat, from + 1)
    } else {
        Some(tokens[from].span)
    }
}

/// Where a name is defined that is found in no statement: at its first token in
/// a defining place, for a function also in one before a bracket, or else at its
/// first token, if it has one.
pub open spec fn first_place(
    tokens: Seq<SpannedTokenView>,
    name: Seq<char>,
    kind: SymbolKind,
) -> Option<Span> {
    if nth_place(tokens, name, Scope::Anywhere(kind), 0, 0) is Some {
        nth_place(tokens, name, Scope::Anywhere(kind), 0, 0)
    } else if kind == SymbolKind::Function && nth_place(
        tokens,
        name,
        Scope::Applied,
        0,
        0,
    ) is Some {
        nth_place(tokens, name, Scope::Applied, 0, 0)
    } else {
        first_span(tokens, TokenView::Ident(name))
    }
}

/// Where a name is defined by the definition of this kind that comes behind `k`
/// others: at its place behind `k` others, if it has that many.
pub open spec fn definition_span(
    tokens: Seq<SpannedTokenView>,
    name: Seq<char>,
    kind: SymbolKind,
    k: nat,
) -> Option<Span> {
    match nth_place(tokens, name, Scope::Statement(kind), k, 0) {
        Some(span) => Some(span),
        None => first_place(tokens, name, kind),
    }
}

/// The range of the name where it is defined; empty, at the start of the
/// document, if the name has no token.
pub open spec fn name_range(
    tokens: Seq<SpannedTokenView>,
    name: Seq<char>,
    kind: SymbolKind,
    k: nat,
) -> Range {
    match definition_span(tokens, name, kind, k) {
        Some(span) => span_range(span, name.len()),
        None => Range::zero_spec(),
    }
}

// ---------------------------------------------------------------------
// Laws
// ---------------------------------------------------------------------

/// How many places a name has among the first `end` tokens.
pub open spec fn places_before(
    tokens: Seq<SpannedTokenView>,
    name: Seq<char>,
    scope: Scope,
    end: int,
) -> nat
    decreases end,
{
    if end <= 0 {
        0
    } else {
        places_before(tokens, name, scope, end - 1) + (if is_place(tokens, end - 1, name, scope) {
            1nat
        } else {
            0nat
        })
    }
}

/// A place behind as many others as a count is the place of that count.
pub proof fn lemma_nth_place(
    tokens: Seq<SpannedTokenView>,
    name: Seq<char>,
    scope: Scope,
    from: int,
    i: int,
)
    requires
        0 <= from <= i,
        is_place(tokens, i, name, scope),
    ensures
        places_before(tokens, name, scope, from) <= places_before(tokens, name, scope, i),
        nth_place(
            tokens,
            name,
            scope,
            (places_before(tokens, name, scope, i) - places_before(
                tokens,
                name,
                scope,
                from,
            )) as nat,
            from,
        ) == Some(tokens[i].span),
    decreases i - from,
{
    if from < i {
        lemma_nth_place(tokens, name, scope, from + 1, i);
    }
}

/// Where statements define a name, the definition behind `k` others has its
/// range at the place behind `k` others.
pub proof fn law_definitions_stand_at_their_places(
    tokens: Seq<SpannedTokenView>,
    name: Seq<char>,
    kind: SymbolKind,
    i: int,
)
    requires
        is_place(tokens, i, name, Scope::Statement(kind)),
    ensures
        name_range(
            tokens,
            name,
            kind,
            places_before(tokens, name, Scope::Statement(kind), i),
        ) == span_range(tokens[i].span, name.len()),
{
    lemma_nth_place(tokens, name, Scope::Statement(kind), 0, i);
}

// ---------------------------------------------------------------------
// Computing them
// ---------------------------------------------------------------------

fn has_fixed(tokens: &Vec<SpannedToken>, i: usize, t: FixedToken) -> (r: bool)
    ensures
        r == is_fixed(tokens.deep_view(), i as int, t),
{
    if i >= tokens.len() {
        return false;
    }
    assert(tokens.deep_view()[i as int] == tokens@[i as int].deep_view());
    match &tokens[i].token {
        Token::Fixed(other) => *other == t,
        _ => false,
    }
}

fn nesting_of(token: &Token) -> (r: i8)
    ensures
        r == nesting(token.deep_view()),
        -2 <= r <= 2,
{
    match token {
        Token::Fixed(FixedToken::LBrace) => 1,
        Token::Fixed(FixedToken::LBracket) => 1,
        Token::Fixed(FixedToken::LParen) => 1,
        Token::Fixed(FixedToken::LAssoc) => 1,
        Token::Fixed(FixedToken::LDoubleBracket) => 2,
        Token::Fixed(FixedToken::RBrace) => -1,
        Token::Fixed(FixedToken::RBracket) => -1,
        Token::Fixed(FixedToken::RParen) => -1,
        Token::Fixed(FixedToken::RAssoc) => -1,
        Token::Fixed(FixedToken::RDoubleBracket) => -2,
        _ => 0,
    }
}

fn find_closing_token(tokens: &Vec<SpannedToken>, from: usize) -> (r: Option<usize>)
    ensures
        match r {
            Some(j) => closing_token(tokens.deep_view(), from as int, 1) == Some(j as int) && j
                < tokens@.len(),
            None => closing_token(tokens.deep_view(), from as int, 1) is None,
        },
{
    let ghost all = tokens.deep_view();
    let mut depth: i128 = 1;
    let mut j: usize = from;
    while j < tokens.len()
        invariant
            all == tokens.deep_view(),
            from <= j,
            1 <= depth <= 1 + 2 * (j - from),
            closing_token(all, from as int, 1) == closing_token(all, j as int, depth as int),
        decreases tokens@.len() - j,
    {
        assert(all[j as int] == tokens@[j as int].deep_view());
        depth = depth + nesting_of(&tokens[j].token) as i128;
        if depth <= 0 {
            return Some(j);
        }
        j += 1;
    }
    None
}

fn find_opening_token(tokens: &Vec<SpannedToken>, end: usize) -> (r: Option<usize>)
    requires
        end <= tokens@.len(),
    ensures
        match r {
            Some(e) => opening_token(tokens.deep_view(), end as int, 1) == Some(e as int) && e
                < end,
            None => opening_token(tokens.deep_view(), end as int, 1) is None,
        },
{
    let ghost all = tokens.deep_view();
    let mut depth: i128 = 1;
    let mut i: usize = end;
    while i > 0
        invariant
            all == tokens.deep_view(),
            i <= end <= tokens@.len(),
            1 <= depth <= 1 + 2 * (end - i),
            opening_token(all, end as int, 1) == opening_token(all, i as int, depth as int),
        decreases i,
    {
        assert(all[i - 1] == tokens@[i - 1].deep_view());
        depth = depth - nesting_of(&tokens[i - 1].token) as i128;
        i -= 1;
        if depth <= 0 {
            return Some(i);
        }
    }
    None
}

fn has_group(tokens: &Vec<SpannedToken>, i: usize) -> (r: bool)
    ensures
        r == opens_group(tokens.deep_view(), i as int),
{
    has_fixed(tokens, i, FixedToken::LBrace) || has_fixed(tokens, i, FixedToken::LParen)
}

fn find_token_before(tokens: &Vec<SpannedToken>, i: usize) -> (r: Option<usize>)
    requires
        i <= tokens@.len(),
    ensures
        match r {
            Some(j) => token_before(tokens.deep_view(), i as int) == Some(j as int) && j < i,
            None => token_before(tokens.deep_view(), i as int) is None,
        },
{
    let ghost all = tokens.deep_view();
    let mut k: usize = i;
    while k > 0
        invariant
            all == tokens.deep_view(),
            k <= i <= tokens@.len(),
            token_before(all, i as int) == token_before(all, k as int),
        decreases k,
    {
        if !has_fixed(tokens, k - 1, FixedToken::Newline) {
            return Some(k - 1);
        }
        k -= 1;
    }
    None
}

fn is_new_beginning(tokens: &Vec<SpannedToken>, i: usize) -> (r: bool)
    requires
        i < tokens@.len(),
    ensures
        r == begins_anew(tokens.deep_view(), i as int),
{
    match find_token_before(tokens, i) {
        None => true,
        Some(j) => {
            if has_fixed(tokens, j, FixedToken::Semicolon) || has_fixed(
                tokens,
                j,
                FixedToken::Comma,
            ) || has_group(tokens, j) {
                return true;
            }
            assert(tokens.deep_view()[i as int] == tokens@[i as int].deep_view());
            assert(tokens.deep_view()[j as int] == tokens@[j as int].deep_view());
            !has_fixed(tokens, j, FixedToken::Assign) && !has_fixed(
                tokens,
                j,
                FixedToken::DelayedAssign,
            ) && (j < i - 1 || tokens[i].span.line > tokens[j].span.line)
        },
    }
}

fn is_statement_start(tokens: &Vec<SpannedToken>, i: usize) -> (r: bool)
    requires
        i < tokens@.len(),
    ensures
        r == starts_statement(tokens.deep_view(), i as int),
    decreases i,
{
    if !is_new_beginning(tokens, i) {
        return false;
    }
    match find_opening_token(tokens, i) {
        Some(e) => has_group(tokens, e) && is_statement_start(tokens, e),
        None => true,
    }
}

/// The token with which a definition at token `i` begins, if there is one.
fn find_definition_start(tokens: &Vec<SpannedToken>, i: usize, kind: SymbolKind) -> (r: Option<
    usize,
>)
    requires
        i < tokens@.len(),
    ensures
        match r {
            Some(start) => is_defining(tokens.deep_view(), i as int, kind) && start as int
                == definition_start(tokens.deep_view(), i as int, kind) && start < tokens@.len(),
            None => !is_defining(tokens.deep_view(), i as int, kind),
        },
{
    assert(i < tokens.len());
    match kind {
        SymbolKind::Variable => {
            if has_fixed(tokens, i + 1, FixedToken::Assign) {
                return Some(i);
            }
            match (find_opening_token(tokens, i), find_closing_token(tokens, i + 1)) {
                (Some(e), Some(j)) => if has_fixed(tokens, e, FixedToken::LBrace) && has_fixed(
                    tokens,
                    j,
                    FixedToken::RBrace,
                ) && has_fixed(tokens, j + 1, FixedToken::Assign) {
                    Some(e)
                } else {
                    None
                },
                _ => None,
            }
        },
        SymbolKind::Function => {
            if !has_fixed(tokens, i + 1, FixedToken::LBracket) {
                return None;
            }
            match find_closing_token(tokens, i + 2) {
                Some(j) => if has_fixed(tokens, j + 1, FixedToken::DelayedAssign) {
                    Some(i)
                } else {
                    None
                },
                None => None,
            }
        },
        SymbolKind::Class => if i > 0 && has_fixed(tokens, i - 1, FixedToken::Class) {
            Some(i - 1)
        } else {
            None
        },
        SymbolKind::Module => if i > 0 && has_fixed(tokens, i - 1, FixedToken::Module) {
            Some(i - 1)
        } else {
            None
        },
    }
}

fn has_place(tokens: &Vec<SpannedToken>, i: usize, name: &str, scope: Scope) -> (r: bool)
    requires
        i < tokens@.len(),
    ensures
        r == is_place(tokens.deep_view(), i as int, name@, scope),
{
    assert(tokens.deep_view()[i as int] == tokens@[i as int].deep_view());
    assert(i < tokens.len());
    let named: bool = match &tokens[i].token {
        Token::Ident(other) => same(other.as_str(), name),
        _ => false,
    };
    if !named {
        return false;
    }
    match scope {
        Scope::Statement(kind) => match find_definition_start(tokens, i, kind) {
            Some(start) => is_statement_start(tokens, start),
            None => false,
        },
        Scope::Anywhere(kind) => find_definition_start(tokens, i, kind).is_some(),
        Scope::Applied => has_fixed(tokens, i + 1, FixedToken::LBracket),
    }
}

fn find_nth_place(tokens: &Vec<SpannedToken>, name: &str, scope: Scope, k: usize) -> (r: Option<
    Span,
>)
    ensures
        r == nth_place(tokens.deep_view(), name@, scope, k as nat, 0),
{
    let ghost all = tokens.deep_view();
    let mut left: usize = k;
    let mut i: usize = 0;
    while i < tokens.len()
        invariant
            i <= tokens@.len(),
            all == tokens.deep_view(),
            nth_place(all, name@, scope, k as nat, 0) == nth_place(
                all,
                name@,
                scope,
                left as nat,
                i as int,
            ),
        decreases tokens@.len() - i,
    {
        assert(all[i as int] == tokens@[i as int].deep_view());
        if has_place(tokens, i, name, scope) {
            if left == 0 {
                return Some(tokens[i].span);
            }
            left -= 1;
        }
        i += 1;
    }
    None
}

fn find_definition(tokens: &Vec<SpannedToken>, name: &str, kind: SymbolKind, k: usize) -> (r:
    Option<Span>)
    ensures
        r == definition_span(tokens.deep_view(), name@, kind, k as nat),
{
    if let Some(span) = find_nth_place(tokens, name, Scope::Statement(kind), k) {
        return Some(span);
    }
    if let Some(span) = find_nth_place(tokens, name, Scope::Anywhere(kind), 0) {
        return Some(span);
    }
    if kind == SymbolKind::Function {
        if let Some(span) = find_nth_place(tokens, name, Scope::Applied, 0) {
            return Some(span);
        }
    }
    let target = Token::Ident(copied(name));
    find_token_span(tokens, &target)
}

/// The range of the name where it is defined.
pub fn range_of_name(tokens: &Vec<SpannedToken>, name: &str, kind: SymbolKind, k: usize) -> (r:
    Range)
    ensures
        r == name_range(tokens.deep_view(), name@, kind, k as nat),
{
    match find_definition(tokens, name, kind, k) {
        Some(span) => span_to_range_with_length(&span, name.unicode_len()),
        None => Range::zero(),
    }
}

} // verus!
