//! Where in a document a definition stands.

use crate::laws::tokens::law_the_first_same_token_is_found;
use crate::protocol::{Position, Range, SymbolKind};
use crate::sites::{
    begins_anew, closing_token, definition_start, is_defining, is_place, lemma_nth_place,
    lemma_opening_token, name_range, nesting, nth_place, opening_token, places_before,
    starts_statement, token_before, Scope,
};
use crate::syntax::{span_range, FixedToken, SpannedTokenView, TokenView};
use vstd::prelude::*;

verus! {

// ---------------------------------------------------------------------
// Brackets
// ---------------------------------------------------------------------

/// Whether token `i` is a fixed token.
pub open spec fn has_token(tokens: Seq<SpannedTokenView>, i: int, t: FixedToken) -> bool {
    0 <= i < tokens.len() && tokens[i].token == TokenView::Fixed(t)
}

/// How many brackets token `i` opens: two for `[[`, one for any other opening
/// bracket.
pub open spec fn opened_by(tokens: Seq<SpannedTokenView>, i: int) -> int {
    if has_token(tokens, i, FixedToken::LDoubleBracket) {
        2
    } else if has_token(tokens, i, FixedToken::LBrace) || has_token(tokens, i, FixedToken::LBracket)
        || has_token(tokens, i, FixedToken::LParen) || has_token(tokens, i, FixedToken::LAssoc) {
        1
    } else {
        0
    }
}

/// How many brackets token `i` closes: two for `]]`, one for any other closing
/// bracket.
pub open spec fn closed_by(tokens: Seq<SpannedTokenView>, i: int) -> int {
    if has_token(tokens, i, FixedToken::RDoubleBracket) {
        2
    } else if has_token(tokens, i, FixedToken::RBrace) || has_token(tokens, i, FixedToken::RBracket)
        || has_token(tokens, i, FixedToken::RParen) || has_token(tokens, i, FixedToken::RAssoc) {
        1
    } else {
        0
    }
}

/// How many more brackets the tokens from `a` to before `b` open than close.
pub open spec fn depth(tokens: Seq<SpannedTokenView>, a: int, b: int) -> int
    decreases b - a,
{
    if a >= b {
        0
    } else {
        depth(tokens, a, b - 1) + opened_by(tokens, b - 1) - closed_by(tokens, b - 1)
    }
}

/// Whether token `i` stands within the bracket that token `e` opens: from there
/// to token `i` it is never closed.
pub open spec fn encloses(tokens: Seq<SpannedTokenView>, e: int, i: int) -> bool {
    &&& 0 <= e < i <= tokens.len()
    &&& forall|q: int| e < q <= i ==> #[trigger] depth(tokens, e, q) >= 1
}

/// Whether token `i` stands within the bracket that token `e` opens, and within
/// no other between them.
pub open spec fn directly_encloses(tokens: Seq<SpannedTokenView>, e: int, i: int) -> bool {
    &&& 0 <= e < i <= tokens.len()
    &&& depth(tokens, e, i) >= 1
    &&& forall|q: int| e < q <= i ==> #[trigger] depth(tokens, q, i) <= 0
}

/// Whether token `j` closes the bracket around token `from`.
pub open spec fn closes_around(tokens: Seq<SpannedTokenView>, from: int, j: int) -> bool {
    &&& 0 <= from <= j < tokens.len()
    &&& depth(tokens, from, j + 1) <= -1
    &&& forall|q: int| from <= q <= j ==> #[trigger] depth(tokens, from, q) >= 0
}

proof fn lemma_nesting(tokens: Seq<SpannedTokenView>, i: int)
    requires
        0 <= i < tokens.len(),
    ensures
        nesting(tokens[i].token) == opened_by(tokens, i) - closed_by(tokens, i),
{
}

proof fn lemma_depth_split(tokens: Seq<SpannedTokenView>, a: int, m: int, b: int)
    requires
        a <= m <= b,
    ensures
        depth(tokens, a, b) == depth(tokens, a, m) + depth(tokens, m, b),
    decreases b - m,
{
    if m < b {
        lemma_depth_split(tokens, a, m, b - 1);
    }
}

proof fn lemma_one_deep(tokens: Seq<SpannedTokenView>, a: int)
    ensures
        depth(tokens, a, a) == 0,
        depth(tokens, a, a + 1) == opened_by(tokens, a) - closed_by(tokens, a),
{
    reveal_with_fuel(depth, 2);
}

proof fn lemma_opens(tokens: Seq<SpannedTokenView>, e: int, end: int, d: int)
    requires
        d >= 1,
    ensures
        opening_token(tokens, end, d) == Some(e) <==> {
            &&& 0 <= e < end <= tokens.len()
            &&& depth(tokens, e, end) >= d
            &&& forall|q: int| e < q <= end ==> #[trigger] depth(tokens, q, end) < d
        },
    decreases end,
{
    if 0 < end <= tokens.len() {
        let n = nesting(tokens[end - 1].token);
        lemma_nesting(tokens, end - 1);
        lemma_one_deep(tokens, end - 1);
        lemma_one_deep(tokens, end);
        if d - n <= 0 {
            if 0 <= e < end - 1 && (forall|q: int|
                e < q <= end ==> #[trigger] depth(tokens, q, end) < d) {
                assert(depth(tokens, end - 1, end) < d);
            }
        } else {
            lemma_opens(tokens, e, end - 1, d - n);
            if 0 <= e < end - 1 {
                assert(depth(tokens, e, end) == depth(tokens, e, end - 1) + n);
                if forall|q: int| e < q <= end ==> #[trigger] depth(tokens, q, end) < d {
                    assert forall|q: int| e < q <= end - 1 implies #[trigger] depth(
                        tokens,
                        q,
                        end - 1,
                    ) < d - n by {
                        assert(depth(tokens, q, end) < d);
                    }
                }
                if forall|q: int|
                    e < q <= end - 1 ==> #[trigger] depth(tokens, q, end - 1) < d - n {
                    assert forall|q: int| e < q <= end implies #[trigger] depth(tokens, q, end)
                        < d by {
                        if q < end {
                            assert(depth(tokens, q, end - 1) < d - n);
                        }
                    }
                }
            }
        }
    }
}

proof fn lemma_closes(tokens: Seq<SpannedTokenView>, from: int, j: int, d: int)
    requires
        d >= 1,
    ensures
        closing_token(tokens, from, d) == Some(j) <==> {
            &&& 0 <= from <= j < tokens.len()
            &&& d + depth(tokens, from, j + 1) <= 0
            &&& forall|q: int| from <= q <= j ==> d + #[trigger] depth(tokens, from, q) > 0
        },
    decreases tokens.len() - from,
{
    if 0 <= from < tokens.len() {
        let n = nesting(tokens[from].token);
        lemma_nesting(tokens, from);
        lemma_one_deep(tokens, from);
        if d + n <= 0 {
            if from < j && (forall|q: int|
                from <= q <= j ==> d + #[trigger] depth(tokens, from, q) > 0) {
                assert(d + depth(tokens, from, from + 1) > 0);
            }
        } else {
            lemma_closes(tokens, from + 1, j, d + n);
            if from < j < tokens.len() {
                lemma_depth_split(tokens, from, from + 1, j + 1);
                if forall|q: int| from <= q <= j ==> d + #[trigger] depth(tokens, from, q) > 0 {
                    assert forall|q: int| from + 1 <= q <= j implies d + n + #[trigger] depth(
                        tokens,
                        from + 1,
                        q,
                    ) > 0 by {
                        lemma_depth_split(tokens, from, from + 1, q);
                        assert(d + depth(tokens, from, q) > 0);
                    }
                }
                if forall|q: int|
                    from + 1 <= q <= j ==> d + n + #[trigger] depth(tokens, from + 1, q) > 0 {
                    assert forall|q: int| from <= q <= j implies d + #[trigger] depth(
                        tokens,
                        from,
                        q,
                    ) > 0 by {
                        if q > from {
                            lemma_depth_split(tokens, from, from + 1, q);
                            assert(d + n + depth(tokens, from + 1, q) > 0);
                        }
                    }
                }
            }
        }
    }
}

/// The bracket around a token is opened by the token that directly encloses it,
/// and closed by the first that closes more than was opened behind it.
pub proof fn law_brackets_around_tokens(tokens: Seq<SpannedTokenView>, e: int, i: int, j: int)
    ensures
        opening_token(tokens, i, 1) == Some(e) <==> directly_encloses(tokens, e, i),
        closing_token(tokens, i, 1) == Some(j) <==> closes_around(tokens, i, j),
{
    lemma_opens(tokens, e, i, 1);
    lemma_closes(tokens, i, j, 1);
    if directly_encloses(tokens, e, i) {
        assert forall|q: int| e < q <= i implies #[trigger] depth(tokens, q, i) < 1 by {}
    }
    if opening_token(tokens, i, 1) == Some(e) {
        assert forall|q: int| e < q <= i implies #[trigger] depth(tokens, q, i) <= 0 by {}
    }
    if closes_around(tokens, i, j) {
        assert forall|q: int| i <= q <= j implies 1 + #[trigger] depth(tokens, i, q) > 0 by {}
    }
    if closing_token(tokens, i, 1) == Some(j) {
        assert forall|q: int| i <= q <= j implies #[trigger] depth(tokens, i, q) >= 0 by {}
    }
}

// ---------------------------------------------------------------------
// Statements
// ---------------------------------------------------------------------

/// Whether nothing but line ends stands between token `j` and token `i`, and
/// token `j` is none.
pub open spec fn is_last_before(tokens: Seq<SpannedTokenView>, j: int, i: int) -> bool {
    &&& 0 <= j < i
    &&& !has_token(tokens, j, FixedToken::Newline)
    &&& forall|q: int| j < q < i ==> #[trigger] has_token(tokens, q, FixedToken::Newline)
}

/// Whether token `i` does not go on with what token `j` before it began: token
/// `j` is a semicolon, a comma, an opening brace or parenthesis, or stands on an
/// earlier line and is no assignment sign.
pub open spec fn is_apart(tokens: Seq<SpannedTokenView>, j: int, i: int) -> bool {
    ||| has_token(tokens, j, FixedToken::Semicolon)
    ||| has_token(tokens, j, FixedToken::Comma)
    ||| has_token(tokens, j, FixedToken::LBrace)
    ||| has_token(tokens, j, FixedToken::LParen)
    ||| !has_token(tokens, j, FixedToken::Assign) && !has_token(
        tokens,
        j,
        FixedToken::DelayedAssign,
    ) && (j + 1 < i || tokens[j].span.line < tokens[i].span.line)
}

/// Whether something new begins at token `i`.
pub open spec fn begins_something(tokens: Seq<SpannedTokenView>, i: int) -> bool {
    forall|j: int| #[trigger] is_last_before(tokens, j, i) ==> is_apart(tokens, j, i)
}

/// Whether a statement begins at token `i`: something new begins there, and all
/// brackets around it are braces or parentheses at which something new begins.
pub open spec fn is_statement(tokens: Seq<SpannedTokenView>, i: int) -> bool {
    &&& begins_something(tokens, i)
    &&& forall|e: int| #[trigger]
        encloses(tokens, e, i) ==> (has_token(tokens, e, FixedToken::LBrace) || has_token(
            tokens,
            e,
            FixedToken::LParen,
        )) && begins_something(tokens, e)
}

proof fn lemma_token_before(tokens: Seq<SpannedTokenView>, j: int, i: int)
    ensures
        token_before(tokens, i) == Some(j) <==> is_last_before(tokens, j, i),
    decreases i,
{
    if i > 0 {
        if has_token(tokens, i - 1, FixedToken::Newline) {
            lemma_token_before(tokens, j, i - 1);
            if is_last_before(tokens, j, i - 1) {
                assert forall|q: int| j < q < i implies #[trigger] has_token(
                    tokens,
                    q,
                    FixedToken::Newline,
                ) by {}
            }
        } else if is_last_before(tokens, j, i) && j < i - 1 {
            assert(has_token(tokens, i - 1, FixedToken::Newline));
        }
    }
}

proof fn lemma_begins(tokens: Seq<SpannedTokenView>, i: int)
    ensures
        begins_anew(tokens, i) <==> begins_something(tokens, i),
{
    assert forall|j: int| #[trigger] is_last_before(tokens, j, i) implies token_before(tokens, i)
        == Some(j) by {
        lemma_token_before(tokens, j, i);
    }
    if let Some(j) = token_before(tokens, i) {
        lemma_token_before(tokens, j, i);
    }
}

/// A bracket around a token is the one that directly encloses it, or one around
/// that.
proof fn lemma_encloses(tokens: Seq<SpannedTokenView>, e: int, i: int, outer: int)
    requires
        directly_encloses(tokens, e, i),
    ensures
        encloses(tokens, e, i),
        encloses(tokens, outer, i) <==> outer == e || encloses(tokens, outer, e),
{
    assert forall|q: int| e < q <= i implies #[trigger] depth(tokens, e, q) >= 1 by {
        lemma_depth_split(tokens, e, q, i);
        assert(depth(tokens, q, i) <= 0);
    }
    if encloses(tokens, outer, i) {
        if outer > e {
            assert(depth(tokens, outer, i) <= 0);
            assert(depth(tokens, outer, i) >= 1);
        } else if outer < e {
            assert forall|q: int| outer < q <= e implies #[trigger] depth(tokens, outer, q)
                >= 1 by {}
        }
    }
    if encloses(tokens, outer, e) {
        assert forall|q: int| outer < q <= i implies #[trigger] depth(tokens, outer, q) >= 1 by {
            if q > e {
                lemma_depth_split(tokens, outer, e, q);
                assert(depth(tokens, outer, e) >= 1);
                assert(depth(tokens, e, q) >= 1);
            }
        }
    }
}

/// Where nothing directly encloses a token, nothing encloses it.
proof fn lemma_encloses_nothing(tokens: Seq<SpannedTokenView>, i: int, outer: int)
    requires
        opening_token(tokens, i, 1) is None,
    ensures
        !encloses(tokens, outer, i),
    decreases i - outer,
{
    if encloses(tokens, outer, i) {
        assert(depth(tokens, outer, i) >= 1);
        lemma_some_directly(tokens, outer, i);
        let e = choose|e: int| #[trigger] directly_encloses(tokens, e, i);
        law_brackets_around_tokens(tokens, e, i, 0);
    }
}

proof fn lemma_some_directly(tokens: Seq<SpannedTokenView>, outer: int, i: int)
    requires
        0 <= outer < i <= tokens.len(),
        depth(tokens, outer, i) >= 1,
    ensures
        exists|e: int| #[trigger] directly_encloses(tokens, e, i),
    decreases i - outer,
{
    if forall|q: int| outer < q <= i ==> #[trigger] depth(tokens, q, i) <= 0 {
        assert(directly_encloses(tokens, outer, i));
    } else {
        let q = choose|q: int| outer < q <= i && #[trigger] depth(tokens, q, i) > 0;
        lemma_one_deep(tokens, i);
        lemma_some_directly(tokens, q, i);
    }
}

/// A statement starts where something new begins, within braces and parentheses
/// alone, at each of which something new begins too.
pub proof fn law_statements_begin_anew(tokens: Seq<SpannedTokenView>, i: int)
    requires
        0 <= i <= tokens.len(),
    ensures
        starts_statement(tokens, i) <==> is_statement(tokens, i),
    decreases i,
{
    lemma_begins(tokens, i);
    match opening_token(tokens, i, 1) {
        Some(e) => {
            lemma_opening_token(tokens, i, 1);
            law_brackets_around_tokens(tokens, e, i, 0);
            law_statements_begin_anew(tokens, e);
            assert forall|outer: int| #[trigger] encloses(tokens, outer, i) <==> outer == e
                || encloses(tokens, outer, e) by {
                lemma_encloses(tokens, e, i, outer);
            }
            assert(encloses(tokens, e, i));
            lemma_begins(tokens, e);
            if is_statement(tokens, i) {
                assert forall|outer: int| #[trigger] encloses(tokens, outer, e) implies (has_token(
                    tokens,
                    outer,
                    FixedToken::LBrace,
                ) || has_token(tokens, outer, FixedToken::LParen)) && begins_something(
                    tokens,
                    outer,
                ) by {
                    assert(encloses(tokens, outer, i));
                }
            }
        },
        None => {
            assert forall|outer: int| !(#[trigger] encloses(tokens, outer, i)) by {
                lemma_encloses_nothing(tokens, i, outer);
            }
        },
    }
}

// ---------------------------------------------------------------------
// Places
// ---------------------------------------------------------------------

/// Whether a symbol of a kind is defined at token `i` by what begins at token
/// `s`: a variable before `=`, or directly within braces before `=`, which begin
/// the definition; a function before brackets with `:=` behind them; a class and
/// a module behind the word for it, which begins the definition.
pub open spec fn is_defined_from(
    tokens: Seq<SpannedTokenView>,
    s: int,
    i: int,
    kind: SymbolKind,
) -> bool {
    match kind {
        SymbolKind::Variable => if has_token(tokens, i + 1, FixedToken::Assign) {
            s == i
        } else {
            &&& directly_encloses(tokens, s, i)
            &&& has_token(tokens, s, FixedToken::LBrace)
            &&& exists|j: int| #[trigger]
                closes_around(tokens, i + 1, j) && has_token(tokens, j, FixedToken::RBrace)
                    && has_token(tokens, j + 1, FixedToken::Assign)
        },
        SymbolKind::Function => {
            &&& s == i
            &&& has_token(tokens, i + 1, FixedToken::LBracket)
            &&& exists|j: int| #[trigger]
                closes_around(tokens, i + 2, j) && has_token(
                    tokens,
                    j + 1,
                    FixedToken::DelayedAssign,
                )
        },
        SymbolKind::Class => s == i - 1 && has_token(tokens, s, FixedToken::Class),
        SymbolKind::Module => s == i - 1 && has_token(tokens, s, FixedToken::Module),
    }
}

proof fn lemma_defined(tokens: Seq<SpannedTokenView>, s: int, i: int, kind: SymbolKind)
    requires
        0 <= i < tokens.len(),
    ensures
        is_defined_from(tokens, s, i, kind) <==> is_defining(tokens, i, kind) && s
            == definition_start(tokens, i, kind),
{
    match kind {
        SymbolKind::Variable => {
            law_brackets_around_tokens(tokens, s, i, 0);
            if let Some(e) = opening_token(tokens, i, 1) {
                law_brackets_around_tokens(tokens, e, i, 0);
            }
            assert forall|j: int| #[trigger] closes_around(tokens, i + 1, j) implies closing_token(
                tokens,
                i + 1,
                1,
            ) == Some(j) by {
                law_brackets_around_tokens(tokens, 0, i + 1, j);
            }
            if let Some(j) = closing_token(tokens, i + 1, 1) {
                law_brackets_around_tokens(tokens, 0, i + 1, j);
            }
        },
        SymbolKind::Function => {
            assert forall|j: int| #[trigger] closes_around(tokens, i + 2, j) implies closing_token(
                tokens,
                i + 2,
                1,
            ) == Some(j) by {
                law_brackets_around_tokens(tokens, 0, i + 2, j);
            }
            if let Some(j) = closing_token(tokens, i + 2, 1) {
                law_brackets_around_tokens(tokens, 0, i + 2, j);
            }
        },
        _ => {},
    }
}

/// Whether token `i` is a name.
pub open spec fn has_name(tokens: Seq<SpannedTokenView>, i: int, name: Seq<char>) -> bool {
    0 <= i < tokens.len() && tokens[i].token == TokenView::Ident(name)
}

/// Whether token `i` is a name at which a symbol of a kind is defined.
pub open spec fn is_defined_at(
    tokens: Seq<SpannedTokenView>,
    i: int,
    name: Seq<char>,
    kind: SymbolKind,
) -> bool {
    has_name(tokens, i, name) && exists|s: int| #[trigger] is_defined_from(tokens, s, i, kind)
}

/// Whether token `i` is a name at which a statement defines a symbol of a kind.
pub open spec fn is_defined_by_statement(
    tokens: Seq<SpannedTokenView>,
    i: int,
    name: Seq<char>,
    kind: SymbolKind,
) -> bool {
    has_name(tokens, i, name) && exists|s: int| #[trigger]
        is_defined_from(tokens, s, i, kind) && is_statement(tokens, s)
}

/// The places of a name are where it is defined, by a statement or at all, or
/// where a bracket follows it.
pub proof fn law_places_of_names(
    tokens: Seq<SpannedTokenView>,
    i: int,
    name: Seq<char>,
    kind: SymbolKind,
)
    ensures
        is_place(tokens, i, name, Scope::Statement(kind)) <==> is_defined_by_statement(
            tokens,
            i,
            name,
            kind,
        ),
        is_place(tokens, i, name, Scope::Anywhere(kind)) <==> is_defined_at(tokens, i, name, kind),
        is_place(tokens, i, name, Scope::Applied) <==> has_name(tokens, i, name) && has_token(
            tokens,
            i + 1,
            FixedToken::LBracket,
        ),
{
    if has_name(tokens, i, name) {
        let start = definition_start(tokens, i, kind);
        lemma_defined(tokens, start, i, kind);
        assert forall|s: int| #[trigger] is_defined_from(tokens, s, i, kind) implies s == start
            && is_defining(tokens, i, kind) by {
            lemma_defined(tokens, s, i, kind);
        }
        if is_defining(tokens, i, kind) {
            lemma_opening_token(tokens, i, 1);
            assert(0 <= start <= tokens.len());
            law_statements_begin_anew(tokens, start);
            assert(is_defined_from(tokens, start, i, kind));
        }
    }
}

/// How many of the first `end` tokens are a name at which a statement defines a
/// symbol of a kind.
pub open spec fn definitions_before(
    tokens: Seq<SpannedTokenView>,
    name: Seq<char>,
    kind: SymbolKind,
    end: int,
) -> nat
    decreases end,
{
    if end <= 0 {
        0
    } else {
        definitions_before(tokens, name, kind, end - 1) + (if is_defined_by_statement(
            tokens,
            end - 1,
            name,
            kind,
        ) {
            1nat
        } else {
            0nat
        })
    }
}

proof fn lemma_definitions_before(
    tokens: Seq<SpannedTokenView>,
    name: Seq<char>,
    kind: SymbolKind,
    end: int,
)
    ensures
        definitions_before(tokens, name, kind, end) == places_before(
            tokens,
            name,
            Scope::Statement(kind),
            end,
        ),
    decreases end,
{
    if end > 0 {
        lemma_definitions_before(tokens, name, kind, end - 1);
        law_places_of_names(tokens, end - 1, name, kind);
    }
}

/// The definition of a name and a kind that comes behind `k` others stands where
/// a statement defines them behind `k` others.
pub proof fn law_definitions_stand_in_their_statements(
    tokens: Seq<SpannedTokenView>,
    name: Seq<char>,
    kind: SymbolKind,
    i: int,
)
    requires
        is_defined_by_statement(tokens, i, name, kind),
    ensures
        name_range(tokens, name, kind, definitions_before(tokens, name, kind, i)) == span_range(
            tokens[i].span,
            name.len(),
        ),
{
    law_places_of_names(tokens, i, name, kind);
    lemma_definitions_before(tokens, name, kind, i);
    lemma_nth_place(tokens, name, Scope::Statement(kind), 0, i);
}

proof fn lemma_too_few_places(
    tokens: Seq<SpannedTokenView>,
    name: Seq<char>,
    scope: Scope,
    k: nat,
    from: int,
)
    requires
        0 <= from <= tokens.len(),
        places_before(tokens, name, scope, tokens.len() as int) <= k + places_before(
            tokens,
            name,
            scope,
            from,
        ),
    ensures
        nth_place(tokens, name, scope, k, from) is None,
    decreases tokens.len() - from,
{
    if from < tokens.len() {
        if !is_place(tokens, from, name, scope) {
            lemma_too_few_places(tokens, name, scope, k, from + 1);
        } else {
            lemma_more_places(tokens, name, scope, from + 1, tokens.len() as int);
            lemma_too_few_places(tokens, name, scope, (k - 1) as nat, from + 1);
        }
    }
}

proof fn lemma_more_places(
    tokens: Seq<SpannedTokenView>,
    name: Seq<char>,
    scope: Scope,
    a: int,
    b: int,
)
    requires
        a <= b,
    ensures
        places_before(tokens, name, scope, a) <= places_before(tokens, name, scope, b),
    decreases b - a,
{
    if a < b {
        lemma_more_places(tokens, name, scope, a, b - 1);
    }
}

proof fn lemma_first_of_places(
    tokens: Seq<SpannedTokenView>,
    name: Seq<char>,
    scope: Scope,
    from: int,
    i: int,
)
    requires
        0 <= from <= i <= tokens.len(),
        i < tokens.len() ==> is_place(tokens, i, name, scope),
        forall|j: int| from <= j < i ==> !(#[trigger] is_place(tokens, j, name, scope)),
    ensures
        nth_place(tokens, name, scope, 0, from) == (if i < tokens.len() {
            Some(tokens[i].span)
        } else {
            None
        }),
    decreases i - from,
{
    if from < i {
        assert(!is_place(tokens, from, name, scope));
        lemma_first_of_places(tokens, name, scope, from + 1, i);
    }
}

/// Whether token `i` is the first for which a predicate holds, or, where `i` is
/// the number of tokens, whether there is none.
pub open spec fn is_first_such(
    tokens: Seq<SpannedTokenView>,
    i: int,
    holds: spec_fn(int) -> bool,
) -> bool {
    &&& 0 <= i <= tokens.len()
    &&& i < tokens.len() ==> holds(i)
    &&& forall|j: int| 0 <= j < i ==> !(#[trigger] holds(j))
}

/// A definition for which there are too few statements stands where its name is
/// first defined at all. If it is defined nowhere, a function stands where its
/// name is first followed by a bracket. Failing that, the definition stands at
/// the first token of its name, or at the start of the document if the name has
/// none.
pub proof fn law_definitions_without_a_statement(
    tokens: Seq<SpannedTokenView>,
    name: Seq<char>,
    kind: SymbolKind,
    k: nat,
    a: int,
    b: int,
    c: int,
)
    requires
        definitions_before(tokens, name, kind, tokens.len() as int) <= k,
        is_first_such(tokens, a, |i: int| is_defined_at(tokens, i, name, kind)),
        is_first_such(
            tokens,
            b,
            |i: int|
                kind == SymbolKind::Function && has_name(tokens, i, name) && has_token(
                    tokens,
                    i + 1,
                    FixedToken::LBracket,
                ),
        ),
        is_first_such(tokens, c, |i: int| has_name(tokens, i, name)),
    ensures
        name_range(tokens, name, kind, k) == (if a < tokens.len() {
            span_range(tokens[a].span, name.len())
        } else if b < tokens.len() {
            span_range(tokens[b].span, name.len())
        } else if c < tokens.len() {
            span_range(tokens[c].span, name.len())
        } else {
            Range {
                start: Position { line: 0, character: 0 },
                end: Position { line: 0, character: 0 },
            }
        }),
{
    let end = tokens.len() as int;
    let at = |i: int| is_defined_at(tokens, i, name, kind);
    let applied = |i: int|
        kind == SymbolKind::Function && has_name(tokens, i, name) && has_token(
            tokens,
            i + 1,
            FixedToken::LBracket,
        );
    let named = |i: int| has_name(tokens, i, name);
    lemma_definitions_before(tokens, name, kind, end);
    lemma_too_few_places(tokens, name, Scope::Statement(kind), k, 0);
    law_places_of_names(tokens, a, name, kind);
    assert forall|j: int| 0 <= j < a implies !(#[trigger] is_place(
        tokens,
        j,
        name,
        Scope::Anywhere(kind),
    )) by {
        law_places_of_names(tokens, j, name, kind);
        assert(!at(j));
    }
    lemma_first_of_places(tokens, name, Scope::Anywhere(kind), 0, a);
    if kind == SymbolKind::Function {
        law_places_of_names(tokens, b, name, kind);
        assert forall|j: int| 0 <= j < b implies !(#[trigger] is_place(
            tokens,
            j,
            name,
            Scope::Applied,
        )) by {
            law_places_of_names(tokens, j, name, kind);
            assert(!applied(j));
        }
        lemma_first_of_places(tokens, name, Scope::Applied, 0, b);
    }
    assert forall|j: int| 0 <= j < c implies (#[trigger] tokens[j]).token != TokenView::Ident(
        name,
    ) by {
        assert(!named(j));
    }
    law_the_first_same_token_is_found(tokens, TokenView::Ident(name), c);
}

} // verus!
