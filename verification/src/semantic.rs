//! Semantic highlighting: which tokens are highlighted, in which order, and
//! how their positions are encoded relative to each other.

use crate::protocol::{Position, SemanticToken};
use crate::strings::{copied, is_upper, upper};
use crate::syntax::{
    display_length, span_position, syma_span_to_lsp_position, token_display_length, SpannedToken,
    SpannedTokenView, Token, TokenView,
};
use vstd::prelude::*;

verus! {

/// A highlighted token at its absolute position.
#[derive(Clone, Copy, Debug, PartialEq, Eq, Structural)]
pub struct SemanticTokenRaw {
    pub line: u32,
    pub start: u32,
    pub length: u32,
    pub token_type: u32,
    pub modifier: u32,
}

/// Whether a text starts with an uppercase letter.
pub open spec fn starts_uppercase(s: Seq<char>) -> bool {
    s.len() > 0 && is_upper(s[0])
}

/// The index in the legend of the type as which a token is highlighted.
pub open spec fn token_type(token: TokenView) -> Option<u32> {
    match token {
        TokenView::Fixed(t) => if t.is_keyword_spec() {
            Some(1)
        } else {
            None
        },
        TokenView::Ident(name) => if starts_uppercase(name) {
            Some(0)
        } else {
            Some(4)
        },
        TokenView::Integer(_) => Some(2),
        TokenView::Real(_) => Some(2),
        TokenView::Str(_) => Some(3),
        _ => None,
    }
}

/// A token at its absolute position, if it is highlighted.
pub open spec fn raw_token(spanned: SpannedTokenView) -> Option<SemanticTokenRaw> {
    match token_type(spanned.token) {
        Some(token_type) => Some(
            SemanticTokenRaw {
                line: span_position(spanned.span).line,
                start: span_position(spanned.span).character,
                length: display_length(spanned.token) as u32,
                token_type,
                modifier: 0,
            },
        ),
        None => None,
    }
}

/// The highlighted tokens among `tokens`, in their order.
pub open spec fn raw_tokens(tokens: Seq<SpannedTokenView>) -> Seq<SemanticTokenRaw>
    decreases tokens.len(),
{
    if tokens.len() == 0 {
        Seq::empty()
    } else {
        let before = raw_tokens(tokens.drop_last());
        match raw_token(tokens.last()) {
            Some(raw) => before.push(raw),
            None => before,
        }
    }
}

/// Whether `a` stands before `b` in the document.
pub open spec fn stands_before(a: SemanticTokenRaw, b: SemanticTokenRaw) -> bool {
    a.line < b.line || (a.line == b.line && a.start < b.start)
}

/// `s` with `t` put behind the last token that does not stand after it.
pub open spec fn insert_in_order(s: Seq<SemanticTokenRaw>, t: SemanticTokenRaw) -> Seq<
    SemanticTokenRaw,
>
    decreases s.len(),
{
    if s.len() == 0 || !stands_before(t, s.last()) {
        s.push(t)
    } else {
        insert_in_order(s.drop_last(), t).push(s.last())
    }
}

/// The tokens in the order of their positions; tokens at one position keep
/// their order.
pub open spec fn in_order(s: Seq<SemanticTokenRaw>) -> Seq<SemanticTokenRaw>
    decreases s.len(),
{
    if s.len() == 0 {
        Seq::empty()
    } else {
        insert_in_order(in_order(s.drop_last()), s.last())
    }
}

/// Whether no token stands after a later one.
pub open spec fn is_ordered(s: Seq<SemanticTokenRaw>) -> bool {
    forall|i: int, j: int|
        0 <= i < j < s.len() ==> !stands_before(#[trigger] s[j], #[trigger] s[i])
}

/// The tokens of `s` at one position.
pub open spec fn tokens_at(s: Seq<SemanticTokenRaw>, line: u32, start: u32) -> Seq<
    SemanticTokenRaw,
>
    decreases s.len(),
{
    if s.len() == 0 {
        Seq::empty()
    } else {
        let before = tokens_at(s.drop_last(), line, start);
        if s.last().line == line && s.last().start == start {
            before.push(s.last())
        } else {
            before
        }
    }
}

/// A token relative to the position `line`, `start` of the token before it.
pub open spec fn relative_to(line: u32, start: u32, t: SemanticTokenRaw) -> SemanticToken {
    SemanticToken {
        delta_line: (t.line - line) as u32,
        delta_start: if t.line == line {
            (t.start - start) as u32
        } else {
            t.start
        },
        length: t.length,
        token_type: t.token_type,
        token_modifiers_bitset: t.modifier,
    }
}

/// Each token relative to the one before it, the first relative to the start
/// of the document.
pub open spec fn encode(s: Seq<SemanticTokenRaw>) -> Seq<SemanticToken> {
    Seq::new(
        s.len(),
        |i: int|
            if i == 0 {
                relative_to(0, 0, s[0])
            } else {
                relative_to(s[i - 1].line, s[i - 1].start, s[i])
            },
    )
}

/// The absolute positions of relative tokens, as an editor reads them.
pub open spec fn decode(e: Seq<SemanticToken>) -> Seq<SemanticTokenRaw>
    decreases e.len(),
{
    if e.len() == 0 {
        Seq::empty()
    } else {
        let before = decode(e.drop_last());
        let t = e.last();
        let (line, start) = if before.len() == 0 {
            (0u32, 0u32)
        } else {
            (before.last().line, before.last().start)
        };
        before.push(
            SemanticTokenRaw {
                line: (line + t.delta_line) as u32,
                start: if t.delta_line == 0 {
                    (start + t.delta_start) as u32
                } else {
                    t.delta_start
                },
                length: t.length,
                token_type: t.token_type,
                modifier: t.token_modifiers_bitset,
            },
        )
    }
}

/// The semantic tokens of a document, if any token is highlighted.
pub open spec fn semantic_tokens(tokens: Seq<SpannedTokenView>) -> Option<Seq<SemanticToken>> {
    let encoded = encode(in_order(raw_tokens(tokens)));
    if encoded.len() == 0 {
        None
    } else {
        Some(encoded)
    }
}

/// The names of the token types, in the order of their indices.
pub open spec fn legend() -> Seq<Seq<char>> {
    seq!["function"@, "keyword"@, "number"@, "string"@, "variable"@]
}

// ---------------------------------------------------------------------
// Laws
// ---------------------------------------------------------------------

proof fn lemma_insert_in_order(s: Seq<SemanticTokenRaw>, t: SemanticTokenRaw)
    requires
        is_ordered(s),
    ensures
        is_ordered(insert_in_order(s, t)),
        insert_in_order(s, t).len() == s.len() + 1,
        forall|i: int|
            0 <= i < insert_in_order(s, t).len() ==> (#[trigger] insert_in_order(s, t)[i]) == t
                || s.contains(insert_in_order(s, t)[i]),
    decreases s.len(),
{
    let r = insert_in_order(s, t);
    if s.len() == 0 {
    } else if !stands_before(t, s.last()) {
        assert forall|i: int, j: int| 0 <= i < j < r.len() implies !stands_before(
            #[trigger] r[j],
            #[trigger] r[i],
        ) by {
            if j == s.len() {
                assert(s[s.len() - 1] == s.last());
                if i < s.len() - 1 {
                    assert(!stands_before(s[s.len() - 1], s[i]));
                }
            }
        }
        assert forall|i: int| 0 <= i < r.len() implies (#[trigger] r[i]) == t || s.contains(
            r[i],
        ) by {
            if i < s.len() {
                assert(s[i] == r[i]);
            }
        }
    } else {
        let init = s.drop_last();
        lemma_insert_in_order(init, t);
        let q = insert_in_order(init, t);
        assert forall|i: int| 0 <= i < r.len() implies (#[trigger] r[i]) == t || s.contains(
            r[i],
        ) by {
            if i < q.len() {
                if q[i] != t {
                    let k = choose|k: int| 0 <= k < init.len() && init[k] == q[i];
                    assert(s[k] == r[i]);
                }
            } else {
                assert(s[s.len() - 1] == r[i]);
            }
        }
        assert forall|i: int, j: int| 0 <= i < j < r.len() implies !stands_before(
            #[trigger] r[j],
            #[trigger] r[i],
        ) by {
            if j == q.len() {
                assert(r[i] == q[i]);
                if q[i] != t {
                    let k = choose|k: int| 0 <= k < init.len() && init[k] == q[i];
                    assert(!stands_before(s[s.len() - 1], s[k]));
                }
            } else {
                assert(r[i] == q[i] && r[j] == q[j]);
            }
        }
    }
}

proof fn lemma_insert_keeps_places(
    s: Seq<SemanticTokenRaw>,
    t: SemanticTokenRaw,
    line: u32,
    start: u32,
)
    ensures
        tokens_at(insert_in_order(s, t), line, start) == tokens_at(s.push(t), line, start),
    decreases s.len(),
{
    reveal_with_fuel(tokens_at, 3);
    assert(s.push(t).drop_last() =~= s);
    if s.len() > 0 && stands_before(t, s.last()) {
        let init = s.drop_last();
        lemma_insert_keeps_places(init, t, line, start);
        let q = insert_in_order(init, t);
        assert(q.push(s.last()).drop_last() =~= q);
        assert(init.push(t).drop_last() =~= init);
    }
}

/// Tokens put in order are ordered by position. Nothing is lost or added, and
/// tokens at one position keep their order.
pub proof fn law_in_order_sorts_stably(s: Seq<SemanticTokenRaw>)
    ensures
        is_ordered(in_order(s)),
        in_order(s).len() == s.len(),
        forall|line: u32, start: u32|
            #[trigger] tokens_at(in_order(s), line, start) == tokens_at(s, line, start),
    decreases s.len(),
{
    if s.len() > 0 {
        let init = s.drop_last();
        law_in_order_sorts_stably(init);
        lemma_insert_in_order(in_order(init), s.last());
        assert forall|line: u32, start: u32|
            #[trigger] tokens_at(in_order(s), line, start) == tokens_at(s, line, start) by {
            lemma_insert_keeps_places(in_order(init), s.last(), line, start);
            assert(in_order(init).push(s.last()).drop_last() =~= in_order(init));
            assert(tokens_at(in_order(init), line, start) == tokens_at(init, line, start));
        }
    }
}

/// An editor that reads encoded tokens finds every token where it stands.
pub proof fn law_decode_inverts_encode(s: Seq<SemanticTokenRaw>)
    requires
        is_ordered(s),
    ensures
        decode(encode(s)) == s,
    decreases s.len(),
{
    if s.len() > 0 {
        let init = s.drop_last();
        law_decode_inverts_encode(init);
        assert(encode(s).drop_last() =~= encode(init));
        if s.len() > 1 {
            let i = s.len() - 2;
            assert(init.last() == s[i]);
            assert(!stands_before(s[s.len() - 1], s[i]));
        }
        assert(decode(encode(s)) =~= init.push(s.last()));
        assert(init.push(s.last()) =~= s);
    } else {
        assert(decode(encode(s)) =~= s);
    }
}

/// The semantic tokens of a document are read back as its highlighted tokens
/// in the order of their positions.
pub proof fn law_semantic_tokens_read_back(tokens: Seq<SpannedTokenView>)
    ensures
        match semantic_tokens(tokens) {
            Some(encoded) => decode(encoded) == in_order(raw_tokens(tokens)),
            None => raw_tokens(tokens).len() == 0,
        },
{
    law_in_order_sorts_stably(raw_tokens(tokens));
    law_decode_inverts_encode(in_order(raw_tokens(tokens)));
}

/// Every semantic token has a type of the legend and, as the legend names none,
/// no modifiers.
pub proof fn law_token_types_are_in_legend(tokens: Seq<SpannedTokenView>)
    ensures
        semantic_tokens(tokens) matches Some(encoded) ==> forall|i: int|
            0 <= i < encoded.len() ==> (#[trigger] encoded[i]).token_type < legend().len()
                && encoded[i].token_modifiers_bitset == 0,
{
    let s = raw_tokens(tokens);
    lemma_raw_types(tokens);
    lemma_in_order_types(s);
}

proof fn lemma_raw_types(tokens: Seq<SpannedTokenView>)
    ensures
        forall|i: int|
            0 <= i < raw_tokens(tokens).len() ==> (#[trigger] raw_tokens(tokens)[i]).token_type < 5
                && raw_tokens(tokens)[i].modifier == 0,
    decreases tokens.len(),
{
    if tokens.len() > 0 {
        lemma_raw_types(tokens.drop_last());
        let before = raw_tokens(tokens.drop_last());
        assert forall|i: int| 0 <= i < raw_tokens(tokens).len() implies (#[trigger] raw_tokens(
            tokens,
        )[i]).token_type < 5 && raw_tokens(tokens)[i].modifier == 0 by {
            if i < before.len() {
                assert(raw_tokens(tokens)[i] == before[i]);
            }
        }
    }
}

proof fn lemma_in_order_types(s: Seq<SemanticTokenRaw>)
    requires
        forall|i: int|
            0 <= i < s.len() ==> (#[trigger] s[i]).token_type < 5 && s[i].modifier == 0,
    ensures
        forall|i: int|
            0 <= i < in_order(s).len() ==> (#[trigger] in_order(s)[i]).token_type < 5 && in_order(
                s,
            )[i].modifier == 0,
    decreases s.len(),
{
    if s.len() > 0 {
        let init = s.drop_last();
        assert(forall|i: int| 0 <= i < init.len() ==> #[trigger] init[i] == s[i]);
        lemma_in_order_types(init);
        law_in_order_sorts_stably(init);
        lemma_insert_in_order(in_order(init), s.last());
        assert(s[s.len() - 1] == s.last());
    }
}

// ---------------------------------------------------------------------
// Computing them
// ---------------------------------------------------------------------

/// Whether a name starts with an uppercase letter.
pub fn name_starts_uppercase(name: &str) -> (r: bool)
    ensures
        r == starts_uppercase(name@),
{
    !name.is_empty() && upper(name.get_char(0))
}

/// The index in the legend of the type as which a token is highlighted.
pub fn type_of_token(token: &Token) -> (r: Option<u32>)
    ensures
        r == token_type(token.deep_view()),
{
    match token {
        Token::Fixed(t) => if t.is_keyword() {
            Some(1)
        } else {
            None
        },
        Token::Ident(name) => if name_starts_uppercase(name.as_str()) {
            Some(0)
        } else {
            Some(4)
        },
        Token::Integer(_) => Some(2),
        Token::Real(_) => Some(2),
        Token::Str(_) => Some(3),
        _ => None,
    }
}

fn collect_raw(tokens: &Vec<SpannedToken>) -> (r: Vec<SemanticTokenRaw>)
    ensures
        r@ == raw_tokens(tokens.deep_view()),
{
    let ghost all = tokens.deep_view();
    let mut out: Vec<SemanticTokenRaw> = Vec::new();
    let mut i: usize = 0;
    while i < tokens.len()
        invariant
            i <= tokens@.len(),
            all == tokens.deep_view(),
            out@ == raw_tokens(all.take(i as int)),
        decreases tokens@.len() - i,
    {
        assert(all.take(i + 1).drop_last() =~= all.take(i as int));
        assert(all.take(i + 1).last() == tokens@[i as int].deep_view());
        if let Some(token_type) = type_of_token(&tokens[i].token) {
            let pos: Position = syma_span_to_lsp_position(&tokens[i].span);
            let length: usize = token_display_length(&tokens[i].token);
            out.push(
                SemanticTokenRaw {
                    line: pos.line,
                    start: pos.character,
                    length: length as u32,
                    token_type,
                    modifier: 0,
                },
            );
        }
        i += 1;
    }
    assert(all.take(i as int) =~= all);
    out
}

proof fn lemma_insert_at(s: Seq<SemanticTokenRaw>, t: SemanticTokenRaw, at: int)
    requires
        0 <= at <= s.len(),
        forall|i: int| at <= i < s.len() ==> stands_before(t, #[trigger] s[i]),
        at > 0 ==> !stands_before(t, s[at - 1]),
    ensures
        insert_in_order(s, t) == s.insert(at, t),
    decreases s.len(),
{
    if at == s.len() {
        assert(s.insert(at, t) =~= s.push(t));
    } else {
        assert(stands_before(t, s[s.len() - 1]));
        lemma_insert_at(s.drop_last(), t, at);
        assert(s.insert(at, t) =~= s.drop_last().insert(at, t).push(s.last()));
    }
}

fn sort_tokens(tokens: &Vec<SemanticTokenRaw>) -> (r: Vec<SemanticTokenRaw>)
    ensures
        r@ == in_order(tokens@),
{
    let mut out: Vec<SemanticTokenRaw> = Vec::new();
    let mut i: usize = 0;
    while i < tokens.len()
        invariant
            i <= tokens@.len(),
            out@.len() == i,
            out@ == in_order(tokens@.take(i as int)),
        decreases tokens@.len() - i,
    {
        let t: SemanticTokenRaw = tokens[i];
        let mut at: usize = i;
        while at > 0 && (t.line < out[at - 1].line || (t.line == out[at - 1].line && t.start
            < out[at - 1].start))
            invariant
                at <= i == out@.len(),
                forall|k: int| at <= k < i ==> stands_before(t, #[trigger] out@[k]),
            decreases at,
        {
            at -= 1;
        }
        proof {
            lemma_insert_at(out@, t, at as int);
            assert(tokens@.take(i + 1).drop_last() =~= tokens@.take(i as int));
        }
        out.insert(at, t);
        i += 1;
    }
    assert(tokens@.take(i as int) =~= tokens@);
    out
}

fn encode_tokens(tokens: &Vec<SemanticTokenRaw>) -> (r: Vec<SemanticToken>)
    requires
        is_ordered(tokens@),
    ensures
        r@ == encode(tokens@),
{
    let mut out: Vec<SemanticToken> = Vec::new();
    let mut line: u32 = 0;
    let mut start: u32 = 0;
    let mut i: usize = 0;
    while i < tokens.len()
        invariant
            i <= tokens@.len(),
            is_ordered(tokens@),
            out@.len() == i,
            i == 0 ==> line == 0 && start == 0,
            i > 0 ==> line == tokens@[i - 1].line && start == tokens@[i - 1].start,
            forall|k: int| 0 <= k < i ==> out@[k] == #[trigger] encode(tokens@)[k],
        decreases tokens@.len() - i,
    {
        let t: SemanticTokenRaw = tokens[i];
        assert(i > 0 ==> !stands_before(tokens@[i as int], tokens@[i - 1]));
        let delta_start: u32 = if t.line == line {
            t.start - start
        } else {
            t.start
        };
        out.push(
            SemanticToken {
                delta_line: t.line - line,
                delta_start,
                length: t.length,
                token_type: t.token_type,
                token_modifiers_bitset: t.modifier,
            },
        );
        line = t.line;
        start = t.start;
        i += 1;
    }
    assert(out@ =~= encode(tokens@));
    out
}

/// The semantic tokens of a document, if any token is highlighted.
pub fn encode_semantic_tokens(tokens: &Vec<SpannedToken>) -> (r: Option<Vec<SemanticToken>>)
    ensures
        match r {
            Some(encoded) => semantic_tokens(tokens.deep_view()) == Some(encoded@),
            None => semantic_tokens(tokens.deep_view()) is None,
        },
{
    let raw: Vec<SemanticTokenRaw> = collect_raw(tokens);
    let sorted: Vec<SemanticTokenRaw> = sort_tokens(&raw);
    proof {
        law_in_order_sorts_stably(raw@);
    }
    let encoded: Vec<SemanticToken> = encode_tokens(&sorted);
    if encoded.len() == 0 {
        None
    } else {
        Some(encoded)
    }
}

/// The names of the token types, in the order of their indices.
pub fn semantic_token_legend() -> (r: Vec<String>)
    ensures
        r.deep_view() == legend(),
{
    let mut out: Vec<String> = Vec::new();
    out.push(copied("function"));
    out.push(copied("keyword"));
    out.push(copied("number"));
    out.push(copied("string"));
    out.push(copied("variable"));
    assert(out.deep_view() =~= legend());
    out
}

} // verus!
