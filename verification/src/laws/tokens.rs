//! Where tokens stand, how long they are and as what they are highlighted.

use crate::analysis::{diagnostics_of, Analysis};
use crate::laws::characters::law_capital_letters;
use crate::laws::completions::starts_capital;
use crate::laws::sequences::{lemma_pick_last, lemma_pick_nothing};
use crate::protocol::{DiagnosticSeverity, DiagnosticView, Position, Range};
use crate::semantic::{
    in_order, law_in_order_sorts_stably, legend, raw_tokens, semantic_tokens, stands_before,
    tokens_at, SemanticTokenRaw,
};
use crate::syntax::{
    digits, display_length, first_span, span_position, span_range, FixedToken, Span,
    SpannedTokenView, TokenView,
};
use vstd::arithmetic::power::pow;
use vstd::prelude::*;

verus! {

// ---------------------------------------------------------------------
// Places
// ---------------------------------------------------------------------

/// A number counted from one, counted from zero; nothing comes before zero.
pub open spec fn less_one(n: usize) -> int {
    if n == 0 {
        0
    } else {
        n as int - 1
    }
}

/// Lines and columns are counted from one in spans and from zero in positions,
/// and the range of some characters ends that many columns further on, in the
/// same line.
pub proof fn law_spans_are_counted_from_zero(span: Span, length: nat)
    ensures
        span_position(span).line == less_one(span.line) as u32,
        span_position(span).character == less_one(span.col) as u32,
        span_range(span, length).start == span_position(span),
        span_range(span, length).end.line == less_one(span.line) as u32,
        span_range(span, length).end.character == (less_one(span.col) + length) as u32,
{
}

/// The span of a token is that of the first that is the same, if there is one.
pub proof fn law_the_first_same_token_is_found(
    tokens: Seq<SpannedTokenView>,
    target: TokenView,
    i: int,
)
    requires
        0 <= i <= tokens.len(),
        i < tokens.len() ==> tokens[i].token == target,
        forall|j: int| 0 <= j < i ==> (#[trigger] tokens[j]).token != target,
    ensures
        first_span(tokens, target) == (if i < tokens.len() {
            Some(tokens[i].span)
        } else {
            None
        }),
    decreases i,
{
    if i > 0 {
        let rest = tokens.drop_first();
        assert(tokens[0].token != target);
        assert forall|j: int| 0 <= j < i - 1 implies (#[trigger] rest[j]).token != target by {
            assert(rest[j] == tokens[j + 1]);
        }
        law_the_first_same_token_is_found(rest, target, i - 1);
    }
}

/// The diagnostic of an error at one character.
pub open spec fn diagnosed(range: Range, message: Seq<char>) -> DiagnosticView {
    DiagnosticView {
        range,
        severity: DiagnosticSeverity::Error,
        message,
        source: seq!['s', 'y', 'm', 'a'],
    }
}

/// The range of the character at a line and a column that are counted from one.
pub open spec fn one_character(line: usize, col: usize) -> Range {
    Range {
        start: Position { line: less_one(line) as u32, character: less_one(col) as u32 },
        end: Position { line: less_one(line) as u32, character: (less_one(col) + 1) as u32 },
    }
}

/// An error of the lexer or the parser is the one diagnostic of a text, with the
/// error's message, at the character where it arose, or at the very start if
/// that is not known. A program has no diagnostics.
pub proof fn law_errors_are_diagnosed(analysis: Analysis)
    ensures
        diagnostics_of(analysis) == (match analysis {
            Analysis::LexFailed(e) => seq![diagnosed(one_character(e.line, e.col), e.message@)],
            Analysis::ParseFailed(e) => seq![
                diagnosed(
                    match e.span {
                        Some(span) => one_character(span.line, span.col),
                        None => Range {
                            start: Position { line: 0, character: 0 },
                            end: Position { line: 0, character: 0 },
                        },
                    },
                    e.message@,
                ),
            ],
            Analysis::Parsed { tokens, statements } => Seq::<DiagnosticView>::empty(),
        }),
{
    reveal_strlit("syma");
    assert("syma"@ =~= seq!['s', 'y', 'm', 'a']);
}

// ---------------------------------------------------------------------
// Lengths
// ---------------------------------------------------------------------

/// How a token is written that is always written the same way, as far as it is
/// a keyword or a known sign.
pub open spec fn spelling(t: FixedToken) -> Option<Seq<char>> {
    match t {
        FixedToken::If => Some("If"@),
        FixedToken::Which => Some("Which"@),
        FixedToken::Switch => Some("Switch"@),
        FixedToken::Match => Some("Match"@),
        FixedToken::For => Some("For"@),
        FixedToken::While => Some("While"@),
        FixedToken::Do => Some("Do"@),
        FixedToken::Try => Some("Try"@),
        FixedToken::Catch => Some("Catch"@),
        FixedToken::Finally => Some("Finally"@),
        FixedToken::Throw => Some("Throw"@),
        FixedToken::Function => Some("Function"@),
        FixedToken::Class => Some("Class"@),
        FixedToken::Extends => Some("Extends"@),
        FixedToken::With => Some("With"@),
        FixedToken::Method => Some("Method"@),
        FixedToken::Field => Some("Field"@),
        FixedToken::Constructor => Some("Constructor"@),
        FixedToken::Module => Some("Module"@),
        FixedToken::Import => Some("Import"@),
        FixedToken::Export => Some("Export"@),
        FixedToken::As => Some("As"@),
        FixedToken::RuleKw => Some("Rule"@),
        FixedToken::Hold => Some("Hold"@),
        FixedToken::HoldComplete => Some("HoldComplete"@),
        FixedToken::ReleaseHold => Some("ReleaseHold"@),
        FixedToken::Mixin => Some("Mixin"@),
        FixedToken::Else => Some("Else"@),
        FixedToken::Def => Some("Def"@),
        FixedToken::True => Some("True"@),
        FixedToken::False => Some("False"@),
        FixedToken::Null => Some("Null"@),
        FixedToken::LBrace => Some("{"@),
        FixedToken::RBrace => Some("}"@),
        FixedToken::LBracket => Some("["@),
        FixedToken::RBracket => Some("]"@),
        FixedToken::LParen => Some("("@),
        FixedToken::RParen => Some(")"@),
        FixedToken::Plus => Some("+"@),
        FixedToken::Minus => Some("-"@),
        FixedToken::Star => Some("*"@),
        FixedToken::Slash => Some("/"@),
        FixedToken::Caret => Some("^"@),
        FixedToken::Dot => Some("."@),
        FixedToken::Comma => Some(","@),
        FixedToken::Semicolon => Some(";"@),
        FixedToken::Colon => Some(":"@),
        FixedToken::Less => Some("<"@),
        FixedToken::Greater => Some(">"@),
        FixedToken::QuestionMark => Some("?"@),
        FixedToken::Tilde => Some("~"@),
        FixedToken::At => Some("@"@),
        FixedToken::Slot => Some("#"@),
        FixedToken::LAssoc => Some("<|"@),
        FixedToken::RAssoc => Some("|>"@),
        FixedToken::LDoubleBracket => Some("[["@),
        FixedToken::RDoubleBracket => Some("]]"@),
        FixedToken::Assign => Some("="@),
        FixedToken::DelayedAssign => Some(":="@),
        FixedToken::GreaterEqual => Some(">="@),
        FixedToken::LessEqual => Some("<="@),
        FixedToken::StarStar => Some("**"@),
        FixedToken::StringJoinOp => Some("<>"@),
        FixedToken::SlotSequence => Some("##"@),
        FixedToken::ColonColon => Some("::"@),
        FixedToken::ColonSlashSemicolon => Some("/;"@),
        FixedToken::ReplaceRepeated => Some("//."@),
        _ => None,
    }
}

/// Whether a sign is written with a single character, where its spelling is not
/// given above.
pub open spec fn is_single(t: FixedToken) -> bool {
    t == FixedToken::Not || t == FixedToken::Pipe || t == FixedToken::PipeAlt || t
        == FixedToken::Quote || t == FixedToken::FuncRef || t == FixedToken::Unset
}

/// The ends of lines and of the text take no room.
pub open spec fn is_invisible(t: FixedToken) -> bool {
    t == FixedToken::Newline || t == FixedToken::Eof
}

/// A keyword or a sign is as long as its spelling. The other signs have one
/// character or two, and the ends of lines and of the text none.
pub proof fn law_lengths_are_those_of_spellings(t: FixedToken)
    ensures
        spelling(t) matches Some(s) ==> display_length(TokenView::Fixed(t)) == s.len(),
        spelling(t) is None ==> display_length(TokenView::Fixed(t)) == (if is_invisible(t) {
            0nat
        } else if is_single(t) {
            1nat
        } else {
            2nat
        }),
{
    reveal_strlit("If");
    reveal_strlit("Which");
    reveal_strlit("Switch");
    reveal_strlit("Match");
    reveal_strlit("For");
    reveal_strlit("While");
    reveal_strlit("Do");
    reveal_strlit("Try");
    reveal_strlit("Catch");
    reveal_strlit("Finally");
    reveal_strlit("Throw");
    reveal_strlit("Function");
    reveal_strlit("Class");
    reveal_strlit("Extends");
    reveal_strlit("With");
    reveal_strlit("Method");
    reveal_strlit("Field");
    reveal_strlit("Constructor");
    reveal_strlit("Module");
    reveal_strlit("Import");
    reveal_strlit("Export");
    reveal_strlit("As");
    reveal_strlit("Rule");
    reveal_strlit("Hold");
    reveal_strlit("HoldComplete");
    reveal_strlit("ReleaseHold");
    reveal_strlit("Mixin");
    reveal_strlit("Else");
    reveal_strlit("Def");
    reveal_strlit("True");
    reveal_strlit("False");
    reveal_strlit("Null");
    reveal_strlit("{");
    reveal_strlit("}");
    reveal_strlit("[");
    reveal_strlit("]");
    reveal_strlit("(");
    reveal_strlit(")");
    reveal_strlit("+");
    reveal_strlit("-");
    reveal_strlit("*");
    reveal_strlit("/");
    reveal_strlit("^");
    reveal_strlit(".");
    reveal_strlit(",");
    reveal_strlit(";");
    reveal_strlit(":");
    reveal_strlit("<");
    reveal_strlit(">");
    reveal_strlit("?");
    reveal_strlit("~");
    reveal_strlit("@");
    reveal_strlit("#");
    reveal_strlit("<|");
    reveal_strlit("|>");
    reveal_strlit("[[");
    reveal_strlit("]]");
    reveal_strlit("=");
    reveal_strlit(":=");
    reveal_strlit(">=");
    reveal_strlit("<=");
    reveal_strlit("**");
    reveal_strlit("<>");
    reveal_strlit("##");
    reveal_strlit("::");
    reveal_strlit("/;");
    reveal_strlit("//.");
}

/// A token with a text is as long as its text has characters.
pub proof fn law_lengths_of_texts(s: Seq<char>)
    ensures
        display_length(TokenView::Ident(s)) == s.len(),
        display_length(TokenView::Integer(s)) == s.len(),
        display_length(TokenView::Real(s)) == s.len(),
        display_length(TokenView::Str(s)) == s.len(),
        display_length(TokenView::Operator(s)) == s.len(),
{
}

/// A slot is written as one sign, or two, and its number in decimal digits: as
/// many as the number has, where zero has one.
pub proof fn law_lengths_of_slots(n: u64)
    ensures
        ({
            let d = (display_length(TokenView::SlotN(n)) - 1) as nat;
            &&& display_length(TokenView::SlotSequenceN(n)) == d + 2
            &&& d >= 1
            &&& (n as int) < pow(10, d)
            &&& n >= 10 ==> pow(10, (d - 1) as nat) <= n as int
            &&& n < 10 ==> d == 1
        }),
{
    lemma_digits(n as nat);
}

proof fn lemma_digits(n: nat)
    ensures
        digits(n) >= 1,
        (n as int) < pow(10, digits(n)),
        n >= 10 ==> pow(10, (digits(n) - 1) as nat) <= n as int,
        n > 0 ==> pow(10, (digits(n) - 1) as nat) <= n as int,
    decreases n,
{
    reveal(pow);
    if n < 10 {
        assert(pow(10, 0) == 1);
        assert(pow(10, 1) == 10 * pow(10, 0));
    } else {
        lemma_digits(n / 10);
        let d = digits(n / 10);
        assert(digits(n) == d + 1);
        assert(pow(10, d + 1) == 10 * pow(10, d));
        assert(pow(10, d) == 10 * pow(10, (d - 1) as nat));
    }
}

// ---------------------------------------------------------------------
// Highlighting
// ---------------------------------------------------------------------

/// Whether a token is one of the keywords.
pub open spec fn is_reserved(t: FixedToken) -> bool {
    spelling(t) is Some && spelling(t)->Some_0.len() > 0 && 'A' <= spelling(t)->Some_0[0]
        && spelling(t)->Some_0[0] <= 'Z' && t != FixedToken::True && t != FixedToken::False && t
        != FixedToken::Null
}

/// As what a token is highlighted: a name as a function if it starts with a
/// capital letter and else as a variable, and a keyword, a number and a string
/// as such, whatever their texts. Nothing else is highlighted.
pub open spec fn highlighted_as(token: TokenView) -> Option<Seq<char>> {
    match token {
        TokenView::Ident(name) => if starts_capital(name) {
            Some("function"@)
        } else {
            Some("variable"@)
        },
        TokenView::Fixed(t) => if is_reserved(t) {
            Some("keyword"@)
        } else {
            None
        },
        TokenView::Integer(_) => Some("number"@),
        TokenView::Real(_) => Some("number"@),
        TokenView::Str(_) => Some("string"@),
        _ => None,
    }
}

/// The names of the legend.
pub proof fn law_legend()
    ensures
        legend() == seq!["function"@, "keyword"@, "number"@, "string"@, "variable"@],
{
}

/// Whether a type, as an index of the legend, is that of a token.
pub proof fn law_token_types(token: TokenView)
    ensures
        match crate::semantic::token_type(token) {
            Some(index) => index < legend().len() && highlighted_as(token) == Some(
                legend()[index as int],
            ),
            None => highlighted_as(token) is None,
        },
{
    reveal_strlit("If");
    reveal_strlit("Which");
    reveal_strlit("Switch");
    reveal_strlit("Match");
    reveal_strlit("For");
    reveal_strlit("While");
    reveal_strlit("Do");
    reveal_strlit("Try");
    reveal_strlit("Catch");
    reveal_strlit("Finally");
    reveal_strlit("Throw");
    reveal_strlit("Function");
    reveal_strlit("Class");
    reveal_strlit("Extends");
    reveal_strlit("With");
    reveal_strlit("Method");
    reveal_strlit("Field");
    reveal_strlit("Constructor");
    reveal_strlit("Module");
    reveal_strlit("Import");
    reveal_strlit("Export");
    reveal_strlit("As");
    reveal_strlit("Rule");
    reveal_strlit("Hold");
    reveal_strlit("HoldComplete");
    reveal_strlit("ReleaseHold");
    reveal_strlit("Mixin");
    reveal_strlit("Else");
    reveal_strlit("Def");
    reveal_strlit("True");
    reveal_strlit("False");
    reveal_strlit("Null");
    reveal_strlit("{");
    reveal_strlit("}");
    reveal_strlit("[");
    reveal_strlit("]");
    reveal_strlit("(");
    reveal_strlit(")");
    reveal_strlit("+");
    reveal_strlit("-");
    reveal_strlit("*");
    reveal_strlit("/");
    reveal_strlit("^");
    reveal_strlit(".");
    reveal_strlit(",");
    reveal_strlit(";");
    reveal_strlit(":");
    reveal_strlit("<");
    reveal_strlit(">");
    reveal_strlit("?");
    reveal_strlit("~");
    reveal_strlit("@");
    reveal_strlit("#");
    reveal_strlit("<|");
    reveal_strlit("|>");
    reveal_strlit("[[");
    reveal_strlit("]]");
    reveal_strlit("=");
    reveal_strlit(":=");
    reveal_strlit(">=");
    reveal_strlit("<=");
    reveal_strlit("**");
    reveal_strlit("<>");
    reveal_strlit("##");
    reveal_strlit("::");
    reveal_strlit("/;");
    reveal_strlit("//.");
    if let TokenView::Ident(name) = token {
        if name.len() > 0 {
            law_capital_letters(name[0]);
        }
    }
}

/// The tokens that are highlighted are all keywords, names, numbers and strings
/// among the tokens, in their order, each with its place, its length and its
/// type.
pub proof fn law_all_keywords_names_numbers_and_strings_are_highlighted(
    tokens: Seq<SpannedTokenView>,
)
    ensures
        raw_tokens(tokens) == tokens.filter(
            |t: SpannedTokenView| highlighted_as(t.token) is Some,
        ).map_values(
            |t: SpannedTokenView|
                SemanticTokenRaw {
                    line: less_one(t.span.line) as u32,
                    start: less_one(t.span.col) as u32,
                    length: display_length(t.token) as u32,
                    token_type: crate::semantic::token_type(t.token)->Some_0,
                    modifier: 0,
                },
        ),
    decreases tokens.len(),
{
    let keep = |t: SpannedTokenView| highlighted_as(t.token) is Some;
    let turn = |t: SpannedTokenView|
        SemanticTokenRaw {
            line: less_one(t.span.line) as u32,
            start: less_one(t.span.col) as u32,
            length: display_length(t.token) as u32,
            token_type: crate::semantic::token_type(t.token)->Some_0,
            modifier: 0,
        };
    if tokens.len() == 0 {
        lemma_pick_nothing(tokens, keep, turn);
    } else {
        law_all_keywords_names_numbers_and_strings_are_highlighted(tokens.drop_last());
        lemma_pick_last(tokens, keep, turn);
        law_token_types(tokens.last().token);
        assert(raw_tokens(tokens) =~= tokens.filter(keep).map_values(turn));
    }
}

/// As many tokens are encoded as there are keywords, names, numbers and strings,
/// and none at all is answered only if there are none.
pub proof fn law_no_token_is_lost(tokens: Seq<SpannedTokenView>)
    ensures
        match semantic_tokens(tokens) {
            Some(encoded) => encoded.len() == tokens.filter(
                |t: SpannedTokenView| highlighted_as(t.token) is Some,
            ).len() && encoded.len() > 0,
            None => tokens.filter(|t: SpannedTokenView| highlighted_as(t.token) is Some).len() == 0,
        },
{
    law_all_keywords_names_numbers_and_strings_are_highlighted(tokens);
    law_in_order_sorts_stably(raw_tokens(tokens));
}

/// The tokens are encoded by line and by column: none stands before the one
/// before it, and those at one place keep their order.
pub proof fn law_tokens_are_sorted_by_place(
    tokens: Seq<SemanticTokenRaw>,
    i: int,
    j: int,
    line: u32,
    start: u32,
)
    ensures
        in_order(tokens).len() == tokens.len(),
        0 <= i < j < tokens.len() ==> in_order(tokens)[i].line < in_order(tokens)[j].line || (
        in_order(tokens)[i].line == in_order(tokens)[j].line && in_order(tokens)[i].start
            <= in_order(tokens)[j].start),
        in_order(tokens).filter(|t: SemanticTokenRaw| t.line == line && t.start == start)
            == tokens.filter(|t: SemanticTokenRaw| t.line == line && t.start == start),
{
    law_in_order_sorts_stably(tokens);
    if 0 <= i < j < tokens.len() {
        assert(!stands_before(in_order(tokens)[j], in_order(tokens)[i]));
    }
    lemma_tokens_at(tokens, line, start);
    lemma_tokens_at(in_order(tokens), line, start);
    assert(tokens_at(in_order(tokens), line, start) == tokens_at(tokens, line, start));
}

proof fn lemma_tokens_at(s: Seq<SemanticTokenRaw>, line: u32, start: u32)
    ensures
        tokens_at(s, line, start) == s.filter(
            |t: SemanticTokenRaw| t.line == line && t.start == start,
        ),
    decreases s.len(),
{
    reveal(Seq::filter);
    if s.len() > 0 {
        lemma_tokens_at(s.drop_last(), line, start);
    } else {
        assert(tokens_at(s, line, start) =~= s.filter(
            |t: SemanticTokenRaw| t.line == line && t.start == start,
        ));
    }
}

/// Each token is encoded by its distance from the one before it: in lines, and
/// in columns if both are on one line, else by its column. The first is encoded
/// by its distance from the start. Length and type are kept.
pub proof fn law_tokens_are_encoded_by_distance(tokens: Seq<SpannedTokenView>, k: int)
    requires
        semantic_tokens(tokens) is Some,
        0 <= k < semantic_tokens(tokens)->Some_0.len(),
    ensures
        ({
            let s = in_order(raw_tokens(tokens));
            let t = semantic_tokens(tokens)->Some_0[k];
            let line = if k == 0 {
                0
            } else {
                s[k - 1].line as int
            };
            let start = if k == 0 {
                0
            } else {
                s[k - 1].start as int
            };
            &&& s.len() == semantic_tokens(tokens)->Some_0.len()
            &&& line + t.delta_line == s[k].line
            &&& (t.delta_line == 0 ==> start + t.delta_start == s[k].start)
            &&& (t.delta_line > 0 ==> t.delta_start == s[k].start)
            &&& t.length == s[k].length
            &&& t.token_type == s[k].token_type
            &&& t.token_modifiers_bitset == 0
        }),
{
    let s = in_order(raw_tokens(tokens));
    law_in_order_sorts_stably(raw_tokens(tokens));
    crate::semantic::law_token_types_are_in_legend(tokens);
    if k > 0 {
        assert(!stands_before(s[k], s[k - 1]));
    }
}

} // verus!
