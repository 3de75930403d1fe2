//! The tokens and the outcome of analysing a document, and where they stand
//! in editor coordinates.

use crate::protocol::{Diagnostic, DiagnosticSeverity, DiagnosticView, Position, Range};
use crate::strings::{copied, same};
use vstd::prelude::*;

verus! {

/// A place in a source text: line and column, both counted from one.
#[derive(Clone, Copy, Debug, PartialEq, Eq, Structural)]
pub struct Span {
    pub line: usize,
    pub col: usize,
}

/// A token that is always spelled the same way.
#[derive(Clone, Copy, Debug, PartialEq, Eq, Structural)]
pub enum FixedToken {
    If,
    Which,
    Switch,
    Match,
    For,
    While,
    Do,
    Try,
    Catch,
    Finally,
    Throw,
    Function,
    Class,
    Extends,
    With,
    Method,
    Field,
    Constructor,
    Module,
    Import,
    Export,
    As,
    RuleKw,
    Hold,
    HoldComplete,
    ReleaseHold,
    Mixin,
    Else,
    Def,
    True,
    False,
    Null,
    LBrace,
    RBrace,
    LBracket,
    RBracket,
    LParen,
    RParen,
    Plus,
    Minus,
    Star,
    Slash,
    Caret,
    Dot,
    Comma,
    Semicolon,
    Colon,
    Less,
    Greater,
    Not,
    Pipe,
    PipeAlt,
    QuestionMark,
    Quote,
    Tilde,
    FuncRef,
    At,
    Unset,
    Slot,
    LAssoc,
    RAssoc,
    LDoubleBracket,
    RDoubleBracket,
    Assign,
    Rule,
    Equal,
    Unequal,
    FatArrow,
    DelayedAssign,
    GreaterEqual,
    LessEqual,
    DelayedRule,
    ReplaceAll,
    And,
    Or,
    StarStar,
    Increment,
    Decrement,
    MapOp,
    ApplyOp,
    AtTransform,
    StringJoinOp,
    PlusAssign,
    MinusAssign,
    StarAssign,
    SlashAssign,
    CaretAssign,
    SlotSequence,
    ColonColon,
    ColonSlashSemicolon,
    ReplaceRepeated,
    Newline,
    Eof,
}

/// A token of a Syma program.
#[derive(Debug)]
pub enum Token {
    Ident(String),
    Integer(String),
    Real(String),
    Str(String),
    Operator(String),
    SlotN(u64),
    SlotSequenceN(u64),
    Fixed(FixedToken),
}

/// A token with its text as a character sequence.
#[verifier::ext_equal]
pub enum TokenView {
    Ident(Seq<char>),
    Integer(Seq<char>),
    Real(Seq<char>),
    Str(Seq<char>),
    Operator(Seq<char>),
    SlotN(u64),
    SlotSequenceN(u64),
    Fixed(FixedToken),
}

impl DeepView for Token {
    type V = TokenView;

    open spec fn deep_view(&self) -> TokenView {
        match self {
            Token::Ident(s) => TokenView::Ident(s@),
            Token::Integer(s) => TokenView::Integer(s@),
            Token::Real(s) => TokenView::Real(s@),
            Token::Str(s) => TokenView::Str(s@),
            Token::Operator(s) => TokenView::Operator(s@),
            Token::SlotN(n) => TokenView::SlotN(*n),
            Token::SlotSequenceN(n) => TokenView::SlotSequenceN(*n),
            Token::Fixed(t) => TokenView::Fixed(*t),
        }
    }
}

/// A token and where it starts.
#[derive(Debug)]
pub struct SpannedToken {
    pub token: Token,
    pub span: Span,
}

/// A token and where it starts, with its text as a character sequence.
#[verifier::ext_equal]
pub struct SpannedTokenView {
    pub token: TokenView,
    pub span: Span,
}

impl DeepView for SpannedToken {
    type V = SpannedTokenView;

    open spec fn deep_view(&self) -> SpannedTokenView {
        SpannedTokenView { token: self.token.deep_view(), span: self.span }
    }
}

impl Token {
    /// Whether two tokens are the same.
    pub fn is_same(&self, other: &Token) -> (r: bool)
        ensures
            r == (self.deep_view() == other.deep_view()),
    {
        match (self, other) {
            (Token::Ident(a), Token::Ident(b)) => same(a.as_str(), b.as_str()),
            (Token::Integer(a), Token::Integer(b)) => same(a.as_str(), b.as_str()),
            (Token::Real(a), Token::Real(b)) => same(a.as_str(), b.as_str()),
            (Token::Str(a), Token::Str(b)) => same(a.as_str(), b.as_str()),
            (Token::Operator(a), Token::Operator(b)) => same(a.as_str(), b.as_str()),
            (Token::SlotN(a), Token::SlotN(b)) => *a == *b,
            (Token::SlotSequenceN(a), Token::SlotSequenceN(b)) => *a == *b,
            (Token::Fixed(a), Token::Fixed(b)) => *a == *b,
            _ => false,
        }
    }
}

impl FixedToken {
    /// Whether the token is a keyword.
    pub open spec fn is_keyword_spec(self) -> bool {
        match self {
            FixedToken::If | FixedToken::Which | FixedToken::Switch | FixedToken::Match
            | FixedToken::For | FixedToken::While | FixedToken::Do | FixedToken::Try
            | FixedToken::Catch | FixedToken::Finally | FixedToken::Throw
            | FixedToken::Function | FixedToken::Class | FixedToken::Extends | FixedToken::With
            | FixedToken::Method | FixedToken::Field | FixedToken::Constructor
            | FixedToken::Module | FixedToken::Import | FixedToken::Export | FixedToken::As
            | FixedToken::RuleKw | FixedToken::Hold | FixedToken::HoldComplete
            | FixedToken::ReleaseHold | FixedToken::Mixin | FixedToken::Else | FixedToken::Def => true,
            _ => false,
        }
    }

    /// Whether the token is a keyword.
    pub fn is_keyword(self) -> (r: bool)
        ensures
            r == self.is_keyword_spec(),
    {
        match self {
            FixedToken::If | FixedToken::Which | FixedToken::Switch | FixedToken::Match
            | FixedToken::For | FixedToken::While | FixedToken::Do | FixedToken::Try
            | FixedToken::Catch | FixedToken::Finally | FixedToken::Throw
            | FixedToken::Function | FixedToken::Class | FixedToken::Extends | FixedToken::With
            | FixedToken::Method | FixedToken::Field | FixedToken::Constructor
            | FixedToken::Module | FixedToken::Import | FixedToken::Export | FixedToken::As
            | FixedToken::RuleKw | FixedToken::Hold | FixedToken::HoldComplete
            | FixedToken::ReleaseHold | FixedToken::Mixin | FixedToken::Else | FixedToken::Def => true,
            _ => false,
        }
    }

    /// The number of characters that the token takes on the screen.
    pub open spec fn display_length_spec(self) -> nat {
        match self {
            FixedToken::LBrace | FixedToken::RBrace | FixedToken::LBracket
            | FixedToken::RBracket | FixedToken::LParen | FixedToken::RParen | FixedToken::Plus
            | FixedToken::Minus | FixedToken::Star | FixedToken::Slash | FixedToken::Caret
            | FixedToken::Dot | FixedToken::Comma | FixedToken::Semicolon | FixedToken::Colon
            | FixedToken::Less | FixedToken::Greater | FixedToken::Not | FixedToken::Pipe
            | FixedToken::PipeAlt | FixedToken::QuestionMark | FixedToken::Quote
            | FixedToken::Tilde | FixedToken::FuncRef | FixedToken::At | FixedToken::Unset
            | FixedToken::Slot | FixedToken::Assign => 1,
            FixedToken::LAssoc | FixedToken::RAssoc | FixedToken::LDoubleBracket
            | FixedToken::RDoubleBracket | FixedToken::Rule | FixedToken::Equal | FixedToken::Unequal | FixedToken::FatArrow
            | FixedToken::DelayedAssign | FixedToken::GreaterEqual | FixedToken::LessEqual
            | FixedToken::DelayedRule | FixedToken::ReplaceAll | FixedToken::And
            | FixedToken::Or | FixedToken::StarStar | FixedToken::Increment
            | FixedToken::Decrement | FixedToken::MapOp | FixedToken::ApplyOp
            | FixedToken::AtTransform | FixedToken::StringJoinOp | FixedToken::PlusAssign
            | FixedToken::MinusAssign | FixedToken::StarAssign | FixedToken::SlashAssign
            | FixedToken::CaretAssign | FixedToken::SlotSequence | FixedToken::ColonColon
            | FixedToken::ColonSlashSemicolon => 2,
            FixedToken::ReplaceRepeated => 3,
            FixedToken::If | FixedToken::As | FixedToken::Do => 2,
            FixedToken::For | FixedToken::Try | FixedToken::Def => 3,
            FixedToken::Else | FixedToken::With | FixedToken::RuleKw | FixedToken::Hold => 4,
            FixedToken::Match | FixedToken::Throw | FixedToken::While | FixedToken::Which
            | FixedToken::Field | FixedToken::Catch | FixedToken::Mixin | FixedToken::Class => 5,
            FixedToken::Switch | FixedToken::Import | FixedToken::Export | FixedToken::Method
            | FixedToken::Module => 6,
            FixedToken::Extends | FixedToken::Finally => 7,
            FixedToken::Function => 8,
            FixedToken::Constructor | FixedToken::ReleaseHold => 11,
            FixedToken::HoldComplete => 12,
            FixedToken::True | FixedToken::Null => 4,
            FixedToken::False => 5,
            FixedToken::Newline | FixedToken::Eof => 0,
        }
    }

    /// The number of characters that the token takes on the screen.
    pub fn display_length(self) -> (r: usize)
        ensures
            r == self.display_length_spec(),
    {
        match self {
            FixedToken::LBrace | FixedToken::RBrace | FixedToken::LBracket
            | FixedToken::RBracket | FixedToken::LParen | FixedToken::RParen | FixedToken::Plus
            | FixedToken::Minus | FixedToken::Star | FixedToken::Slash | FixedToken::Caret
            | FixedToken::Dot | FixedToken::Comma | FixedToken::Semicolon | FixedToken::Colon
            | FixedToken::Less | FixedToken::Greater | FixedToken::Not | FixedToken::Pipe
            | FixedToken::PipeAlt | FixedToken::QuestionMark | FixedToken::Quote
            | FixedToken::Tilde | FixedToken::FuncRef | FixedToken::At | FixedToken::Unset
            | FixedToken::Slot | FixedToken::Assign => 1,
            FixedToken::LAssoc | FixedToken::RAssoc | FixedToken::LDoubleBracket
            | FixedToken::RDoubleBracket | FixedToken::Rule | FixedToken::Equal | FixedToken::Unequal | FixedToken::FatArrow
            | FixedToken::DelayedAssign | FixedToken::GreaterEqual | FixedToken::LessEqual
            | FixedToken::DelayedRule | FixedToken::ReplaceAll | FixedToken::And
            | FixedToken::Or | FixedToken::StarStar | FixedToken::Increment
            | FixedToken::Decrement | FixedToken::MapOp | FixedToken::ApplyOp
            | FixedToken::AtTransform | FixedToken::StringJoinOp | FixedToken::PlusAssign
            | FixedToken::MinusAssign | FixedToken::StarAssign | FixedToken::SlashAssign
            | FixedToken::CaretAssign | FixedToken::SlotSequence | FixedToken::ColonColon
            | FixedToken::ColonSlashSemicolon => 2,
            FixedToken::ReplaceRepeated => 3,
            FixedToken::If | FixedToken::As | FixedToken::Do => 2,
            FixedToken::For | FixedToken::Try | FixedToken::Def => 3,
            FixedToken::Else | FixedToken::With | FixedToken::RuleKw | FixedToken::Hold => 4,
            FixedToken::Match | FixedToken::Throw | FixedToken::While | FixedToken::Which
            | FixedToken::Field | FixedToken::Catch | FixedToken::Mixin | FixedToken::Class => 5,
            FixedToken::Switch | FixedToken::Import | FixedToken::Export | FixedToken::Method
            | FixedToken::Module => 6,
            FixedToken::Extends | FixedToken::Finally => 7,
            FixedToken::Function => 8,
            FixedToken::Constructor | FixedToken::ReleaseHold => 11,
            FixedToken::HoldComplete => 12,
            FixedToken::True | FixedToken::Null => 4,
            FixedToken::False => 5,
            FixedToken::Newline | FixedToken::Eof => 0,
        }
    }
}

/// The number of decimal digits of `n`.
pub open spec fn digits(n: nat) -> nat
    decreases n,
{
    if n < 10 {
        1
    } else {
        1 + digits(n / 10)
    }
}

/// The number of characters that a token takes on the screen: those of its
/// text, or of `#` or `##` and a number.
pub open spec fn display_length(token: TokenView) -> nat {
    match token {
        TokenView::Ident(s) => s.len(),
        TokenView::Integer(s) => s.len(),
        TokenView::Real(s) => s.len(),
        TokenView::Str(s) => s.len(),
        TokenView::Operator(s) => s.len(),
        TokenView::SlotN(n) => 1 + digits(n as nat),
        TokenView::SlotSequenceN(n) => 2 + digits(n as nat),
        TokenView::Fixed(t) => t.display_length_spec(),
    }
}

spec fn power_of_ten(k: nat) -> nat
    decreases k,
{
    if k == 0 {
        1
    } else {
        10 * power_of_ten((k - 1) as nat)
    }
}

/// A number below a power of ten has no more digits than the power has zeros.
proof fn lemma_digits_bound(n: nat, k: nat)
    requires
        k >= 1,
        n < power_of_ten(k),
    ensures
        1 <= digits(n) <= k,
    decreases k,
{
    if n >= 10 {
        if k == 1 {
            assert(power_of_ten(0) == 1);
        } else {
            lemma_digits_bound(n / 10, (k - 1) as nat);
        }
    }
}

fn digit_count(n: u64) -> (r: usize)
    ensures
        r == digits(n as nat),
        1 <= r <= 20,
{
    let mut left: u64 = n;
    let mut count: usize = 1;
    proof {
        reveal_with_fuel(power_of_ten, 21);
        lemma_digits_bound(n as nat, 20);
    }
    while left >= 10
        invariant
            digits(n as nat) == count - 1 + digits(left as nat),
            1 <= digits(n as nat) <= 20,
            1 <= count,
            count <= 20,
        decreases left,
    {
        assert(digits(left as nat / 10) >= 1);
        left = left / 10;
        count += 1;
    }
    count
}

/// The number of characters that a token takes on the screen.
pub fn token_display_length(token: &Token) -> (r: usize)
    ensures
        r == display_length(token.deep_view()),
{
    match token {
        Token::Ident(s) => s.as_str().unicode_len(),
        Token::Integer(s) => s.as_str().unicode_len(),
        Token::Real(s) => s.as_str().unicode_len(),
        Token::Str(s) => s.as_str().unicode_len(),
        Token::Operator(s) => s.as_str().unicode_len(),
        Token::SlotN(n) => 1 + digit_count(*n),
        Token::SlotSequenceN(n) => 2 + digit_count(*n),
        Token::Fixed(t) => t.display_length(),
    }
}

/// The place of the first token that is `target`.
pub open spec fn first_span(tokens: Seq<SpannedTokenView>, target: TokenView) -> Option<Span>
    decreases tokens.len(),
{
    if tokens.len() == 0 {
        None
    } else if tokens[0].token == target {
        Some(tokens[0].span)
    } else {
        first_span(tokens.drop_first(), target)
    }
}

/// The place of the first token that is `target`.
pub fn find_token_span(tokens: &Vec<SpannedToken>, target: &Token) -> (r: Option<Span>)
    ensures
        r == first_span(tokens.deep_view(), target.deep_view()),
{
    let ghost all = tokens.deep_view();
    let mut i: usize = 0;
    assert(all.skip(0) =~= all);
    while i < tokens.len()
        invariant
            i <= tokens@.len(),
            all == tokens.deep_view(),
            first_span(all, target.deep_view()) == first_span(
                all.skip(i as int),
                target.deep_view(),
            ),
        decreases tokens@.len() - i,
    {
        assert(all.skip(i as int)[0] == tokens@[i as int].deep_view());
        assert(all.skip(i as int).drop_first() =~= all.skip(i + 1));
        if tokens[i].token.is_same(target) {
            return Some(tokens[i].span);
        }
        i += 1;
    }
    None
}

// ---------------------------------------------------------------------
// Editor coordinates
// ---------------------------------------------------------------------

/// A coordinate counted from one, counted from zero instead. Zero, which
/// stands for no coordinate, stays zero.
pub open spec fn zero_based(n: usize) -> int {
    if n >= 1 {
        n - 1
    } else {
        0
    }
}

/// The position of a span.
pub open spec fn span_position(span: Span) -> Position {
    Position { line: zero_based(span.line) as u32, character: zero_based(span.col) as u32 }
}

/// The range of `length` characters that starts at a span.
pub open spec fn span_range(span: Span, length: nat) -> Range {
    Range {
        start: span_position(span),
        end: Position {
            line: zero_based(span.line) as u32,
            character: (zero_based(span.col) + length) as u32,
        },
    }
}

/// The position of a span.
pub fn syma_span_to_lsp_position(span: &Span) -> (r: Position)
    ensures
        r == span_position(*span),
{
    let line: usize = if span.line >= 1 {
        span.line - 1
    } else {
        0
    };
    let character: usize = if span.col >= 1 {
        span.col - 1
    } else {
        0
    };
    Position { line: line as u32, character: character as u32 }
}

/// The range of the single character at a span.
pub fn syma_span_to_lsp_range(span: &Span) -> (r: Range)
    ensures
        r == span_range(*span, 1),
{
    span_to_range_with_length(span, 1)
}

/// The range of a token of `length` characters at a span.
pub fn span_to_range_with_length(span: &Span, length: usize) -> (r: Range)
    ensures
        r == span_range(*span, length as nat),
{
    let start: Position = syma_span_to_lsp_position(span);
    let character: u128 = if span.col >= 1 {
        (span.col - 1) as u128
    } else {
        0
    };
    let end: u128 = character + length as u128;
    Range { start, end: Position { line: start.line, character: end as u32 } }
}

// ---------------------------------------------------------------------
// Diagnostics
// ---------------------------------------------------------------------

/// Why a text cannot be split into tokens.
#[derive(Debug)]
pub struct LexError {
    pub message: String,
    pub line: usize,
    pub col: usize,
}

/// Why tokens do not form a program.
#[derive(Debug)]
pub struct ParseError {
    pub message: String,
    pub span: Option<Span>,
}

/// The diagnostic of an error.
pub open spec fn error_diagnostic(range: Range, message: Seq<char>) -> DiagnosticView {
    DiagnosticView { range, severity: DiagnosticSeverity::Error, message, source: "syma"@ }
}

/// The diagnostic of a lexer error: the single character at which it arose.
pub open spec fn lex_diagnostic(e: LexError) -> DiagnosticView {
    error_diagnostic(span_range(Span { line: e.line, col: e.col }, 1), e.message@)
}

/// The diagnostic of a parser error: the single character at which it arose,
/// or the start of the document if its place is not known.
pub open spec fn parse_diagnostic(e: ParseError) -> DiagnosticView {
    error_diagnostic(
        match e.span {
            Some(span) => span_range(span, 1),
            None => Range::zero_spec(),
        },
        e.message@,
    )
}

fn error_at(range: Range, message: &str) -> (r: Diagnostic)
    ensures
        r.deep_view() == error_diagnostic(range, message@),
{
    Diagnostic {
        range,
        severity: DiagnosticSeverity::Error,
        message: copied(message),
        source: copied("syma"),
    }
}

/// The diagnostic of a lexer error.
pub fn diagnose_lex_error(e: &LexError) -> (r: Diagnostic)
    ensures
        r.deep_view() == lex_diagnostic(*e),
{
    let span = Span { line: e.line, col: e.col };
    error_at(syma_span_to_lsp_range(&span), e.message.as_str())
}

/// The diagnostic of a parser error.
pub fn diagnose_parse_error(e: &ParseError) -> (r: Diagnostic)
    ensures
        r.deep_view() == parse_diagnostic(*e),
{
    let range: Range = match &e.span {
        Some(span) => syma_span_to_lsp_range(span),
        None => Range::zero(),
    };
    error_at(range, e.message.as_str())
}

} // verus!
