//! Which call is being written, and what is shown of it.

use crate::backend::BackendView;
use crate::cursor::cursor_index;
use crate::folding::count_char;
use crate::laws::characters::{
    in_name, is_blank, law_characters_of_other_classes, law_characters_of_words,
};
use crate::laws::cursors::{is_column_of, lemma_column};
use crate::protocol::Position;
use crate::signature::{
    call_at, call_before, comma_pieces, help_parameters, last_name, signature_help, trimmed,
    trimmed_end, CallView,
};
use crate::text::{
    index_of_byte, lemma_run, lemma_run_back_is, lemma_run_is, line_start, lines, run, CharClass,
};
use vstd::prelude::*;

verus! {

// ---------------------------------------------------------------------
// Calls
// ---------------------------------------------------------------------

/// Whether all characters of a text from `a` to before `b` are blanks.
pub open spec fn is_all_blank(s: Seq<char>, a: int, b: int) -> bool {
    forall|j: int| a <= j < b ==> is_blank(#[trigger] s[j])
}

proof fn lemma_trimmed_end(s: Seq<char>, e: int)
    requires
        0 <= e <= s.len(),
        is_all_blank(s, e, s.len() as int),
        e > 0 ==> !is_blank(s[e - 1]),
    ensures
        trimmed_end(s) == s.take(e),
{
    assert forall|j: int| e <= j < s.len() implies CharClass::Space.has_char(#[trigger] s[j]) by {
        law_characters_of_other_classes(s[j], 'x');
    }
    if e > 0 {
        law_characters_of_other_classes(s[e - 1], 'x');
    }
    lemma_run_back_is(s, CharClass::Space, (s.len() - e) as nat);
}

/// The call around a cursor is that of the last `[` before it. Its head is the
/// longest run of letters, digits and `_` that stands before this bracket, or
/// before the blanks in front of it, and all commas behind the bracket count.
/// Without such a run there is no call.
pub proof fn law_calls_belong_to_the_last_bracket(before: Seq<char>, h: int, e: int, bracket: int)
    requires
        0 <= h <= e <= bracket < before.len(),
        before[bracket] == '[',
        forall|j: int| bracket < j < before.len() ==> #[trigger] before[j] != '[',
        is_all_blank(before, e, bracket),
        e > 0 ==> !is_blank(before[e - 1]),
        forall|j: int| h <= j < e ==> in_name(#[trigger] before[j]),
        h > 0 ==> !in_name(before[h - 1]),
    ensures
        call_before(before) == (if h < e {
            Some(
                CallView {
                    head: before.subrange(h, e),
                    commas: before.skip(bracket + 1).filter(|c: char| c == ',').len(),
                },
            )
        } else {
            None
        }),
{
    lemma_run_back_is(before, CharClass::Not('['), (before.len() - bracket - 1) as nat);
    let lead = before.take(bracket);
    assert forall|j: int| e <= j < lead.len() implies is_blank(#[trigger] lead[j]) by {
        assert(lead[j] == before[j]);
    }
    lemma_trimmed_end(lead, e);
    let name = lead.take(e);
    assert(name =~= before.take(e));
    assert forall|j: int| h <= j < e implies CharClass::Name.has_char(#[trigger] name[j]) by {
        assert(name[j] == before[j]);
        law_characters_of_words(before[j]);
    }
    if h > 0 {
        law_characters_of_words(before[h - 1]);
    }
    lemma_run_back_is(name, CharClass::Name, (e - h) as nat);
    assert(last_name(name) =~= before.subrange(h, e));
    lemma_commas(before.skip(bracket + 1));
}

proof fn lemma_commas(s: Seq<char>)
    ensures
        count_char(s, ',') == s.filter(|c: char| c == ',').len(),
    decreases s.len(),
{
    reveal(Seq::filter);
    if s.len() > 0 {
        lemma_commas(s.drop_last());
    }
}

/// Without a bracket before the cursor there is no call.
pub proof fn law_no_call_without_a_bracket(before: Seq<char>)
    requires
        forall|j: int| 0 <= j < before.len() ==> #[trigger] before[j] != '[',
    ensures
        call_before(before) is None,
{
    lemma_run_back_is(before, CharClass::Not('['), before.len());
}

/// The call at a position is the one before character `k` of its line, where the
/// position's column counts the bytes before that character. A column that the
/// line does not have stands for its last character, and without the line there
/// is no call.
pub proof fn law_calls_end_at_the_cursor(text: Seq<char>, pos: Position, k: int)
    ensures
        pos.line >= lines(text).len() ==> call_at(text, pos) is None,
        pos.line < lines(text).len() && is_column_of(lines(text)[pos.line as int], pos.character, k)
            ==> call_at(text, pos) == call_before(
            text.take(line_start(text, pos.line as nat) + k),
        ),
        pos.line < lines(text).len() && (forall|j: int|
            !is_column_of(lines(text)[pos.line as int], pos.character, j)) ==> call_at(text, pos)
            == call_before(
            text.take(
                line_start(text, pos.line as nat) + (if lines(text)[pos.line as int].len() > 0 {
                    lines(text)[pos.line as int].len() - 1
                } else {
                    0int
                }),
            ),
        ),
{
    if pos.line < lines(text).len() {
        let line = lines(text)[pos.line as int];
        lemma_column(line, pos.character, k);
        if let Some(j) = index_of_byte(line, pos.character as nat) {
            lemma_column(line, pos.character, j as int);
        }
        assert(cursor_index(text, pos) is Some);
    }
}

// ---------------------------------------------------------------------
// Parameters
// ---------------------------------------------------------------------

/// A text is trimmed of the blanks at its start and its end, and of no others.
pub proof fn law_trimmed_texts(s: Seq<char>, a: int, b: int)
    requires
        0 <= a <= b <= s.len(),
        is_all_blank(s, 0, a),
        is_all_blank(s, b, s.len() as int),
        a < b ==> !is_blank(s[a]) && !is_blank(s[b - 1]),
    ensures
        trimmed(s) == s.subrange(a, b),
{
    let n = if a < b {
        a
    } else {
        s.len() as int
    };
    assert forall|j: int| 0 <= j < n implies CharClass::Space.has_char(#[trigger] s[j]) by {
        law_characters_of_other_classes(s[j], 'x');
        assert(is_blank(s[j]));
    }
    if n < s.len() {
        law_characters_of_other_classes(s[n], 'x');
    }
    lemma_run_is(s, CharClass::Space, n as nat);
    let rest = s.skip(n);
    if a < b {
        assert forall|j: int| b - a <= j < rest.len() implies is_blank(#[trigger] rest[j]) by {
            assert(rest[j] == s[a + j]);
        }
        assert(rest[b - a - 1] == s[b - 1]);
        lemma_trimmed_end(rest, b - a);
        assert(rest.take(b - a) =~= s.subrange(a, b));
    } else {
        lemma_trimmed_end(rest, 0);
        assert(rest.take(0) =~= s.subrange(a, b));
    }
}

/// A comma separates the pieces of what stands before it from the pieces of what
/// stands behind it; a text without a comma is one piece, trimmed.
pub proof fn law_commas_separate_pieces(a: Seq<char>, b: Seq<char>)
    ensures
        comma_pieces(a + seq![','] + b) == comma_pieces(a) + comma_pieces(b),
        (forall|j: int| 0 <= j < a.len() ==> #[trigger] a[j] != ',') ==> comma_pieces(a) == seq![
            trimmed(a),
        ],
    decreases a.len(),
{
    let class = CharClass::Not(',');
    let s = a + seq![','] + b;
    let n = run(a, class) as int;
    lemma_run(a, class);
    assert forall|j: int| 0 <= j < n implies class.has_char(#[trigger] s[j]) by {
        assert(s[j] == a[j]);
    }
    assert(s[n] == ',') by {
        if n < a.len() {
            assert(s[n] == a[n]);
        }
    }
    lemma_run_is(s, class, n as nat);
    assert(s.take(n) =~= a.take(n));
    if n < a.len() {
        law_commas_separate_pieces(a.skip(n + 1), b);
        assert(s.skip(n + 1) =~= a.skip(n + 1) + seq![','] + b);
        assert(comma_pieces(s) =~= comma_pieces(a) + comma_pieces(b));
        assert(a[n] == ',');
    } else {
        assert(s.skip(n + 1) =~= b);
        assert(a.take(n) =~= a);
    }
}

/// The parameters that a help text names stand between its first `[` and the
/// first `]` behind that, unless these enclose nothing or three dots.
pub proof fn law_parameters_stand_in_the_first_brackets(help: Seq<char>, i: int, j: int)
    requires
        0 <= i <= j <= help.len(),
        forall|k: int| 0 <= k < i ==> #[trigger] help[k] != '[',
        i < help.len() ==> help[i] == '[',
        forall|k: int| i <= k < j ==> #[trigger] help[k] != ']',
        j < help.len() ==> help[j] == ']',
    ensures
        help_parameters(help) == (if j == help.len() || j == i + 1 || help.subrange(i + 1, j)
            == seq!['.', '.', '.'] {
            None
        } else {
            Some(comma_pieces(help.subrange(i + 1, j)))
        }),
{
    reveal_strlit("...");
    assert("..."@ =~= seq!['.', '.', '.']);
    lemma_run_is(help, CharClass::Not('['), i as nat);
    if i < help.len() {
        let rest = help.skip(i);
        assert forall|k: int| 0 <= k < j - i implies CharClass::Not(']').has_char(
            #[trigger] rest[k],
        ) by {
            assert(rest[k] == help[i + k]);
        }
        if j < help.len() {
            assert(rest[j - i] == help[j]);
        }
        lemma_run_is(rest, CharClass::Not(']'), (j - i) as nat);
        assert(i != j || j == help.len());
    }
}

// ---------------------------------------------------------------------
// Signature help
// ---------------------------------------------------------------------

/// The help for a call shows its head with the signature in brackets, where
/// there is a signature and no help text, and else with three dots in brackets.
/// It hands on the help text and the parameters that this names, and points at
/// the parameter behind as many others as there are commas.
pub proof fn law_signature_help_shows_the_call(
    call: CallView,
    help: Option<Seq<char>>,
    signature: Option<Seq<char>>,
)
    ensures
        help is None && signature is Some ==> signature_help(call, help, signature).label
            == call.head + seq!['['] + signature->Some_0 + seq![']'],
        help is Some || signature is None ==> signature_help(call, help, signature).label
            == call.head + seq!['[', '.', '.', '.', ']'],
        signature_help(call, help, signature).documentation == help,
        help is None ==> signature_help(call, help, signature).parameters is None,
        help matches Some(text) ==> signature_help(call, help, signature).parameters
            == help_parameters(text),
        signature_help(call, help, signature).active_signature == 0,
        call.commas <= u32::MAX ==> signature_help(call, help, signature).active_parameter
            == call.commas,
{
    reveal_strlit("[");
    reveal_strlit("]");
    reveal_strlit("[...]");
    assert("["@ =~= seq!['[']);
    assert("]"@ =~= seq![']']);
    assert("[...]"@ =~= seq!['[', '.', '.', '.', ']']);
}

/// The signature help of a document is that for the call around the position,
/// with the signature that the definitions give its head; nothing, if there is
/// no call or no such document.
pub proof fn law_signature_help_is_for_the_call_around_the_cursor(
    v: BackendView,
    uri: Seq<char>,
    pos: Position,
    help: Option<Seq<char>>,
)
    ensures
        v.text_of(uri) is None ==> v.call_at(uri, pos) is None,
        v.text_of(uri) matches Some(text) ==> v.call_at(uri, pos) == call_at(text, pos),
        v.call_at(uri, pos) is None ==> v.signature_help(uri, pos, help) is None,
        v.call_at(uri, pos) matches Some(call) ==> v.signature_help(uri, pos, help) == Some(
            signature_help(call, help, v.signature(call.head)),
        ),
{
}

} // verus!
