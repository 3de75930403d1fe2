//! Signature help: the call around the cursor and the parameters that its
//! help text names.

use crate::cursor::{cursor_index, lemma_cursor_index, position_to_byte_offset};
use crate::folding::count_char;
use crate::protocol::{Position, SignatureHelp, SignatureHelpView};
use crate::strings::{chars_of, concat2, concat3, copied, same, string_of};
use crate::text::{
    index_at_byte, lemma_index_of_byte, lemma_run, run, run_back, run_back_in, run_in, CharClass,
};
use vstd::prelude::*;

verus! {

/// A text without the white space at its end.
pub open spec fn trimmed_end(s: Seq<char>) -> Seq<char> {
    s.take(s.len() - run_back(s, CharClass::Space))
}

/// A text without the white space at its start and its end.
pub open spec fn trimmed(s: Seq<char>) -> Seq<char> {
    trimmed_end(s.skip(run(s, CharClass::Space) as int))
}

/// The letters, digits and `_` at the end of a text.
pub open spec fn last_name(s: Seq<char>) -> Seq<char> {
    s.skip(s.len() - run_back(s, CharClass::Name))
}

/// A call whose arguments are being written: the name of what is called, and
/// the number of commas that follow its bracket.
pub struct CallView {
    pub head: Seq<char>,
    pub commas: nat,
}

/// The call around the cursor, where `before` is the text before the cursor:
/// that of the last `[`, if a name stands before it.
pub open spec fn call_before(before: Seq<char>) -> Option<CallView> {
    let inside = run_back(before, CharClass::Not('['));
    if inside >= before.len() {
        None
    } else {
        let bracket = before.len() - inside - 1;
        let head = last_name(trimmed_end(before.take(bracket)));
        if head.len() == 0 {
            None
        } else {
            Some(CallView { head, commas: count_char(before.skip(bracket + 1), ',') })
        }
    }
}

/// The call around a position of a text.
pub open spec fn call_at(text: Seq<char>, pos: Position) -> Option<CallView> {
    match cursor_index(text, pos) {
        Some(k) => call_before(text.take(k as int)),
        None => None,
    }
}

/// A call whose arguments are being written.
#[derive(Debug)]
pub struct Call {
    /// The name of what is called.
    pub head: String,
    /// The number of commas before the cursor.
    pub commas: usize,
}

impl DeepView for Call {
    type V = CallView;

    open spec fn deep_view(&self) -> CallView {
        CallView { head: self.head@, commas: self.commas as nat }
    }
}

/// The pieces between the commas of a text, each trimmed.
pub open spec fn comma_pieces(s: Seq<char>) -> Seq<Seq<char>>
    decreases s.len(),
    via comma_pieces_decreases
{
    let n = run(s, CharClass::Not(',')) as int;
    if n >= s.len() {
        seq![trimmed(s)]
    } else {
        seq![trimmed(s.take(n))] + comma_pieces(s.skip(n + 1))
    }
}

#[via_fn]
proof fn comma_pieces_decreases(s: Seq<char>) {
    lemma_run(s, CharClass::Not(','));
}

/// The parameters that a help text names: the pieces between its first `[`
/// and the next `]`, unless nothing or only `...` stands there.
pub open spec fn help_parameters(help: Seq<char>) -> Option<Seq<Seq<char>>> {
    let start = run(help, CharClass::Not('[')) as int;
    if start >= help.len() {
        None
    } else {
        let n = run(help.skip(start), CharClass::Not(']')) as int;
        if start + n >= help.len() {
            None
        } else {
            let params = help.subrange(start + 1, start + n);
            if params.len() == 0 || params == "..."@ {
                None
            } else {
                Some(comma_pieces(params))
            }
        }
    }
}

/// The label of a call: that of a definition with a signature, or else a
/// general one. Help texts take precedence over signatures.
pub open spec fn call_label(
    head: Seq<char>,
    help: Option<Seq<char>>,
    signature: Option<Seq<char>>,
) -> Seq<char> {
    match (help, signature) {
        (None, Some(sig)) => head + "["@ + sig + "]"@,
        _ => head + "[...]"@,
    }
}

/// The signature help for a call, where `help` is the help text of its head
/// and `signature` the signature of the head's definition.
pub open spec fn signature_help(
    call: CallView,
    help: Option<Seq<char>>,
    signature: Option<Seq<char>>,
) -> SignatureHelpView {
    SignatureHelpView {
        label: call_label(call.head, help, signature),
        documentation: help,
        parameters: match help {
            Some(text) => help_parameters(text),
            None => None,
        },
        active_signature: 0,
        active_parameter: call.commas as u32,
    }
}

// ---------------------------------------------------------------------
// Computing them
// ---------------------------------------------------------------------

/// The end of the characters from `from` to `to` without white space at the
/// end.
fn trim_end_in(chars: &Vec<char>, from: usize, to: usize) -> (r: usize)
    requires
        from <= to <= chars@.len(),
    ensures
        from <= r <= to,
        trimmed_end(chars@.subrange(from as int, to as int)) == chars@.subrange(
            from as int,
            r as int,
        ),
{
    let n: usize = run_back_in(chars, from, to, CharClass::Space);
    assert(chars@.subrange(from as int, to as int).take(to - from - n) =~= chars@.subrange(
        from as int,
        to - n,
    ));
    to - n
}

fn trim_in(chars: &Vec<char>, from: usize, to: usize) -> (r: String)
    requires
        from <= to <= chars@.len(),
    ensures
        r@ == trimmed(chars@.subrange(from as int, to as int)),
{
    let n: usize = run_in(chars, from, to, CharClass::Space);
    assert(chars@.subrange(from as int, to as int).skip(n as int) =~= chars@.subrange(
        from + n,
        to as int,
    ));
    let end: usize = trim_end_in(chars, from + n, to);
    string_of(chars, from + n, end)
}

fn count_commas(chars: &Vec<char>, from: usize, to: usize) -> (r: usize)
    requires
        from <= to <= chars@.len(),
    ensures
        r == count_char(chars@.subrange(from as int, to as int), ','),
{
    let mut count: usize = 0;
    let mut i: usize = from;
    assert(chars@.subrange(from as int, from as int) =~= Seq::<char>::empty());
    while i < to
        invariant
            from <= i <= to <= chars@.len(),
            count <= i - from,
            count == count_char(chars@.subrange(from as int, i as int), ','),
        decreases to - i,
    {
        assert(chars@.subrange(from as int, i + 1).drop_last() =~= chars@.subrange(
            from as int,
            i as int,
        ));
        if chars[i] == ',' {
            count += 1;
        }
        i += 1;
    }
    count
}

/// The call around a position of a text.
pub fn call_at_position(text: &str, pos: Position) -> (r: Option<Call>)
    ensures
        r.deep_view() == call_at(text@, pos),
{
    let offset: usize = match position_to_byte_offset(text, pos) {
        Some(offset) => offset,
        None => {
            return None;
        },
    };
    let chars: Vec<char> = chars_of(text);
    let ghost k = cursor_index(text@, pos)->Some_0;
    proof {
        lemma_cursor_index(text@, pos);
        lemma_index_of_byte(text@, offset as nat, k);
        assert(chars@.subrange(0, chars@.len() as int) =~= text@);
    }
    let cut: usize = match index_at_byte(&chars, 0, chars.len(), offset) {
        Some(cut) => cut,
        None => {
            return None;
        },
    };
    let ghost before = text@.take(cut as int);
    assert(before =~= chars@.subrange(0, cut as int));
    let inside: usize = run_back_in(&chars, 0, cut, CharClass::Not('['));
    if inside >= cut {
        return None;
    }
    let bracket: usize = cut - inside - 1;
    assert(before.take(bracket as int) =~= chars@.subrange(0, bracket as int));
    let end: usize = trim_end_in(&chars, 0, bracket);
    let n: usize = run_back_in(&chars, 0, end, CharClass::Name);
    assert(chars@.subrange(0, end as int).skip(end - n) =~= chars@.subrange(end - n, end as int));
    if n == 0 {
        return None;
    }
    assert(before.skip(bracket + 1) =~= chars@.subrange(bracket + 1, cut as int));
    let commas: usize = count_commas(&chars, bracket + 1, cut);
    Some(Call { head: string_of(&chars, end - n, end), commas })
}

fn split_commas(chars: &Vec<char>, from: usize, to: usize) -> (r: Vec<String>)
    requires
        from <= to <= chars@.len(),
    ensures
        r.deep_view() == comma_pieces(chars@.subrange(from as int, to as int)),
{
    let ghost s = chars@.subrange(from as int, to as int);
    let mut out: Vec<String> = Vec::new();
    let mut start: usize = from;
    assert(out.deep_view() + comma_pieces(s) =~= comma_pieces(s));
    loop
        invariant
            from <= start <= to <= chars@.len(),
            s == chars@.subrange(from as int, to as int),
            comma_pieces(s) == out.deep_view() + comma_pieces(
                chars@.subrange(start as int, to as int),
            ),
        decreases to - start,
    {
        let ghost rest = chars@.subrange(start as int, to as int);
        let ghost done = out.deep_view();
        let n: usize = run_in(chars, start, to, CharClass::Not(','));
        let end: usize = start + n;
        if end >= to {
            let piece: String = trim_in(chars, start, to);
            out.push(piece);
            assert(out.deep_view() =~= done + seq![trimmed(rest)]);
            return out;
        }
        assert(rest.take(n as int) =~= chars@.subrange(start as int, end as int));
        assert(rest.skip(n + 1) =~= chars@.subrange(end + 1, to as int));
        let piece: String = trim_in(chars, start, end);
        out.push(piece);
        assert(out.deep_view() =~= done + seq![trimmed(rest.take(n as int))]);
        assert(done + (seq![trimmed(rest.take(n as int))] + comma_pieces(rest.skip(n + 1)))
            =~= out.deep_view() + comma_pieces(rest.skip(n + 1)));
        start = end + 1;
    }
}

/// The parameters that a help text names.
pub fn parameters_of_help(help: &str) -> (r: Option<Vec<String>>)
    ensures
        r.deep_view() == help_parameters(help@),
{
    let chars: Vec<char> = chars_of(help);
    let len: usize = chars.len();
    assert(chars@.subrange(0, len as int) =~= help@);
    let start: usize = run_in(&chars, 0, len, CharClass::Not('['));
    if start >= len {
        return None;
    }
    assert(help@.skip(start as int) =~= chars@.subrange(start as int, len as int));
    let n: usize = run_in(&chars, start, len, CharClass::Not(']'));
    if start + n >= len {
        return None;
    }
    proof {
        lemma_run(help@, CharClass::Not('['));
        assert(help@.skip(start as int)[0] == '[');
        lemma_run(help@.skip(start as int), CharClass::Not(']'));
        assert(n >= 1);
    }
    let params: String = string_of(&chars, start + 1, start + n);
    if n == 1 || same(params.as_str(), "...") {
        return None;
    }
    Some(split_commas(&chars, start + 1, start + n))
}

/// The signature help for a call.
pub fn describe_call(call: &Call, help: &Option<String>, signature: &Option<String>) -> (r:
    SignatureHelp)
    ensures
        r.deep_view() == signature_help(
            call.deep_view(),
            help.deep_view(),
            signature.deep_view(),
        ),
{
    let label: String = match (help, signature) {
        (None, Some(sig)) => {
            let mut out: String = concat3(call.head.as_str(), "[", sig.as_str());
            out.append("]");
            out
        },
        _ => concat2(call.head.as_str(), "[...]"),
    };
    let (documentation, parameters): (Option<String>, Option<Vec<String>>) = match help {
        Some(text) => (Some(copied(text.as_str())), parameters_of_help(text.as_str())),
        None => (None, None),
    };
    SignatureHelp {
        label,
        documentation,
        parameters,
        active_signature: 0,
        active_parameter: call.commas as u32,
    }
}

} // verus!
