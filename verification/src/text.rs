//! Source text as a sequence of characters: runs of characters, lines, and
//! the byte columns in which cursor positions arrive.

use crate::strings::{all_ascii, is_ascii, is_letter_or_digit, is_space, letter_or_digit, space};
use vstd::prelude::*;
use vstd::utf8::encode_utf8;

verus! {

/// A set of characters.
#[derive(Clone, Copy, PartialEq, Eq, Structural)]
pub enum CharClass {
    /// Letters, digits and `_`.
    Name,
    /// Letters, digits, `_` and `$`.
    Word,
    /// White space.
    Space,
    /// Every character but this one.
    Not(char),
}

impl CharClass {
    /// Whether `c` is in the class.
    pub open spec fn has_char(self, c: char) -> bool {
        match self {
            CharClass::Name => is_letter_or_digit(c) || c == '_',
            CharClass::Word => is_letter_or_digit(c) || c == '_' || c == '$',
            CharClass::Space => is_space(c),
            CharClass::Not(other) => c != other,
        }
    }

    /// Tests membership of one character.
    pub fn admits(self, c: char) -> (r: bool)
        ensures
            r == self.has_char(c),
    {
        match self {
            CharClass::Name => letter_or_digit(c) || c == '_',
            CharClass::Word => letter_or_digit(c) || c == '_' || c == '$',
            CharClass::Space => space(c),
            CharClass::Not(other) => c != other,
        }
    }
}

/// The length of the longest prefix whose characters are all in `class`.
pub open spec fn run(s: Seq<char>, class: CharClass) -> nat
    decreases s.len(),
{
    if s.len() == 0 || !class.has_char(s[0]) {
        0
    } else {
        1 + run(s.drop_first(), class)
    }
}

/// The length of the longest suffix whose characters are all in `class`.
pub open spec fn run_back(s: Seq<char>, class: CharClass) -> nat
    decreases s.len(),
{
    if s.len() == 0 || !class.has_char(s.last()) {
        0
    } else {
        1 + run_back(s.drop_last(), class)
    }
}

/// A prefix run lies in the class and is stopped by the end or by a
/// character outside the class.
pub proof fn lemma_run(s: Seq<char>, class: CharClass)
    ensures
        run(s, class) <= s.len(),
        forall|i: int| 0 <= i < run(s, class) ==> class.has_char(#[trigger] s[i]),
        run(s, class) < s.len() ==> !class.has_char(s[run(s, class) as int]),
    decreases s.len(),
{
    if s.len() > 0 && class.has_char(s[0]) {
        let t = s.drop_first();
        lemma_run(t, class);
        assert forall|i: int| 0 <= i < run(s, class) implies class.has_char(#[trigger] s[i]) by {
            if i > 0 {
                assert(s[i] == t[i - 1]);
            }
        }
    }
}

/// A length with the properties of a prefix run is the prefix run.
pub proof fn lemma_run_is(s: Seq<char>, class: CharClass, k: nat)
    requires
        k <= s.len(),
        forall|i: int| 0 <= i < k ==> class.has_char(#[trigger] s[i]),
        k < s.len() ==> !class.has_char(s[k as int]),
    ensures
        run(s, class) == k,
{
    lemma_run(s, class);
    let r = run(s, class);
    if r < k {
        assert(class.has_char(s[r as int]));
    } else if k < r {
        assert(class.has_char(s[k as int]));
    }
}

/// A suffix run lies in the class and is stopped by the start or by a
/// character outside the class.
pub proof fn lemma_run_back(s: Seq<char>, class: CharClass)
    ensures
        run_back(s, class) <= s.len(),
        forall|i: int|
            s.len() - run_back(s, class) <= i < s.len() ==> class.has_char(#[trigger] s[i]),
        run_back(s, class) < s.len() ==> !class.has_char(s[s.len() - run_back(s, class) - 1]),
    decreases s.len(),
{
    if s.len() > 0 && class.has_char(s.last()) {
        let t = s.drop_last();
        lemma_run_back(t, class);
        assert forall|i: int|
            s.len() - run_back(s, class) <= i < s.len() implies class.has_char(#[trigger] s[i]) by {
            if i < t.len() {
                assert(s[i] == t[i]);
            }
        }
    }
}

/// A length with the properties of a suffix run is the suffix run.
pub proof fn lemma_run_back_is(s: Seq<char>, class: CharClass, k: nat)
    requires
        k <= s.len(),
        forall|i: int| s.len() - k <= i < s.len() ==> class.has_char(#[trigger] s[i]),
        k < s.len() ==> !class.has_char(s[s.len() - k - 1]),
    ensures
        run_back(s, class) == k,
{
    lemma_run_back(s, class);
    let r = run_back(s, class);
    if r < k {
        assert(class.has_char(s[s.len() - r - 1]));
    } else if k < r {
        assert(class.has_char(s[s.len() - k - 1]));
    }
}

/// The run of `class` that starts at `from` and ends at `to` at the latest.
pub fn run_in(chars: &Vec<char>, from: usize, to: usize, class: CharClass) -> (r: usize)
    requires
        from <= to <= chars@.len(),
    ensures
        r == run(chars@.subrange(from as int, to as int), class),
        from + r <= to,
{
    let ghost s = chars@.subrange(from as int, to as int);
    let mut i: usize = from;
    while i < to && class.admits(chars[i])
        invariant
            from <= i <= to <= chars@.len(),
            s == chars@.subrange(from as int, to as int),
            forall|k: int| 0 <= k < i - from ==> class.has_char(#[trigger] s[k]),
        decreases to - i,
    {
        assert(s[i - from] == chars@[i as int]);
        i += 1;
    }
    proof {
        if i < to {
            assert(s[i - from] == chars@[i as int]);
        }
        lemma_run_is(s, class, (i - from) as nat);
    }
    i - from
}

/// The run of `class` that ends at `to` and starts at `from` at the earliest.
pub fn run_back_in(chars: &Vec<char>, from: usize, to: usize, class: CharClass) -> (r: usize)
    requires
        from <= to <= chars@.len(),
    ensures
        r == run_back(chars@.subrange(from as int, to as int), class),
        from + r <= to,
{
    let ghost s = chars@.subrange(from as int, to as int);
    let mut i: usize = to;
    while i > from && class.admits(chars[i - 1])
        invariant
            from <= i <= to <= chars@.len(),
            s == chars@.subrange(from as int, to as int),
            forall|k: int| i - from <= k < to - from ==> class.has_char(#[trigger] s[k]),
        decreases i,
    {
        assert(s[i - from - 1] == chars@[i - 1]);
        i -= 1;
    }
    proof {
        if i > from {
            assert(s[i - from - 1] == chars@[i - 1]);
        }
        lemma_run_back_is(s, class, (to - i) as nat);
    }
    to - i
}

// ---------------------------------------------------------------------
// Bytes
// ---------------------------------------------------------------------

/// The number of bytes of a character in UTF-8.
pub open spec fn char_width(c: char) -> nat {
    if (c as u32) < 0x80 {
        1
    } else if (c as u32) < 0x800 {
        2
    } else if (c as u32) < 0x10000 {
        3
    } else {
        4
    }
}

/// The number of bytes of a text in UTF-8.
pub open spec fn byte_len(s: Seq<char>) -> nat
    decreases s.len(),
{
    if s.len() == 0 {
        0
    } else {
        char_width(s[0]) + byte_len(s.drop_first())
    }
}

/// The character index at which exactly `bytes` bytes of `s` lie behind, if
/// that many bytes end at a character boundary.
pub open spec fn index_of_byte(s: Seq<char>, bytes: nat) -> Option<nat>
    decreases s.len(),
{
    if bytes == 0 {
        Some(0)
    } else if s.len() == 0 || bytes < char_width(s[0]) {
        None
    } else {
        match index_of_byte(s.drop_first(), (bytes - char_width(s[0])) as nat) {
            Some(k) => Some(k + 1),
            None => None,
        }
    }
}

/// `byte_len` is the length of the UTF-8 encoding.
pub proof fn lemma_byte_len_utf8(s: Seq<char>)
    ensures
        byte_len(s) == encode_utf8(s).len(),
    decreases s.len(),
{
    if s.len() > 0 {
        vstd::utf8::char_is_scalar(s[0]);
        lemma_byte_len_utf8(s.drop_first());
    }
}

/// The byte lengths of two texts add up.
pub proof fn lemma_byte_len_add(a: Seq<char>, b: Seq<char>)
    ensures
        byte_len(a + b) == byte_len(a) + byte_len(b),
    decreases a.len(),
{
    if a.len() == 0 {
        assert(a + b =~= b);
    } else {
        lemma_byte_len_add(a.drop_first(), b);
        assert((a + b).drop_first() =~= a.drop_first() + b);
    }
}

/// A longer prefix has more bytes, one at least for each character.
pub proof fn lemma_byte_len_prefix(s: Seq<char>, j: int, k: int)
    requires
        0 <= j <= k <= s.len(),
    ensures
        byte_len(s.take(j)) + (k - j) <= byte_len(s.take(k)),
        byte_len(s.take(k)) <= byte_len(s),
    decreases k - j,
{
    lemma_byte_len_add(s.take(k), s.skip(k));
    assert(s.take(k) + s.skip(k) =~= s);
    if j < k {
        lemma_byte_len_prefix(s, j, k - 1);
        assert(s.take(k) =~= s.take(k - 1) + seq![s[k - 1]]);
        lemma_byte_len_add(s.take(k - 1), seq![s[k - 1]]);
        lemma_byte_len_one(s[k - 1]);
    }
}

/// A text of one character has the bytes of that character.
pub proof fn lemma_byte_len_one(c: char)
    ensures
        byte_len(seq![c]) == char_width(c),
{
    assert(seq![c].drop_first() =~= Seq::<char>::empty());
    assert(byte_len(Seq::<char>::empty()) == 0);
}

/// A byte offset is found at index `k` exactly when the first `k` characters
/// have that many bytes.
pub proof fn lemma_index_of_byte(s: Seq<char>, bytes: nat, k: nat)
    ensures
        index_of_byte(s, bytes) == Some(k) <==> k <= s.len() && byte_len(s.take(k as int))
            == bytes,
    decreases s.len(),
{
    if bytes == 0 {
        assert(s.take(0) =~= Seq::<char>::empty());
        if 0 < k <= s.len() {
            lemma_byte_len_prefix(s, 0, k as int);
        }
    } else if s.len() == 0 {
        if k == 0 {
            assert(s.take(0) =~= Seq::<char>::empty());
        }
    } else {
        if k == 0 {
            assert(s.take(0) =~= Seq::<char>::empty());
        } else if k <= s.len() {
            assert(s.take(k as int).drop_first() =~= s.drop_first().take(k - 1));
            assert(s.take(k as int)[0] == s[0]);
        }
        if bytes >= char_width(s[0]) && k > 0 {
            lemma_index_of_byte(
                s.drop_first(),
                (bytes - char_width(s[0])) as nat,
                (k - 1) as nat,
            );
        }
    }
}

/// The UTF-8 width of a character.
pub fn width_of(c: char) -> (r: usize)
    ensures
        r == char_width(c),
        1 <= r <= 4,
{
    let code: u32 = c as u32;
    if code < 0x80 {
        1
    } else if code < 0x800 {
        2
    } else if code < 0x10000 {
        3
    } else {
        4
    }
}

/// The index, counted from `from`, of the character boundary `bytes` bytes
/// after `from`, within the characters up to `to`.
pub fn index_at_byte(chars: &Vec<char>, from: usize, to: usize, bytes: usize) -> (r: Option<usize>)
    requires
        from <= to <= chars@.len(),
    ensures
        match r {
            Some(k) => index_of_byte(chars@.subrange(from as int, to as int), bytes as nat)
                == Some(k as nat) && from + k <= to,
            None => index_of_byte(chars@.subrange(from as int, to as int), bytes as nat) is None,
        },
{
    let ghost s = chars@.subrange(from as int, to as int);
    let mut i: usize = from;
    let mut left: usize = bytes;
    assert(s.skip(0) =~= s);
    while left > 0
        invariant
            from <= i <= to <= chars@.len(),
            s == chars@.subrange(from as int, to as int),
            index_of_byte(s, bytes as nat) == (match index_of_byte(s.skip(i - from), left as nat) {
                Some(k) => Some((k + (i - from)) as nat),
                None => None::<nat>,
            }),
        decreases left,
    {
        let ghost rest = s.skip(i - from);
        if i >= to {
            return None;
        }
        let w: usize = width_of(chars[i]);
        assert(rest[0] == chars@[i as int]);
        assert(rest.drop_first() =~= s.skip(i - from + 1));
        if left < w {
            return None;
        }
        left -= w;
        i += 1;
    }
    Some(i - from)
}

// ---------------------------------------------------------------------
// Lines
// ---------------------------------------------------------------------

/// A line without the carriage return at its end, if it has one.
pub open spec fn without_cr(line: Seq<char>) -> Seq<char> {
    if line.len() > 0 && line.last() == '\r' {
        line.drop_last()
    } else {
        line
    }
}

/// The lines of a text: what stands before, between and after the line feeds,
/// each freed of the carriage return before its line feed. A text that ends
/// in a line feed has no further, empty line behind it.
pub open spec fn lines(text: Seq<char>) -> Seq<Seq<char>>
    decreases text.len(),
    via lines_decreases
{
    if text.len() == 0 {
        Seq::empty()
    } else {
        let end = run(text, CharClass::Not('\n')) as int;
        if end >= text.len() {
            seq![text]
        } else {
            seq![without_cr(text.take(end))] + lines(text.skip(end + 1))
        }
    }
}

#[via_fn]
proof fn lines_decreases(text: Seq<char>) {
    lemma_run(text, CharClass::Not('\n'));
}

/// The character index at which line `n` starts.
pub open spec fn line_start(text: Seq<char>, n: nat) -> nat
    decreases n,
{
    if n == 0 {
        0
    } else {
        let end = run(text, CharClass::Not('\n'));
        end + 1 + line_start(text.skip(end as int + 1), (n - 1) as nat)
    }
}

/// No line holds a line feed.
pub proof fn law_lines_hold_no_line_feed(text: Seq<char>, n: int)
    requires
        0 <= n < lines(text).len(),
    ensures
        !lines(text)[n].contains('\n'),
    decreases text.len(),
{
    lemma_run(text, CharClass::Not('\n'));
    let end = run(text, CharClass::Not('\n')) as int;
    if end < text.len() {
        if n > 0 {
            law_lines_hold_no_line_feed(text.skip(end + 1), n - 1);
            assert(lines(text)[n] == lines(text.skip(end + 1))[n - 1]);
        }
    }
}

/// A line is found in the text at its start.
pub proof fn law_line_stands_in_text(text: Seq<char>, n: nat)
    requires
        n < lines(text).len(),
    ensures
        line_start(text, n) + lines(text)[n as int].len() <= text.len(),
        lines(text)[n as int] == text.subrange(
            line_start(text, n) as int,
            (line_start(text, n) + lines(text)[n as int].len()) as int,
        ),
    decreases text.len(),
{
    lemma_run(text, CharClass::Not('\n'));
    let end = run(text, CharClass::Not('\n')) as int;
    if end < text.len() {
        let rest = text.skip(end + 1);
        if n > 0 {
            let m = (n - 1) as nat;
            law_line_stands_in_text(rest, m);
            assert(lines(text)[n as int] == lines(rest)[m as int]);
            let a = line_start(rest, m) as int;
            let b = a + lines(rest)[m as int].len();
            assert(rest.subrange(a, b) =~= text.subrange(end + 1 + a, end + 1 + b));
        } else {
            assert(lines(text)[0] =~= text.subrange(0, lines(text)[0].len() as int));
        }
    } else {
        assert(text =~= text.subrange(0, text.len() as int));
    }
}

/// A line starts at the start of its text or behind a line feed, and ends at
/// the end of its text or before a carriage return or a line feed.
pub proof fn lemma_line_edges(text: Seq<char>, n: nat)
    requires
        n < lines(text).len(),
    ensures
        ({
            let start = line_start(text, n) as int;
            let end = start + lines(text)[n as int].len();
            &&& start > 0 ==> text[start - 1] == '\n'
            &&& end < text.len() ==> text[end] == '\r' || text[end] == '\n'
        }),
    decreases text.len(),
{
    lemma_run(text, CharClass::Not('\n'));
    let end = run(text, CharClass::Not('\n')) as int;
    if end < text.len() {
        let rest = text.skip(end + 1);
        if n > 0 {
            let m = (n - 1) as nat;
            lemma_line_edges(rest, m);
            law_line_stands_in_text(rest, m);
            assert(lines(text)[n as int] == lines(rest)[m as int]);
            let a = line_start(rest, m) as int;
            let b = a + lines(rest)[m as int].len();
            if a > 0 {
                assert(rest[a - 1] == text[end + a]);
            }
            if b < rest.len() {
                assert(rest[b] == text[end + 1 + b]);
            }
        } else {
            let line = text.take(end);
            if line.len() > 0 && line.last() == '\r' {
                assert(text[end - 1] == '\r');
            }
        }
    }
}

/// A line ends before a later line starts.
pub proof fn lemma_line_starts_apart(text: Seq<char>, a: nat, b: nat)
    requires
        a < b < lines(text).len(),
    ensures
        line_start(text, a) + lines(text)[a as int].len() < line_start(text, b),
    decreases text.len(),
{
    lemma_run(text, CharClass::Not('\n'));
    let end = run(text, CharClass::Not('\n')) as int;
    let rest = text.skip(end + 1);
    if a > 0 {
        lemma_line_starts_apart(rest, (a - 1) as nat, (b - 1) as nat);
        assert(lines(text)[a as int] == lines(rest)[a - 1]);
    }
}

/// In a text of ASCII characters, the columns of a line count characters.
pub proof fn lemma_ascii_columns(text: Seq<char>, n: nat)
    requires
        all_ascii(text),
        n < lines(text).len(),
    ensures
        all_ascii(lines(text)[n as int]),
        byte_len(lines(text)[n as int]) == lines(text)[n as int].len(),
        forall|bytes: nat| #[trigger]
            index_of_byte(lines(text)[n as int], bytes) == (if bytes <= lines(text)[n as int].len() {
                Some(bytes)
            } else {
                None
            }),
{
    let line = lines(text)[n as int];
    law_line_stands_in_text(text, n);
    assert forall|i: int| 0 <= i < line.len() implies is_ascii(#[trigger] line[i]) by {
        assert(line[i] == text[line_start(text, n) + i]);
    }
    assert forall|bytes: nat| #[trigger] index_of_byte(line, bytes) == (if bytes <= line.len() {
        Some(bytes)
    } else {
        None
    }) by {
        lemma_ascii_index(line, bytes);
    }
    lemma_ascii_byte_len(line);
}

proof fn lemma_ascii_byte_len(s: Seq<char>)
    requires
        all_ascii(s),
    ensures
        byte_len(s) == s.len(),
    decreases s.len(),
{
    if s.len() > 0 {
        let t = s.drop_first();
        assert(is_ascii(s[0]));
        assert(forall|i: int| 0 <= i < t.len() ==> #[trigger] t[i] == s[i + 1]);
        lemma_ascii_byte_len(t);
    }
}

proof fn lemma_ascii_index(s: Seq<char>, bytes: nat)
    requires
        all_ascii(s),
    ensures
        index_of_byte(s, bytes) == (if bytes <= s.len() {
            Some(bytes)
        } else {
            None
        }),
    decreases s.len(),
{
    if bytes > 0 && s.len() > 0 {
        let t = s.drop_first();
        assert(is_ascii(s[0]));
        assert(forall|i: int| 0 <= i < t.len() ==> #[trigger] t[i] == s[i + 1]);
        lemma_ascii_index(t, (bytes - 1) as nat);
    }
}

/// The start and the end of line `n`, as character indices.
pub fn line_bounds(chars: &Vec<char>, n: usize) -> (r: Option<(usize, usize)>)
    ensures
        match r {
            Some((start, end)) => {
                &&& n < lines(chars@).len()
                &&& start == line_start(chars@, n as nat)
                &&& start <= end <= chars@.len()
                &&& lines(chars@)[n as int] == chars@.subrange(start as int, end as int)
            },
            None => n >= lines(chars@).len(),
        },
{
    let ghost text = chars@;
    let mut start: usize = 0;
    let mut left: usize = n;
    assert(text.skip(0) =~= text);
    loop
        invariant
            text == chars@,
            left <= n,
            start <= chars@.len(),
            lines(text).len() == n - left + lines(text.skip(start as int)).len(),
            line_start(text, n as nat) == start + line_start(text.skip(start as int), left as nat),
            left < lines(text.skip(start as int)).len() ==> lines(text)[n as int] == lines(
                text.skip(start as int),
            )[left as int],
        decreases left,
    {
        let ghost rest = text.skip(start as int);
        if start == chars.len() {
            return None;
        }
        assert(rest =~= chars@.subrange(start as int, chars@.len() as int));
        let len: usize = run_in(chars, start, chars.len(), CharClass::Not('\n'));
        let end: usize = start + len;
        if end == chars.len() {
            if left > 0 {
                return None;
            }
            return Some((start, end));
        }
        if left == 0 {
            assert(rest.take(len as int) =~= text.subrange(start as int, end as int));
            if len > 0 && chars[end - 1] == '\r' {
                assert(rest.take(len as int).drop_last() =~= text.subrange(start as int, end - 1));
                return Some((start, end - 1));
            }
            return Some((start, end));
        }
        assert(rest.skip(len as int + 1) =~= text.skip(end as int + 1));
        start = end + 1;
        left -= 1;
    }
}

/// The characters from `lo` up to `hi`.
pub fn slice_of(chars: &Vec<char>, lo: usize, hi: usize) -> (r: Vec<char>)
    requires
        lo <= hi <= chars@.len(),
    ensures
        r@ == chars@.subrange(lo as int, hi as int),
{
    let mut out: Vec<char> = Vec::new();
    let mut i: usize = lo;
    while i < hi
        invariant
            lo <= i <= hi <= chars@.len(),
            out@ == chars@.subrange(lo as int, i as int),
        decreases hi - i,
    {
        out.push(chars[i]);
        i += 1;
        assert(chars@.subrange(lo as int, i as int) =~= chars@.subrange(lo as int, i - 1).push(
            chars@[i - 1],
        ));
    }
    out
}

/// The lines of a text.
pub fn split_lines(chars: &Vec<char>) -> (r: Vec<Vec<char>>)
    ensures
        r@.len() == lines(chars@).len(),
        forall|n: int| 0 <= n < r@.len() ==> (#[trigger] r@[n])@ == lines(chars@)[n],
{
    let ghost text = chars@;
    let mut out: Vec<Vec<char>> = Vec::new();
    let mut start: usize = 0;
    assert(text.skip(0) =~= text);
    while start < chars.len()
        invariant
            text == chars@,
            start <= chars@.len(),
            lines(text).len() == out@.len() + lines(text.skip(start as int)).len(),
            forall|n: int| 0 <= n < out@.len() ==> (#[trigger] out@[n])@ == lines(text)[n],
            forall|n: int|
                0 <= n < lines(text.skip(start as int)).len() ==> #[trigger] lines(
                    text.skip(start as int),
                )[n] == lines(text)[out@.len() + n],
        decreases chars@.len() - start,
    {
        let ghost rest = text.skip(start as int);
        assert(rest =~= chars@.subrange(start as int, chars@.len() as int));
        let len: usize = run_in(chars, start, chars.len(), CharClass::Not('\n'));
        let end: usize = start + len;
        if end == chars.len() {
            assert(lines(rest)[0] == rest);
            out.push(slice_of(chars, start, end));
            start = end;
            assert(lines(text.skip(start as int)).len() == 0);
        } else {
            assert(rest.take(len as int) =~= text.subrange(start as int, end as int));
            assert(rest.skip(len as int + 1) =~= text.skip(end as int + 1));
            assert(lines(rest)[0] == without_cr(rest.take(len as int)));
            if len > 0 && chars[end - 1] == '\r' {
                assert(rest.take(len as int).drop_last() =~= text.subrange(start as int, end - 1));
                out.push(slice_of(chars, start, end - 1));
            } else {
                out.push(slice_of(chars, start, end));
            }
            let ghost after = text.skip(end as int + 1);
            assert forall|n: int| 0 <= n < lines(after).len() implies #[trigger] lines(after)[n]
                == lines(text)[out@.len() + n] by {
                assert(lines(rest)[n + 1] == lines(after)[n]);
            }
            start = end + 1;
        }
    }
    out
}

} // verus!
