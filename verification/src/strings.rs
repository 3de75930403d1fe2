//! What the crate takes from the standard library's characters and strings,
//! and the string building that rests on it.

use vstd::prelude::*;

verus! {

/// Whether a character is alphabetic or numeric by the Unicode tables. The
/// crate asks this of characters beyond ASCII only.
pub uninterp spec fn char_is_alphanumeric(c: char) -> bool;

/// Whether a character has the Unicode property `Uppercase`. The crate asks
/// this of characters beyond ASCII only.
pub uninterp spec fn char_is_uppercase(c: char) -> bool;

/// The lowercase equivalent of a whole string. The crate asks this of strings
/// with characters beyond ASCII only.
pub uninterp spec fn unicode_lowercase(s: Seq<char>) -> Seq<char>;

/// `char::is_alphanumeric` of the standard library: a fixed property of the
/// character.
pub assume_specification[ char::is_alphanumeric ](c: char) -> (r: bool)
    ensures
        r == char_is_alphanumeric(c),
;

/// `char::is_uppercase` of the standard library: a fixed property of the
/// character.
pub assume_specification[ char::is_uppercase ](c: char) -> (r: bool)
    ensures
        r == char_is_uppercase(c),
;

/// `char::is_whitespace` of the standard library: whether the character has the
/// Unicode property `White_Space`, which `is_space` lists.
pub assume_specification[ char::is_whitespace ](c: char) -> (r: bool)
    ensures
        r == is_space(c),
;

/// `str::to_lowercase` of the standard library: the result depends on the
/// characters of the string alone.
pub assume_specification[ str::to_lowercase ](s: &str) -> (r: String)
    ensures
        r@ == unicode_lowercase(s@),
;

/// `==` of the standard library on two string slices: equality of their
/// characters.
pub assume_specification[ <str as PartialEq>::eq ](a: &str, b: &str) -> (r: bool)
    ensures
        r == (a@ == b@),
;

/// `String::push` of the standard library: appends one character.
pub assume_specification[ String::push ](s: &mut String, c: char)
    ensures
        final(s)@ == old(s)@.push(c),
;

/// Whether a character is an ASCII character.
pub open spec fn is_ascii(c: char) -> bool {
    (c as u32) < 0x80
}

/// Whether a character is a letter or a digit.
pub open spec fn is_letter_or_digit(c: char) -> bool {
    if is_ascii(c) {
        ('0' <= c && c <= '9') || ('A' <= c && c <= 'Z') || ('a' <= c && c <= 'z')
    } else {
        char_is_alphanumeric(c)
    }
}

/// Whether a character is an uppercase letter.
pub open spec fn is_upper(c: char) -> bool {
    if is_ascii(c) {
        'A' <= c && c <= 'Z'
    } else {
        char_is_uppercase(c)
    }
}

/// Whether a character is white space: one of the characters with the Unicode
/// property `White_Space`.
pub open spec fn is_space(c: char) -> bool {
    ||| '\t' <= c && c <= '\r'
    ||| c == ' ' || c == '\u{85}' || c == '\u{a0}' || c == '\u{1680}'
    ||| '\u{2000}' <= c && c <= '\u{200a}'
    ||| c == '\u{2028}' || c == '\u{2029}' || c == '\u{202f}' || c == '\u{205f}'
    ||| c == '\u{3000}'
}

/// The lowercase form of an ASCII character.
pub open spec fn ascii_lower(c: char) -> char {
    if 'A' <= c && c <= 'Z' {
        (((c as u8) + 32) as u8) as char
    } else {
        c
    }
}

/// Whether all characters are ASCII characters.
pub open spec fn all_ascii(s: Seq<char>) -> bool {
    forall|i: int| 0 <= i < s.len() ==> is_ascii(#[trigger] s[i])
}

/// The lowercase form of a text.
pub open spec fn lowercase(s: Seq<char>) -> Seq<char> {
    if all_ascii(s) {
        Seq::new(s.len(), |i: int| ascii_lower(s[i]))
    } else {
        unicode_lowercase(s)
    }
}

/// Tests whether a character is a letter or a digit.
pub fn letter_or_digit(c: char) -> (r: bool)
    ensures
        r == is_letter_or_digit(c),
{
    if (c as u32) < 0x80 {
        ('0' <= c && c <= '9') || ('A' <= c && c <= 'Z') || ('a' <= c && c <= 'z')
    } else {
        c.is_alphanumeric()
    }
}

/// Tests whether a character is an uppercase letter.
pub fn upper(c: char) -> (r: bool)
    ensures
        r == is_upper(c),
{
    if (c as u32) < 0x80 {
        'A' <= c && c <= 'Z'
    } else {
        c.is_uppercase()
    }
}

/// Tests whether a character is white space.
pub fn space(c: char) -> (r: bool)
    ensures
        r == is_space(c),
{
    c.is_whitespace()
}

/// The lowercase form of a string.
pub fn to_lower(s: &str) -> (r: String)
    ensures
        r@ == lowercase(s@),
{
    let mut out = String::new();
    let chars: Vec<char> = chars_of(s);
    let mut i: usize = 0;
    while i < chars.len()
        invariant
            chars@ == s@,
            i <= chars@.len(),
            out@.len() == i,
            forall|k: int| 0 <= k < i ==> is_ascii(#[trigger] s@[k]),
            forall|k: int| 0 <= k < i ==> #[trigger] out@[k] == ascii_lower(s@[k]),
        decreases chars@.len() - i,
    {
        let c: char = chars[i];
        if (c as u32) >= 0x80 {
            assert(!is_ascii(s@[i as int]));
            return s.to_lowercase();
        }
        let ghost before = out@;
        if 'A' <= c && c <= 'Z' {
            out.push((c as u8 + 32) as char);
        } else {
            out.push(c);
        }
        assert(out@ == before.push(ascii_lower(c)));
        i += 1;
    }
    assert(out@ =~= lowercase(s@));
    out
}

/// Whether two strings hold the same characters.
pub fn same(a: &str, b: &str) -> (r: bool)
    ensures
        r == (a@ == b@),
{
    *a == *b
}

/// The characters of a string.
pub fn chars_of(s: &str) -> (r: Vec<char>)
    ensures
        r@ == s@,
{
    let mut out: Vec<char> = Vec::new();
    for c in it: s.chars()
        invariant
            out@.len() == it.index(),
            it.seq() == s@,
            forall|i: int| 0 <= i < out@.len() ==> out@[i] == it.seq()[i],
    {
        out.push(c);
    }
    assert(out@ =~= s@);
    out
}

/// The string of the characters from `lo` up to `hi`.
pub fn string_of(chars: &Vec<char>, lo: usize, hi: usize) -> (r: String)
    requires
        lo <= hi <= chars@.len(),
    ensures
        r@ == chars@.subrange(lo as int, hi as int),
{
    let mut out = String::new();
    let mut i: usize = lo;
    while i < hi
        invariant
            lo <= i <= hi <= chars@.len(),
            out@ == chars@.subrange(lo as int, i as int),
        decreases hi - i,
    {
        out.push(chars[i]);
        i += 1;
        assert(chars@.subrange(lo as int, i as int) =~= chars@.subrange(lo as int, i - 1).push(
            chars@[i - 1],
        ));
    }
    out
}

/// A new string of two pieces.
pub fn concat2(a: &str, b: &str) -> (r: String)
    ensures
        r@ == a@ + b@,
{
    let mut out = String::new();
    out.append(a);
    out.append(b);
    assert(out@ =~= a@ + b@);
    out
}

/// A new string of three pieces.
pub fn concat3(a: &str, b: &str, c: &str) -> (r: String)
    ensures
        r@ == a@ + b@ + c@,
{
    let mut out = concat2(a, b);
    out.append(c);
    out
}

/// A copy of a string slice.
pub fn copied(s: &str) -> (r: String)
    ensures
        r@ == s@,
{
    s.to_owned()
}

} // verus!
