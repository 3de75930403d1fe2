//! Which characters are which.

use crate::strings::{
    all_ascii, char_is_alphanumeric, char_is_uppercase, is_letter_or_digit, is_space, is_upper,
    lowercase, unicode_lowercase,
};
use crate::text::CharClass;
use vstd::prelude::*;

verus! {

/// Whether the code of a character is that of a letter or a digit of ASCII.
pub open spec fn has_alphanumeric_code(c: char) -> bool {
    let code = c as u32;
    0x30 <= code <= 0x39 || 0x41 <= code <= 0x5a || 0x61 <= code <= 0x7a
}

/// Whether a character can stand in a name: a letter, a digit or `_`.
pub open spec fn in_name(c: char) -> bool {
    if (c as u32) < 0x80 {
        has_alphanumeric_code(c) || c as u32 == 0x5f
    } else {
        char_is_alphanumeric(c)
    }
}

/// Whether a character can stand in a word: a letter, a digit, `_` or `$`.
pub open spec fn in_word(c: char) -> bool {
    in_name(c) || c as u32 == 0x24
}

/// Whether a character is a blank, a control character for blanks, or one of
/// the wider blanks.
pub open spec fn is_blank(c: char) -> bool {
    let code = c as u32;
    ||| 0x9 <= code <= 0xd || code == 0x20
    ||| code == 0x85 || code == 0xa0 || code == 0x1680
    ||| 0x2000 <= code <= 0x200a
    ||| code == 0x2028 || code == 0x2029 || code == 0x202f || code == 0x205f || code == 0x3000
}

/// The characters of words are the letters, the digits, `_` and `$`; those of
/// names are the same without `$`. Every other character of ASCII, be it an
/// operator, a bracket, a comma, a dot or a blank, ends a word and a name.
pub proof fn law_characters_of_words(c: char)
    ensures
        CharClass::Word.has_char(c) <==> in_word(c),
        CharClass::Name.has_char(c) <==> in_name(c),
        is_letter_or_digit(c) <==> (if (c as u32) < 0x80 {
            has_alphanumeric_code(c)
        } else {
            char_is_alphanumeric(c)
        }),
{
}

/// The class of blanks is that of white space, and the class of all characters
/// but one is just that.
pub proof fn law_characters_of_other_classes(c: char, other: char)
    ensures
        CharClass::Space.has_char(c) <==> is_blank(c),
        is_space(c) <==> is_blank(c),
        CharClass::Not(other).has_char(c) <==> c != other,
{
}

/// The capital letters of ASCII are those from A to Z.
pub proof fn law_capital_letters(c: char)
    ensures
        (c as u32) < 0x80 ==> (is_upper(c) <==> 0x41 <= c as u32 <= 0x5a),
        (c as u32) >= 0x80 ==> (is_upper(c) <==> char_is_uppercase(c)),
{
}

/// The lowercase form of a text of ASCII is as long as the text. Each capital
/// letter stands 32 codes further on, and nothing else changes.
pub proof fn law_lowercase(s: Seq<char>)
    ensures
        (forall|i: int| 0 <= i < s.len() ==> (#[trigger] s[i] as u32) < 0x80) ==> {
            &&& lowercase(s).len() == s.len()
            &&& forall|i: int|
                0 <= i < s.len() ==> #[trigger] lowercase(s)[i] as u32 == (if 0x41 <= s[i] as u32
                    <= 0x5a {
                    s[i] as u32 + 0x20
                } else {
                    s[i] as int
                })
        },
        (exists|i: int| 0 <= i < s.len() && (#[trigger] s[i] as u32) >= 0x80) ==> lowercase(s)
            == unicode_lowercase(s),
{
    if exists|i: int| 0 <= i < s.len() && (#[trigger] s[i] as u32) >= 0x80 {
        let i = choose|i: int| 0 <= i < s.len() && (#[trigger] s[i] as u32) >= 0x80;
        assert(!all_ascii(s));
    }
}

/// What is in lowercase stays so.
pub proof fn law_lowercase_is_stable(s: Seq<char>)
    requires
        forall|i: int| 0 <= i < s.len() ==> (#[trigger] s[i] as u32) < 0x80,
    ensures
        lowercase(lowercase(s)) == lowercase(s),
{
    law_lowercase(s);
    let t = lowercase(s);
    assert forall|i: int| 0 <= i < t.len() implies (#[trigger] t[i] as u32) < 0x80 by {
        assert((s[i] as u32) < 0x80);
    }
    law_lowercase(t);
    assert forall|i: int| 0 <= i < t.len() implies #[trigger] lowercase(t)[i] == t[i] by {
        assert(t[i] as u32 == lowercase(s)[i] as u32);
    }
    assert(lowercase(t) =~= t);
}

} // verus!
