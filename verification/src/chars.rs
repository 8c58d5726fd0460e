//! Character-level helpers: Unicode classification and case folding come from
//! the standard library behind named results; ASCII classification and CJK
//! block detection are defined here directly.

use vstd::prelude::*;

verus! {

/// Whether the standard library classifies this character as alphanumeric
/// (Unicode `Alphabetic` plus `Nd`/`Nl`/`No`): a fixed function of the
/// character alone.
pub uninterp spec fn unicode_alphanumeric(c: char) -> bool;

/// Whether the standard library classifies this character as whitespace
/// (Unicode `White_Space`): a fixed function of the character alone.
pub uninterp spec fn unicode_whitespace(c: char) -> bool;

/// The Unicode lowercase mapping of this character, one or more characters:
/// a fixed function of the character alone.
pub uninterp spec fn unicode_lowercase(c: char) -> Seq<char>;

/// Relies on char::is_alphanumeric: the Unicode alphanumeric classification
/// of the character.
#[verifier::external_body]
pub(crate) fn char_is_alphanumeric(c: char) -> (r: bool)
    ensures
        r == unicode_alphanumeric(c),
{
    c.is_alphanumeric()
}

/// Relies on char::is_whitespace: the Unicode whitespace classification of
/// the character.
#[verifier::external_body]
pub(crate) fn char_is_whitespace(c: char) -> (r: bool)
    ensures
        r == unicode_whitespace(c),
{
    c.is_whitespace()
}

/// Relies on char::to_lowercase: the Unicode lowercase mapping of the
/// character; it yields one or more characters.
#[verifier::external_body]
pub(crate) fn char_lowercase(c: char) -> (r: Vec<char>)
    ensures
        r@ == unicode_lowercase(c),
        r@.len() >= 1,
{
    c.to_lowercase().collect()
}

/// Relies on String::push: appends one character at the end.
#[verifier::external_body]
pub(crate) fn push_char(s: &mut String, c: char)
    ensures
        final(s)@ == old(s)@.push(c),
{
    s.push(c);
}

/// Relies on String::from_utf8: succeeds exactly on valid UTF-8 bytes and
/// decodes them; the returned string encodes back to the same bytes.
#[verifier::external_body]
pub(crate) fn utf8_string(bytes: Vec<u8>) -> (r: Result<String, crate::MarkflowError>)
    ensures
        match r {
            Ok(s) => vstd::utf8::encode_utf8(s@) == bytes@,
            Err(e) => e is EncodingError && !vstd::utf8::valid_utf8(bytes@),
        },
{
    match String::from_utf8(bytes) {
        Ok(s) => Ok(s),
        Err(_) => Err(crate::MarkflowError::EncodingError),
    }
}

/// Relies on String::from_iter over characters: collects the characters into
/// a string in order.
#[verifier::external_body]
pub(crate) fn chars_to_string(v: &Vec<char>) -> (r: String)
    ensures
        r@ == v@,
{
    v.iter().collect()
}

/// Whether the character is an ASCII letter or digit.
pub open spec fn spec_ascii_alphanumeric(c: char) -> bool {
    ('a' <= c && c <= 'z') || ('A' <= c && c <= 'Z') || ('0' <= c && c <= '9')
}

/// ASCII letter-or-digit test.
pub(crate) fn is_ascii_alphanumeric_char(c: char) -> (r: bool)
    ensures
        r == spec_ascii_alphanumeric(c),
{
    ('a' <= c && c <= 'z') || ('A' <= c && c <= 'Z') || ('0' <= c && c <= '9')
}

/// The ASCII lowercase of a character: letters `A`-`Z` map down, everything
/// else is unchanged.
pub open spec fn spec_ascii_lower(c: char) -> char {
    if 'A' <= c && c <= 'Z' {
        ((c as u8) + 32) as char
    } else {
        c
    }
}

/// Lowercases one ASCII letter; other characters pass through.
pub(crate) fn ascii_lower_char(c: char) -> (r: char)
    ensures
        r == spec_ascii_lower(c),
{
    if 'A' <= c && c <= 'Z' {
        ((c as u8) + 32) as char
    } else {
        c
    }
}

/// Whether the character is ASCII whitespace: space, tab, newline, carriage
/// return or form feed.
pub open spec fn spec_ascii_whitespace(c: char) -> bool {
    c == ' ' || c == '\t' || c == '\n' || c == '\r' || c == '\u{c}'
}

/// ASCII whitespace test.
pub(crate) fn is_ascii_whitespace_char(c: char) -> (r: bool)
    ensures
        r == spec_ascii_whitespace(c),
{
    c == ' ' || c == '\t' || c == '\n' || c == '\r' || c == '\u{c}'
}

/// Whether the character lies in one of the CJK-related Unicode blocks kept
/// verbatim by `slugify`: Hangul Jamo, CJK punctuation, Hiragana, Katakana,
/// Hangul compatibility Jamo, the unified ideographs and their extension A,
/// compatibility ideographs, Hangul syllables, and the halfwidth/fullwidth
/// forms.
pub open spec fn spec_is_cjk(c: char) -> bool {
    let u = c as u32;
    (0x1100 <= u && u <= 0x11FF) || (0x3000 <= u && u <= 0x303F) || (0x3040 <= u && u <= 0x309F)
        || (0x30A0 <= u && u <= 0x30FF) || (0x3130 <= u && u <= 0x318F) || (0x3400 <= u && u
        <= 0x4DBF) || (0x4E00 <= u && u <= 0x9FFF) || (0xAC00 <= u && u <= 0xD7AF) || (0xF900 <= u
        && u <= 0xFAFF) || (0xFF00 <= u && u <= 0xFFEF)
}

/// Tests whether a character belongs to the CJK blocks that slug generation
/// preserves verbatim.
pub fn is_cjk(c: char) -> (r: bool)
    ensures
        r == spec_is_cjk(c),
{
    let u = c as u32;
    (0x1100 <= u && u <= 0x11FF) || (0x3000 <= u && u <= 0x303F) || (0x3040 <= u && u <= 0x309F)
        || (0x30A0 <= u && u <= 0x30FF) || (0x3130 <= u && u <= 0x318F) || (0x3400 <= u && u
        <= 0x4DBF) || (0x4E00 <= u && u <= 0x9FFF) || (0xAC00 <= u && u <= 0xD7AF) || (0xF900 <= u
        && u <= 0xFAFF) || (0xFF00 <= u && u <= 0xFFEF)
}

/// The decimal digits of `n`, most significant first.
pub open spec fn spec_decimal(n: nat) -> Seq<char>
    decreases n,
{
    if n < 10 {
        seq![spec_digit_char(n % 10)]
    } else {
        spec_decimal(n / 10).push(spec_digit_char(n % 10))
    }
}

/// The character for one decimal digit.
pub open spec fn spec_digit_char(d: nat) -> char {
    if d == 0 {
        '0'
    } else if d == 1 {
        '1'
    } else if d == 2 {
        '2'
    } else if d == 3 {
        '3'
    } else if d == 4 {
        '4'
    } else if d == 5 {
        '5'
    } else if d == 6 {
        '6'
    } else if d == 7 {
        '7'
    } else if d == 8 {
        '8'
    } else {
        '9'
    }
}

fn digit_char(d: u64) -> (r: char)
    requires
        d < 10,
    ensures
        r == spec_digit_char(d as nat),
{
    if d == 0 {
        '0'
    } else if d == 1 {
        '1'
    } else if d == 2 {
        '2'
    } else if d == 3 {
        '3'
    } else if d == 4 {
        '4'
    } else if d == 5 {
        '5'
    } else if d == 6 {
        '6'
    } else if d == 7 {
        '7'
    } else if d == 8 {
        '8'
    } else {
        '9'
    }
}

/// Appends the decimal digits of `n` to `out`, most significant first.
pub(crate) fn push_decimal(n: u64, out: &mut Vec<char>)
    ensures
        final(out)@ == old(out)@ + spec_decimal(n as nat),
    decreases n,
{
    if n < 10 {
        out.push(digit_char(n));
        assert(out@ =~= old(out)@ + spec_decimal(n as nat));
    } else {
        push_decimal(n / 10, out);
        out.push(digit_char(n % 10));
        assert(out@ =~= old(out)@ + spec_decimal(n as nat));
    }
}

/// Appends the decimal digits of `n` to a string.
pub(crate) fn push_decimal_str(n: u64, out: &mut String)
    ensures
        final(out)@ == old(out)@ + spec_decimal(n as nat),
{
    let mut digits: Vec<char> = Vec::new();
    push_decimal(n, &mut digits);
    let mut i: usize = 0;
    while i < digits.len()
        invariant
            i <= digits@.len(),
            digits@ == spec_decimal(n as nat),
            out@ == old(out)@ + digits@.subrange(0, i as int),
        decreases digits@.len() - i,
    {
        push_char(out, digits[i]);
        i = i + 1;
        assert(out@ =~= old(out)@ + digits@.subrange(0, i as int));
    }
    assert(digits@.subrange(0, digits@.len() as int) =~= digits@);
}

} // verus!
