//! Character classes and the character-level helpers shared by the parsers.

use vstd::prelude::*;

verus! {

/// A class of characters that a parser may consume greedily.
#[derive(Clone, Copy, Debug, PartialEq, Eq)]
pub enum CharClass {
    /// Unicode `White_Space`.
    Whitespace,
    /// ASCII letters and digits.
    AlphaNumeric,
    /// ASCII decimal digits.
    Digit,
    /// ASCII hexadecimal digits, either case.
    HexDigit,
    /// `0` to `7`.
    OctDigit,
    /// `0` and `1`.
    BinDigit,
}

pub open spec fn is_ascii_alpha(c: char) -> bool {
    ('a' as u32 <= c as u32 && c as u32 <= 'z' as u32) || ('A' as u32 <= c as u32 && c as u32
        <= 'Z' as u32)
}

pub open spec fn is_ascii_digit(c: char) -> bool {
    '0' as u32 <= c as u32 && c as u32 <= '9' as u32
}

pub open spec fn is_unicode_whitespace(c: char) -> bool {
    let n = c as u32;
    (0x09 <= n && n <= 0x0d) || n == 0x20 || n == 0x85 || n == 0xa0 || n == 0x1680 || (0x2000
        <= n && n <= 0x200a) || n == 0x2028 || n == 0x2029 || n == 0x202f || n == 0x205f || n
        == 0x3000
}

impl CharClass {
    pub open spec fn holds(self, c: char) -> bool {
        let n = c as u32;
        match self {
            CharClass::Whitespace => is_unicode_whitespace(c),
            CharClass::AlphaNumeric => is_ascii_alpha(c) || is_ascii_digit(c),
            CharClass::Digit => is_ascii_digit(c),
            CharClass::HexDigit => is_ascii_digit(c) || ('a' as u32 <= n && n <= 'f' as u32) || (
            'A' as u32 <= n && n <= 'F' as u32),
            CharClass::OctDigit => '0' as u32 <= n && n <= '7' as u32,
            CharClass::BinDigit => c == '0' || c == '1',
        }
    }

    /// Whether `c` belongs to this class.
    pub fn contains(&self, c: char) -> (r: bool)
        ensures
            r == self.holds(c),
    {
        let n = c as u32;
        match self {
            CharClass::Whitespace => {
                (0x09 <= n && n <= 0x0d) || n == 0x20 || n == 0x85 || n == 0xa0 || n == 0x1680 || (
                0x2000 <= n && n <= 0x200a) || n == 0x2028 || n == 0x2029 || n == 0x202f || n
                    == 0x205f || n == 0x3000
            },
            CharClass::AlphaNumeric => is_alpha(c) || is_digit(c),
            CharClass::Digit => is_digit(c),
            CharClass::HexDigit => is_digit(c) || ('a' as u32 <= n && n <= 'f' as u32) || (
            'A' as u32 <= n && n <= 'F' as u32),
            CharClass::OctDigit => '0' as u32 <= n && n <= '7' as u32,
            CharClass::BinDigit => c == '0' || c == '1',
        }
    }
}

/// Whether `c` is an ASCII letter.
pub fn is_alpha(c: char) -> (r: bool)
    ensures
        r == is_ascii_alpha(c),
{
    ('a' as u32 <= c as u32 && c as u32 <= 'z' as u32) || ('A' as u32 <= c as u32 && c as u32
        <= 'Z' as u32)
}

/// Whether `c` is an ASCII decimal digit.
pub fn is_digit(c: char) -> (r: bool)
    ensures
        r == is_ascii_digit(c),
{
    '0' as u32 <= c as u32 && c as u32 <= '9' as u32
}

/// The end of the longest run of characters of `cls` that starts at `i`.
pub open spec fn run_end(s: Seq<char>, i: int, cls: CharClass) -> int
    decreases s.len() - i,
{
    if 0 <= i < s.len() && cls.holds(s[i]) {
        run_end(s, i + 1, cls)
    } else {
        i
    }
}

/// Whether position `i` of `s` holds `c`.
pub open spec fn char_at(s: Seq<char>, i: int, c: char) -> bool {
    0 <= i < s.len() && s[i] == c
}

/// Whether position `i` of `s` holds `c`.
pub fn has_char_at(s: &Vec<char>, i: usize, c: char) -> (r: bool)
    ensures
        r == char_at(s@, i as int, c),
{
    i < s.len() && s[i] == c
}

/// Skips the longest run of characters of `cls` from `i`.
pub fn scan(s: &Vec<char>, i: usize, cls: CharClass) -> (e: usize)
    requires
        i <= s.len(),
    ensures
        e == run_end(s@, i as int, cls),
        i <= e <= s.len(),
{
    let mut j: usize = i;
    while j < s.len() && cls.contains(s[j])
        invariant
            i <= j <= s.len(),
            run_end(s@, j as int, cls) == run_end(s@, i as int, cls),
        decreases s.len() - j,
    {
        j = j + 1;
    }
    j
}

/// The lowercase form of an ASCII letter; any other character is kept.
pub open spec fn ascii_lower(c: char) -> char {
    if 'A' as u32 <= c as u32 && c as u32 <= 'Z' as u32 {
        ((c as u32) + 32) as char
    } else {
        c
    }
}

/// Relies on `str::chars`: the characters of `s`, in order.
#[verifier::external_body]
pub fn chars_of(s: &str) -> (r: Vec<char>)
    ensures
        r@ == s@,
{
    s.chars().collect()
}

/// Relies on `String`'s `FromIterator<&char>`: the text made of the characters of
/// `cs` from `start` up to `end`.
#[verifier::external_body]
pub fn text_of(cs: &Vec<char>, start: usize, end: usize) -> (r: String)
    requires
        start <= end <= cs.len(),
    ensures
        r@ == cs@.subrange(start as int, end as int),
{
    cs[start..end].iter().collect()
}

/// The text made of all of `cs`.
pub fn text_all(cs: &Vec<char>) -> (r: String)
    ensures
        r@ == cs@,
{
    let r = text_of(cs, 0, cs.len());
    assert(cs@.subrange(0, cs.len() as int) =~= cs@);
    r
}

} // verus!
