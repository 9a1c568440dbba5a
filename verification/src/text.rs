//! Characters and strings: conversion between strings and vectors of
//! characters, trimming, and lower case.

use vstd::prelude::*;
use vstd::utf8::is_ascii_chars;

verus! {

/// The lower-case form of a text, as the standard library computes it with
/// the Unicode tables.
pub uninterp spec fn lowercase_of(text: Seq<char>) -> Seq<char>;

/// The lower-case form of one character of the ASCII range; any other
/// character is left as it is.
pub open spec fn ascii_lower(c: char) -> char {
    if 'A' <= c <= 'Z' {
        ((c as u8) + 32) as char
    } else {
        c
    }
}

/// A text with `ascii_lower` applied to each character.
pub open spec fn ascii_lowered(text: Seq<char>) -> Seq<char> {
    Seq::new(text.len(), |i: int| ascii_lower(text[i]))
}

/// `str::to_lowercase`. On a text of ASCII characters alone it turns the
/// letters `A` to `Z` into `a` to `z` and leaves the rest; nothing more is
/// said of other texts than that the result has a name.
#[verifier::external_body]
pub(crate) fn lowercase(text: &str) -> (lowered: String)
    ensures
        lowered@ == lowercase_of(text@),
        is_ascii_chars(text@) ==> lowered@ == ascii_lowered(text@),
{
    text.to_lowercase()
}

/// `String::push`: appends one character.
#[verifier::external_body]
pub(crate) fn push_char(text: &mut String, c: char)
    ensures
        final(text)@ == old(text)@.push(c),
{
    text.push(c)
}

/// The characters of a string.
pub fn chars_of(text: &str) -> (chars: Vec<char>)
    ensures
        chars@ == text@,
{
    let mut chars: Vec<char> = Vec::new();
    for c in iter: text.chars()
        invariant
            iter.seq() == text@,
            chars@ == text@.take(iter.index() as int),
    {
        proof {
            assert(text@.take(iter.index() + 1) == text@.take(iter.index() as int).push(c));
        }
        chars.push(c);
    }
    proof {
        assert(text@.take(text@.len() as int) == text@);
    }
    chars
}

/// The string made of the given characters.
pub fn string_of(chars: &Vec<char>) -> (text: String)
    ensures
        text@ == chars@,
{
    let mut text = String::new();
    let mut i: usize = 0;
    while i < chars.len()
        invariant
            i <= chars.len(),
            text@ == chars@.take(i as int),
        decreases chars.len() - i,
    {
        push_char(&mut text, chars[i]);
        i += 1;
    }
    text
}

/// A set of characters to strip from the ends of a text.
#[derive(Clone, Copy, PartialEq, Eq, Structural, Debug)]
pub enum CharClass {
    /// White space as Unicode defines it.
    Whitespace,
    /// The double quote.
    Quote,
    /// The marks for check and mate, `+` and `#`.
    Mark,
}

/// White space: the characters with the Unicode property `White_Space`.
pub open spec fn is_whitespace(c: char) -> bool {
    let n = c as u32;
    (0x09 <= n <= 0x0D) || n == 0x20 || n == 0x85 || n == 0xA0 || n == 0x1680 || (0x2000 <= n
        <= 0x200A) || n == 0x2028 || n == 0x2029 || n == 0x202F || n == 0x205F || n == 0x3000
}

pub open spec fn in_class(c: char, class: CharClass) -> bool {
    match class {
        CharClass::Whitespace => is_whitespace(c),
        CharClass::Quote => c == '"',
        CharClass::Mark => c == '+' || c == '#',
    }
}

pub fn belongs(c: char, class: CharClass) -> (b: bool)
    ensures
        b == in_class(c, class),
{
    match class {
        CharClass::Whitespace => {
            let n: u32 = c as u32;
            (0x09 <= n && n <= 0x0D) || n == 0x20 || n == 0x85 || n == 0xA0 || n == 0x1680 || (
            0x2000 <= n && n <= 0x200A) || n == 0x2028 || n == 0x2029 || n == 0x202F || n
                == 0x205F || n == 0x3000
        },
        CharClass::Quote => c == '"',
        CharClass::Mark => c == '+' || c == '#',
    }
}

/// The text without the characters of `class` at its start.
pub open spec fn without_leading(text: Seq<char>, class: CharClass) -> Seq<char>
    decreases text.len(),
{
    if text.len() > 0 && in_class(text[0], class) {
        without_leading(text.drop_first(), class)
    } else {
        text
    }
}

/// The text without the characters of `class` at its end.
pub open spec fn without_trailing(text: Seq<char>, class: CharClass) -> Seq<char>
    decreases text.len(),
{
    if text.len() > 0 && in_class(text.last(), class) {
        without_trailing(text.drop_last(), class)
    } else {
        text
    }
}

/// The text without the characters of `class` at the ends that are asked
/// for.
pub open spec fn stripped(text: Seq<char>, class: CharClass, leading: bool, trailing: bool) -> Seq<
    char,
> {
    let rest = if leading {
        without_leading(text, class)
    } else {
        text
    };
    if trailing {
        without_trailing(rest, class)
    } else {
        rest
    }
}

/// The text without white space at either end.
pub open spec fn trimmed(text: Seq<char>) -> Seq<char> {
    stripped(text, CharClass::Whitespace, true, true)
}

/// Strips the characters of `class` from the start of the text, from its
/// end, or from both.
pub fn strip(chars: &Vec<char>, class: CharClass, leading: bool, trailing: bool) -> (rest: Vec<
    char,
>)
    ensures
        rest@ == stripped(chars@, class, leading, trailing),
{
    let n: usize = chars.len();
    let mut start: usize = 0;
    if leading {
        assert(chars@.subrange(0, n as int) == chars@);
        while start < n && belongs(chars[start], class)
            invariant
                start <= n,
                n == chars.len(),
                without_leading(chars@, class) == without_leading(
                    chars@.subrange(start as int, n as int),
                    class,
                ),
            decreases n - start,
        {
            proof {
                assert(chars@.subrange(start as int, n as int).drop_first() == chars@.subrange(
                    start + 1,
                    n as int,
                ));
            }
            start += 1;
        }
    }
    let ghost middle = chars@.subrange(start as int, n as int);
    assert(middle == if leading {
        without_leading(chars@, class)
    } else {
        chars@
    });
    let mut end: usize = n;
    if trailing {
        while end > start && belongs(chars[end - 1], class)
            invariant
                start <= end <= n,
                n == chars.len(),
                without_trailing(middle, class) == without_trailing(
                    chars@.subrange(start as int, end as int),
                    class,
                ),
                middle == chars@.subrange(start as int, n as int),
            decreases end,
        {
            proof {
                assert(chars@.subrange(start as int, end as int).drop_last() == chars@.subrange(
                    start as int,
                    end - 1,
                ));
            }
            end -= 1;
        }
    }
    let mut rest: Vec<char> = Vec::new();
    let mut i: usize = start;
    while i < end
        invariant
            start <= i <= end <= n,
            n == chars.len(),
            rest@ == chars@.subrange(start as int, i as int),
        decreases end - i,
    {
        rest.push(chars[i]);
        proof {
            assert(chars@.subrange(start as int, i + 1) == chars@.subrange(
                start as int,
                i as int,
            ).push(chars[i as int]));
        }
        i += 1;
    }
    rest
}

} // verus!
