//! Scanning text for the end of a run of characters, and reading decimal numbers.

use crate::text::is_ascii_digit;
use crate::text::is_ascii_letter;
use crate::text::is_blank;
use crate::text::is_white_space;
use crate::text::is_whitespace;
use crate::text::is_digit;
use crate::text::is_letter;
use crate::text::to_chars;
use vstd::prelude::*;

verus! {

/// The characters at which a scan stops.
#[derive(Debug, Clone, Copy, PartialEq, Eq)]
pub enum Stop {
    /// A colon or a space.
    ColonOrSpace,
    /// Anything but a letter of the ASCII alphabet.
    NotLetter,
    /// Anything but a decimal digit.
    NotDigit,
    /// A space or a tab.
    Blank,
    /// Anything but a space or a tab.
    NotBlank,
    /// A closing square bracket.
    Bracket,
    /// A space, a tab or a plus sign.
    BlankOrPlus,
    /// A space, a tab or a closing square bracket.
    BlankOrBracket,
    /// A comma.
    Comma,
    /// A line feed.
    LineFeed,
    /// A colon.
    Colon,
    /// Anything but white space.
    NotWhite,
    /// Anything but a letter of the ASCII alphabet, a decimal digit or an underscore.
    NotWord,
    /// A double quote.
    Quote,
}

/// Whether a scan of the given kind stops at `c`.
pub open spec fn stops(stop: Stop, c: char) -> bool {
    match stop {
        Stop::ColonOrSpace => c == ':' || c == ' ',
        Stop::NotLetter => !is_letter(c),
        Stop::NotDigit => !is_digit(c),
        Stop::Blank => is_blank(c),
        Stop::NotBlank => !is_blank(c),
        Stop::Bracket => c == ']',
        Stop::BlankOrPlus => is_blank(c) || c == '+',
        Stop::BlankOrBracket => is_blank(c) || c == ']',
        Stop::Comma => c == ',',
        Stop::LineFeed => c == '\n',
        Stop::Colon => c == ':',
        Stop::NotWhite => !is_white_space(c),
        Stop::NotWord => !(is_letter(c) || is_digit(c) || c == '_'),
        Stop::Quote => c == '"',
    }
}

/// Whether a scan of the given kind stops at `c`.
pub fn is_stop(stop: Stop, c: char) -> (stopped: bool)
    ensures
        stopped == stops(stop, c),
{
    match stop {
        Stop::ColonOrSpace => c == ':' || c == ' ',
        Stop::NotLetter => !(('a' <= c && c <= 'z') || ('A' <= c && c <= 'Z')),
        Stop::NotDigit => !('0' <= c && c <= '9'),
        Stop::Blank => c == ' ' || c == '\t',
        Stop::NotBlank => !(c == ' ' || c == '\t'),
        Stop::Bracket => c == ']',
        Stop::BlankOrPlus => c == ' ' || c == '\t' || c == '+',
        Stop::BlankOrBracket => c == ' ' || c == '\t' || c == ']',
        Stop::Comma => c == ',',
        Stop::LineFeed => c == '\n',
        Stop::Colon => c == ':',
        Stop::NotWhite => !is_whitespace(c),
        Stop::NotWord => !(is_ascii_letter(c) || is_ascii_digit(c) || c == '_'),
        Stop::Quote => c == '"',
    }
}

/// The number of characters at the start of `text` before the first at which the scan
/// stops: the whole length where it stops at none.
pub open spec fn span(text: Seq<char>, stop: Stop) -> nat
    decreases text.len(),
{
    if text.len() > 0 && !stops(stop, text.first()) {
        1 + span(text.drop_first(), stop)
    } else {
        0
    }
}

/// The position of the first character at or after `from` at which the scan stops: the
/// length of the text where it stops at none.
pub open spec fn span_from(text: Seq<char>, from: int, stop: Stop) -> int {
    if 0 <= from <= text.len() {
        from + span(text.skip(from), stop)
    } else {
        from
    }
}

/// Whether the text has the character `c` at position `at`.
pub open spec fn has_at(text: Seq<char>, at: int, c: char) -> bool {
    0 <= at < text.len() && text[at] == c
}

/// A span ends within the text, at a character at which the scan stops or at the end.
pub proof fn lemma_span(text: Seq<char>, stop: Stop)
    ensures
        span(text, stop) <= text.len(),
        span(text, stop) < text.len() ==> stops(stop, text[span(text, stop) as int]),
        forall|i: int| 0 <= i < span(text, stop) ==> !stops(stop, #[trigger] text[i]),
    decreases text.len(),
{
    if text.len() > 0 && !stops(stop, text.first()) {
        let rest = text.drop_first();
        lemma_span(rest, stop);
        assert forall|i: int| 0 <= i < span(text, stop) implies !stops(stop, #[trigger] text[i]) by {
            if i > 0 {
                assert(text[i] == rest[i - 1]);
            }
        }
    }
}

/// The first position at which no character before it stops the scan and the one at it
/// does, or which is the end of the text, is where the span ends.
pub proof fn lemma_span_is(text: Seq<char>, stop: Stop, n: int)
    requires
        0 <= n <= text.len(),
        forall|i: int| 0 <= i < n ==> !stops(stop, #[trigger] text[i]),
        n < text.len() ==> stops(stop, text[n]),
    ensures
        span(text, stop) == n,
    decreases text.len(),
{
    if n > 0 {
        let rest = text.drop_first();
        assert forall|i: int| 0 <= i < n - 1 implies !stops(stop, #[trigger] rest[i]) by {
            assert(rest[i] == text[i + 1]);
        }
        lemma_span_is(rest, stop, n - 1);
    }
}

/// Scans the characters from `from` up to `to`.
pub fn scan(chars: &Vec<char>, from: usize, to: usize, stop: Stop) -> (end: usize)
    requires
        from <= to <= chars.len(),
    ensures
        from <= end <= to,
        end == from + span(chars@.subrange(from as int, to as int), stop),
        end == span_from(chars@.subrange(0, to as int), from as int, stop),
{
    let mut end: usize = from;
    while end < to && !is_stop(stop, chars[end])
        invariant
            from <= end <= to <= chars.len(),
            forall|i: int| from <= i < end ==> !stops(stop, #[trigger] chars@[i]),
        decreases to - end,
    {
        end = end + 1;
    }
    proof {
        lemma_span_is(chars@.subrange(from as int, to as int), stop, end - from);
        assert(chars@.subrange(0, to as int).skip(from as int) == chars@.subrange(
            from as int,
            to as int,
        ));
    }
    end
}

/// Scans the characters from `from` to the end of the text. Beyond the end there is
/// nothing to scan.
pub fn scan_on(chars: &Vec<char>, from: usize, stop: Stop) -> (end: usize)
    ensures
        from <= end,
        from <= chars.len() ==> end <= chars.len(),
        end == span_from(chars@, from as int, stop),
{
    if from > chars.len() {
        return from;
    }
    let end = scan(chars, from, chars.len(), stop);
    assert(chars@.subrange(0, chars.len() as int) == chars@);
    end
}

/// Whether the text has the character `c` at position `at`.
pub fn has_char(chars: &Vec<char>, at: usize, c: char) -> (has: bool)
    ensures
        has == has_at(chars@, at as int, c),
{
    at < chars.len() && chars[at] == c
}

/// Whether the characters from `from` up to `to` are those of `word`.
pub fn is_word(chars: &Vec<char>, from: usize, to: usize, word: &str) -> (same: bool)
    requires
        from <= to <= chars.len(),
    ensures
        same == (chars@.subrange(from as int, to as int) == word@),
{
    let letters = to_chars(word);
    if letters.len() != to - from {
        return false;
    }
    let mut i: usize = 0;
    while i < letters.len()
        invariant
            from <= to <= chars.len(),
            letters.len() == to - from,
            letters@ == word@,
            i <= letters.len(),
            forall|j: int| 0 <= j < i ==> chars@[from + j] == letters@[j],
        decreases letters.len() - i,
    {
        if chars[from + i] != letters[i] {
            assert(chars@.subrange(from as int, to as int)[i as int] == chars@[from + i]);
            return false;
        }
        i = i + 1;
    }
    assert(chars@.subrange(from as int, to as int) =~= letters@);
    true
}

/// The value of a decimal digit.
pub open spec fn digit_value(c: char) -> nat
    recommends
        is_digit(c),
{
    (c as u32 - '0' as u32) as nat
}

/// The number that a run of decimal digits stands for.
pub open spec fn digits_value(digits: Seq<char>) -> nat
    decreases digits.len(),
{
    if digits.len() == 0 {
        0
    } else {
        digits_value(digits.drop_last()) * 10 + digit_value(digits.last())
    }
}

/// A decimal number at the start of `text` that is not above `max`: its value and the
/// number of characters it takes. The number is a run of digits that starts with one
/// from 1 to 9, or a single 0.
pub open spec fn decimal_number(text: Seq<char>, max: nat) -> Option<(nat, nat)> {
    if text.len() > 0 && '1' <= text[0] <= '9' {
        let length = span(text, Stop::NotDigit);
        let value = digits_value(text.take(length as int));
        if value <= max {
            Some((value, length))
        } else {
            None
        }
    } else if text.len() > 0 && text[0] == '0' {
        Some((0, 1))
    } else {
        None
    }
}

/// More digits never make a number smaller.
pub proof fn lemma_digits_grow(digits: Seq<char>, shorter: int)
    requires
        0 <= shorter <= digits.len(),
    ensures
        digits_value(digits.take(shorter)) <= digits_value(digits),
    decreases digits.len(),
{
    if shorter < digits.len() {
        lemma_digits_grow(digits.drop_last(), shorter);
        assert(digits.drop_last().take(shorter) == digits.take(shorter));
    } else {
        assert(digits.take(shorter) == digits);
    }
}

/// Reads the value of the run of digits from `from` up to `to`, where it is not above
/// `max`.
pub fn read_digits(chars: &Vec<char>, from: usize, to: usize, max: u64) -> (value: Option<u64>)
    requires
        from <= to <= chars.len(),
        forall|i: int| from <= i < to ==> is_digit(#[trigger] chars@[i]),
    ensures
        value == if digits_value(chars@.subrange(from as int, to as int)) <= max {
            Some(digits_value(chars@.subrange(from as int, to as int)) as u64)
        } else {
            None::<u64>
        },
{
    let ghost digits = chars@.subrange(from as int, to as int);
    let mut value: u64 = 0;
    let mut i: usize = from;
    assert(digits.take(0) =~= Seq::<char>::empty());
    while i < to
        invariant
            from <= i <= to <= chars.len(),
            digits == chars@.subrange(from as int, to as int),
            forall|j: int| from <= j < to ==> is_digit(#[trigger] chars@[j]),
            value == digits_value(digits.take(i - from)),
            value <= max,
        decreases to - i,
    {
        assert(is_digit(chars@[i as int]));
        let digit = (chars[i] as u32 - '0' as u32) as u64;
        proof {
            let longer = digits.take(i - from + 1);
            assert(longer.drop_last() == digits.take(i - from));
            assert(longer.last() == chars@[i as int]);
            assert(digits_value(longer) == value * 10 + digit);
            lemma_digits_grow(digits, i - from + 1);
        }
        let limit = max / 10;
        if value > limit || (value == limit && digit > max % 10) {
            assert(value * 10 + digit > max);
            return None;
        }
        value = value * 10 + digit;
        i = i + 1;
    }
    assert(digits.take(to - from) == digits);
    Some(value)
}

/// Reads a decimal number that is not above `max` from the characters from `from` up to
/// `to`. Returns its value and the position after it.
pub fn read_number(chars: &Vec<char>, from: usize, to: usize, max: u64) -> (number: Option<
    (u64, usize),
>)
    requires
        from <= to <= chars.len(),
    ensures
        match decimal_number(chars@.subrange(from as int, to as int), max as nat) {
            Some((value, length)) => number == Some((value as u64, (from + length) as usize))
                && from + length <= to,
            None => number is None,
        },
{
    let ghost text = chars@.subrange(from as int, to as int);
    if from < to {
        assert(text[0] == chars@[from as int]);
    }
    if from < to && chars[from] == '0' {
        return Some((0, from + 1));
    }
    if from >= to || !('1' <= chars[from] && chars[from] <= '9') {
        return None;
    }
    let end = scan(chars, from, to, Stop::NotDigit);
    proof {
        lemma_span(text, Stop::NotDigit);
        assert(text.take(end - from) == chars@.subrange(from as int, end as int));
        assert forall|i: int| from <= i < end implies is_digit(#[trigger] chars@[i]) by {
            assert(!stops(Stop::NotDigit, text[i - from]));
        }
    }
    match read_digits(chars, from, end, max) {
        Some(value) => Some((value, end)),
        None => None,
    }
}

} // verus!
