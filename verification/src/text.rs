//! Source text as a sequence of characters.

use vstd::prelude::*;

verus! {

/// The characters of `s`, in order.
pub fn chars_of(s: &str) -> (chars: Vec<char>)
    ensures
        chars@ == s@,
{
    let mut chars: Vec<char> = Vec::new();
    for c in it: s.chars()
        invariant
            it.seq() == s@,
            chars@ == it.seq().take(it.index() as int),
    {
        chars.push(c);
    }
    chars
}

/// A copy of `text[start..end]`.
pub fn slice_of(text: &Vec<char>, start: usize, end: usize) -> (part: Vec<char>)
    requires
        start <= end <= text.len(),
    ensures
        part@ == text@.subrange(start as int, end as int),
{
    let mut part: Vec<char> = Vec::new();
    let mut i: usize = start;
    while i < end
        invariant
            start <= i <= end <= text.len(),
            part@ == text@.subrange(start as int, i as int),
        decreases end - i,
    {
        part.push(text[i]);
        i += 1;
    }
    part
}


/// Whether `word` is spelled exactly as `spelling`.
pub fn spells(word: &Vec<char>, spelling: &str) -> (same: bool)
    ensures
        same == (word@ == spelling@),
{
    let n = spelling.unicode_len();
    if word.len() != n {
        return false;
    }
    let mut i: usize = 0;
    while i < n
        invariant
            i <= n,
            n == word.len(),
            n == spelling@.len(),
            forall|j: int| 0 <= j < i ==> word[j] == spelling@[j],
        decreases n - i,
    {
        if word[i] != spelling.get_char(i) {
            return false;
        }
        i += 1;
    }
    assert(word@ =~= spelling@);
    true
}

pub open spec fn is_digit(c: char) -> bool {
    '0' <= c <= '9'
}

/// The number that a digit stands for.
pub open spec fn digit_value(c: char) -> int {
    c as int - '0' as int
}

/// The number that a run of decimal digits stands for.
pub open spec fn decimal(digits: Seq<char>) -> int
    decreases digits.len(),
{
    if digits.len() == 0 {
        0
    } else {
        decimal(digits.drop_last()) * 10 + digit_value(digits.last())
    }
}

/// The integer that `word` denotes: it must consist of decimal digits, at
/// least one, and stand for a number that fits.
pub open spec fn number(word: Seq<char>) -> Option<i64> {
    if word.len() > 0 && (forall|i: int| 0 <= i < word.len() ==> is_digit(#[trigger] word[i]))
        && decimal(word) <= i64::MAX {
        Some(decimal(word) as i64)
    } else {
        None
    }
}

/// A run of digits stands for at least as much as any of its beginnings.
proof fn lemma_decimal_grows(digits: Seq<char>, n: int)
    requires
        0 <= n <= digits.len(),
        forall|i: int| 0 <= i < digits.len() ==> is_digit(#[trigger] digits[i]),
    ensures
        0 <= decimal(digits.take(n)) <= decimal(digits),
    decreases digits.len(),
{
    if digits.len() > 0 {
        if n == digits.len() {
            assert(digits.take(n) =~= digits);
            lemma_decimal_grows(digits.drop_last(), n - 1);
        } else {
            assert(digits.drop_last().take(n) =~= digits.take(n));
            lemma_decimal_grows(digits.drop_last(), n);
        }
    }
}

/// Reads `word` as a decimal integer.
pub fn parse_number(word: &Vec<char>) -> (value: Option<i64>)
    ensures
        value == number(word@),
{
    if word.len() == 0 {
        return None;
    }
    let mut value: i64 = 0;
    let mut i: usize = 0;
    while i < word.len()
        invariant
            i <= word.len(),
            forall|j: int| 0 <= j < i ==> is_digit(#[trigger] word[j]),
            value == decimal(word@.take(i as int)),
            0 <= value,
        decreases word.len() - i,
    {
        let ch = word[i];
        if !(ch >= '0' && ch <= '9') {
            return None;
        }
        let digit: i64 = (ch as u32 - '0' as u32) as i64;
        proof {
            assert(word@.take(i + 1).drop_last() =~= word@.take(i as int));
        }
        let grown = match value.checked_mul(10) {
            Some(tens) => tens.checked_add(digit),
            None => None,
        };
        match grown {
            Some(next) => {
                value = next;
            },
            None => {
                proof {
                    if forall|j: int| 0 <= j < word.len() ==> is_digit(#[trigger] word[j]) {
                        lemma_decimal_grows(word@, i + 1);
                    }
                }
                return None;
            },
        }
        i += 1;
    }
    assert(word@.take(i as int) =~= word@);
    Some(value)
}

/// `text` with each pair of quotes in a row replaced by one quote.
pub open spec fn unescape(text: Seq<char>) -> Seq<char>
    decreases text.len(),
{
    if text.len() == 0 {
        Seq::empty()
    } else if text.len() >= 2 && text[0] == '"' && text[1] == '"' {
        seq!['"'] + unescape(text.skip(2))
    } else {
        seq![text[0]] + unescape(text.skip(1))
    }
}

/// Replaces each pair of quotes in a row by one quote.
pub fn unescaped(text: &Vec<char>) -> (plain: Vec<char>)
    ensures
        plain@ == unescape(text@),
{
    let mut plain: Vec<char> = Vec::new();
    let mut i: usize = 0;
    assert(plain@ + unescape(text@.skip(0)) =~= unescape(text@)) by {
        assert(text@.skip(0) =~= text@);
    }
    while i < text.len()
        invariant
            i <= text.len(),
            unescape(text@) == plain@ + unescape(text@.skip(i as int)),
        decreases text.len() - i,
    {
        let ghost rest = text@.skip(i as int);
        if text[i] == '"' && i + 1 < text.len() && text[i + 1] == '"' {
            assert(rest.skip(2) =~= text@.skip(i + 2));
            plain.push('"');
            i += 2;
        } else {
            assert(rest.skip(1) =~= text@.skip(i + 1));
            plain.push(text[i]);
            i += 1;
        }
    }
    plain
}

} // verus!
