//! The texts that denote a floating-point number.
//!
//! A text is a numeral when it is an optional sign followed by one of the
//! words `inf`, `infinity`, `nan` (in any mix of upper and lower case) or by
//! a decimal number: digits with at most one `.` among them, at least one
//! digit in all, and an optional exponent (`e` or `E`, an optional sign, at
//! least one digit).

use vstd::prelude::*;

verus! {

pub open spec fn is_digit(c: char) -> bool {
    '0' <= c <= '9'
}

pub open spec fn is_sign(c: char) -> bool {
    c == '+' || c == '-'
}

/// The lower-case form of an ASCII letter; any other character is unchanged.
pub open spec fn lower(c: char) -> char {
    if 'A' <= c <= 'Z' {
        ((c as u8) + 32) as char
    } else {
        c
    }
}

/// The index of the first character at or after `from` that is no digit.
pub open spec fn digits_end(s: Seq<char>, from: int) -> int
    decreases s.len() - from,
{
    if 0 <= from < s.len() && is_digit(s[from]) {
        digits_end(s, from + 1)
    } else {
        from
    }
}

/// `s[from..]`, lowered letter by letter, is `word`.
pub open spec fn is_word_from(s: Seq<char>, from: int, word: Seq<char>) -> bool {
    &&& s.len() - from == word.len()
    &&& forall|i: int| 0 <= i < word.len() ==> lower(#[trigger] s[from + i]) == word[i]
}

/// `s[at..]` is an exponent: `e` or `E`, an optional sign, one digit or more.
pub open spec fn is_exponent_from(s: Seq<char>, at: int) -> bool {
    &&& 0 <= at < s.len()
    &&& lower(s[at]) == 'e'
    &&& {
        let first = if at + 1 < s.len() && is_sign(s[at + 1]) {
            at + 2
        } else {
            at + 1
        };
        first < digits_end(s, first) == s.len()
    }
}

/// `s[from..]` is a decimal number with an optional exponent.
pub open spec fn is_decimal_from(s: Seq<char>, from: int) -> bool {
    let whole_end = digits_end(s, from);
    let fraction = if whole_end < s.len() && s[whole_end] == '.' {
        whole_end + 1
    } else {
        whole_end
    };
    let fraction_end = digits_end(s, fraction);
    &&& (whole_end - from) + (fraction_end - fraction) > 0
    &&& (fraction_end == s.len() || is_exponent_from(s, fraction_end))
}

/// `s` is a numeral.
pub open spec fn is_numeral(s: Seq<char>) -> bool {
    let from = if s.len() > 0 && is_sign(s[0]) {
        1int
    } else {
        0int
    };
    ||| is_word_from(s, from, seq!['i', 'n', 'f'])
    ||| is_word_from(s, from, seq!['i', 'n', 'f', 'i', 'n', 'i', 't', 'y'])
    ||| is_word_from(s, from, seq!['n', 'a', 'n'])
    ||| is_decimal_from(s, from)
}

fn lower_char(c: char) -> (r: char)
    ensures
        r == lower(c),
{
    if 'A' <= c && c <= 'Z' {
        let code: u8 = c as u8;
        (code + 32) as char
    } else {
        c
    }
}

fn skip_digits(chars: &Vec<char>, from: usize) -> (end: usize)
    requires
        from <= chars.len(),
    ensures
        end == digits_end(chars@, from as int),
        from <= end <= chars.len(),
{
    let mut end: usize = from;
    while end < chars.len() && '0' <= chars[end] && chars[end] <= '9'
        invariant
            from <= end <= chars.len(),
            digits_end(chars@, from as int) == digits_end(chars@, end as int),
        decreases chars.len() - end,
    {
        end += 1;
    }
    end
}

fn word_from(chars: &Vec<char>, from: usize, word: &Vec<char>) -> (r: bool)
    requires
        from <= chars.len(),
    ensures
        r == is_word_from(chars@, from as int, word@),
{
    if chars.len() - from != word.len() {
        return false;
    }
    let mut i: usize = 0;
    while i < word.len()
        invariant
            from <= chars.len(),
            chars.len() - from == word.len(),
            i <= word.len(),
            forall|j: int| 0 <= j < i ==> lower(#[trigger] chars@[from + j]) == word@[j],
        decreases word.len() - i,
    {
        if lower_char(chars[from + i]) != word[i] {
            return false;
        }
        i += 1;
    }
    true
}

fn exponent_from(chars: &Vec<char>, at: usize) -> (r: bool)
    requires
        at < chars.len(),
    ensures
        r == is_exponent_from(chars@, at as int),
{
    if lower_char(chars[at]) != 'e' {
        return false;
    }
    let first: usize = if at + 1 < chars.len() && (chars[at + 1] == '+' || chars[at + 1] == '-') {
        at + 2
    } else {
        at + 1
    };
    let end = skip_digits(chars, first);
    first < end && end == chars.len()
}

fn decimal_from(chars: &Vec<char>, from: usize) -> (r: bool)
    requires
        from <= chars.len(),
    ensures
        r == is_decimal_from(chars@, from as int),
{
    let whole_end = skip_digits(chars, from);
    let fraction: usize = if whole_end < chars.len() && chars[whole_end] == '.' {
        whole_end + 1
    } else {
        whole_end
    };
    let fraction_end = skip_digits(chars, fraction);
    if (whole_end - from) + (fraction_end - fraction) == 0 {
        return false;
    }
    fraction_end == chars.len() || exponent_from(chars, fraction_end)
}

/// Whether `chars` is a numeral.
pub fn numeral(chars: &Vec<char>) -> (r: bool)
    ensures
        r == is_numeral(chars@),
{
    let from: usize = if chars.len() > 0 && (chars[0] == '+' || chars[0] == '-') {
        1
    } else {
        0
    };
    let inf: Vec<char> = vec!['i', 'n', 'f'];
    let infinity: Vec<char> = vec!['i', 'n', 'f', 'i', 'n', 'i', 't', 'y'];
    let nan: Vec<char> = vec!['n', 'a', 'n'];
    word_from(chars, from, &inf) || word_from(chars, from, &infinity) || word_from(
        chars,
        from,
        &nan,
    ) || decimal_from(chars, from)
}

} // verus!
