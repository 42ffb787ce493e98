//! Conversions between strings and sequences of characters.

use itertools::Itertools;
use vstd::prelude::*;

verus! {

/// `String::push` appends one character to the end of the string.
pub assume_specification[ std::string::String::push ](s: &mut std::string::String, c: char)
    ensures
        final(s)@ == old(s)@.push(c),
;

/// The character sequences of `texts`.
pub open spec fn text_views(texts: Seq<String>) -> Seq<Seq<char>> {
    texts.map_values(|text: String| text@)
}

/// The texts of `parts`, in order, with `sep` between every two of them.
pub open spec fn joined_text(parts: Seq<Seq<char>>, sep: Seq<char>) -> Seq<char>
    decreases parts.len(),
{
    if parts.len() == 0 {
        seq![]
    } else if parts.len() == 1 {
        parts[0]
    } else {
        parts[0] + sep + joined_text(parts.drop_first(), sep)
    }
}

/// `Itertools::join` on the strings of `parts`: it writes the first string,
/// and then, for each further one, the separator and that string. It sizes
/// its result beforehand by the separator's length in bytes times the number
/// of further strings; with a separator of one character at most, that
/// product is below what a vector of strings can make overflow.
#[verifier::external_body]
pub(crate) fn join(parts: &Vec<String>, sep: &str) -> (joined: String)
    requires
        sep@.len() <= 1,
    ensures
        joined@ == joined_text(text_views(parts@), sep@),
{
    parts.iter().join(sep)
}

/// What formatting `s` with `{:?}` gives: `s` between double quotes, with
/// the characters escaped that `str`'s `Debug` escapes.
pub uninterp spec fn debug_text(s: Seq<char>) -> Seq<char>;

/// Formats a string with `{:?}`, that is by `str`'s `Debug`. The text that
/// comes out depends on the characters of the string alone.
#[verifier::external_body]
pub(crate) fn debug(s: &str) -> (text: String)
    ensures
        text@ == debug_text(s@),
{
    format!("{:?}", s)
}

/// The characters of `s`, in order.
pub fn chars_of(s: &str) -> (chars: Vec<char>)
    ensures
        chars@ == s@,
{
    let mut chars: Vec<char> = Vec::new();
    for c in it: s.chars()
        invariant
            it.seq() == s@,
            chars@ == it.history(),
    {
        chars.push(c);
    }
    chars
}

/// The string made of `chars[from..to]`.
pub fn text_of(chars: &Vec<char>, from: usize, to: usize) -> (text: String)
    requires
        from <= to <= chars.len(),
    ensures
        text@ == chars@.subrange(from as int, to as int),
{
    let mut text = String::new();
    let mut i: usize = from;
    while i < to
        invariant
            from <= i <= to <= chars.len(),
            text@ == chars@.subrange(from as int, i as int),
        decreases to - i,
    {
        text.push(chars[i]);
        i += 1;
        assert(chars@.subrange(from as int, i as int) == chars@.subrange(from as int, i - 1).push(
            chars@[i - 1],
        ));
    }
    text
}

/// Whether `a` and `b` hold the same characters.
pub fn same_text(a: &str, b: &str) -> (same: bool)
    ensures
        same == (a@ == b@),
{
    let left = chars_of(a);
    let right = chars_of(b);
    if left.len() != right.len() {
        return false;
    }
    let mut i: usize = 0;
    while i < left.len()
        invariant
            left@ == a@,
            right@ == b@,
            left.len() == right.len(),
            i <= left.len(),
            left@.subrange(0, i as int) == right@.subrange(0, i as int),
        decreases left.len() - i,
    {
        if left[i] != right[i] {
            assert(left@[i as int] != right@[i as int]);
            return false;
        }
        i += 1;
        assert(left@.subrange(0, i as int) == left@.subrange(0, i - 1).push(left@[i - 1]));
        assert(right@.subrange(0, i as int) == right@.subrange(0, i - 1).push(right@[i - 1]));
    }
    assert(left@ == left@.subrange(0, left.len() as int));
    assert(right@ == right@.subrange(0, right.len() as int));
    true
}

} // verus!
