//! Scanning the line that shows a sequence of tokens gives the tokens back,
//! for every kind of token; only a tick must not have a token behind it.

use crate::numeral::{digits_end, is_numeral};
use crate::scanner::{
    continues_word, is_blank, is_delimiter, lemma_quote_end_bounds, lemma_word_end_bounds, line_of,
    quote_end, rendering, renderings, scan, scan_from, single_token, word_end, word_token,
    TokenView,
};
use vstd::prelude::*;

verus! {

/// A word as the scanner reads one where nothing is pending: a first
/// character that is no delimiter, then characters that extend a word.
pub open spec fn is_word(text: Seq<char>) -> bool {
    &&& text.len() > 0
    &&& !is_delimiter(text[0])
    &&& forall|i: int| 1 <= i < text.len() ==> continues_word(#[trigger] text[i])
}

/// Quoted text as the scanner reads it where nothing is pending: one
/// character at least, and no quote behind the first character.
pub open spec fn is_quotable(text: Seq<char>) -> bool {
    &&& text.len() > 0
    &&& forall|i: int| 1 <= i < text.len() ==> #[trigger] text[i] != '\''
}

/// A token that can be read back from the text that shows it: a
/// parenthesis, an operator, `$`, a keyword, the token of a word, or
/// quoted text that the scanner can have read. A tick is not plain: the
/// scanner takes the character behind a tick as text, whatever it is, so
/// that a tick is read back only where it ends the line.
pub open spec fn is_plain(token: TokenView) -> bool {
    match token {
        TokenView::Symbol(text) => is_word(text) && word_token(text) == token,
        TokenView::Number(text) => is_word(text) && word_token(text) == token,
        TokenView::String(text) => is_quotable(text),
        TokenView::Tick => false,
        _ => true,
    }
}

/// The two keywords are words, and no numerals.
proof fn lemma_keywords_are_words()
    ensures
        is_word("defun"@),
        word_token("defun"@) == TokenView::Defun,
        is_word("defvar"@),
        word_token("defvar"@) == TokenView::Defvar,
{
    reveal_strlit("defun");
    reveal_strlit("defvar");
    let defun = "defun"@;
    let defvar = "defvar"@;
    assert(defun.len() == 5 && defvar.len() == 6);
    assert(defun[0] == 'd' && defun[1] == 'e' && defun[2] == 'f' && defun[3] == 'u' && defun[4]
        == 'n');
    assert(defvar[0] == 'd' && defvar[1] == 'e' && defvar[2] == 'f' && defvar[3] == 'v'
        && defvar[4] == 'a' && defvar[5] == 'r');
    assert(digits_end(defun, 0) == 0);
    assert(digits_end(defvar, 0) == 0);
    assert(!is_numeral(defun));
    assert(!is_numeral(defvar));
    assert(defun != defvar);
}

proof fn lemma_word_end_shift(a: Seq<char>, b: Seq<char>, i: int)
    requires
        0 <= i <= b.len(),
    ensures
        word_end(a + b, a.len() + i) == a.len() + word_end(b, i),
    decreases b.len() - i,
{
    if i < b.len() {
        assert((a + b)[a.len() + i] == b[i]);
        if continues_word(b[i]) {
            lemma_word_end_shift(a, b, i + 1);
        }
    }
}

proof fn lemma_quote_end_shift(a: Seq<char>, b: Seq<char>, i: int)
    requires
        0 <= i <= b.len(),
    ensures
        quote_end(a + b, a.len() + i) == a.len() + quote_end(b, i),
    decreases b.len() - i,
{
    if i < b.len() {
        assert((a + b)[a.len() + i] == b[i]);
        if b[i] != '\'' {
            lemma_quote_end_shift(a, b, i + 1);
        }
    }
}

/// The scanner only looks ahead: what it makes of a text from some place on
/// does not depend on what stands before that place.
proof fn lemma_scan_shift(a: Seq<char>, b: Seq<char>, pos: int, pending: Seq<char>)
    requires
        0 <= pos <= b.len(),
    ensures
        scan_from(a + b, a.len() + pos, pending) == scan_from(b, pos, pending),
    decreases b.len() - pos,
{
    let s = a + b;
    let k = a.len() as int;
    if pos < b.len() {
        assert(s[k + pos] == b[pos]);
        let c = b[pos];
        if is_blank(c) {
            lemma_scan_shift(a, b, pos + 1, pending);
        } else if single_token(c) is Some {
            lemma_scan_shift(a, b, pos + 1, pending);
        } else if c == '\'' {
            if pos + 1 >= b.len() {
                lemma_scan_shift(a, b, pos + 1, pending);
            } else {
                assert(s[k + pos + 1] == b[pos + 1]);
                lemma_quote_end_shift(a, b, pos + 2);
                lemma_quote_end_bounds(b, pos + 2);
                let close = quote_end(b, pos + 2);
                if close < b.len() {
                    assert(s.subrange(k + pos + 1, k + close) =~= b.subrange(pos + 1, close));
                    lemma_scan_shift(a, b, close + 1, seq![]);
                } else {
                    lemma_scan_shift(a, b, pos + 2, pending.push(b[pos + 1]));
                }
            }
        } else {
            lemma_word_end_shift(a, b, pos + 1);
            lemma_word_end_bounds(b, pos + 1);
            let end = word_end(b, pos + 1);
            assert(s.subrange(k + pos, k + end) =~= b.subrange(pos, end));
            lemma_scan_shift(a, b, end, seq![]);
        }
    }
}

proof fn lemma_word_end_is(s: Seq<char>, from: int, end: int)
    requires
        0 <= from <= end <= s.len(),
        forall|i: int| from <= i < end ==> continues_word(#[trigger] s[i]),
        end == s.len() || !continues_word(s[end]),
    ensures
        word_end(s, from) == end,
    decreases end - from,
{
    if from < end {
        lemma_word_end_is(s, from + 1, end);
    }
}

proof fn lemma_quote_end_is(s: Seq<char>, from: int, end: int)
    requires
        0 <= from <= end <= s.len(),
        forall|i: int| from <= i < end ==> #[trigger] s[i] != '\'',
        end == s.len() || s[end] == '\'',
    ensures
        quote_end(s, from) == end,
    decreases end - from,
{
    if from < end {
        lemma_quote_end_is(s, from + 1, end);
    }
}

proof fn lemma_quote_end_covers(s: Seq<char>, from: int)
    requires
        0 <= from <= s.len(),
    ensures
        forall|i: int| from <= i < quote_end(s, from) ==> #[trigger] s[i] != '\'',
    decreases s.len() - from,
{
    if from < s.len() && s[from] != '\'' {
        lemma_quote_end_covers(s, from + 1);
    }
}

proof fn lemma_word_end_covers(s: Seq<char>, from: int)
    requires
        0 <= from <= s.len(),
    ensures
        forall|i: int| from <= i < word_end(s, from) ==> continues_word(#[trigger] s[i]),
    decreases s.len() - from,
{
    if from < s.len() && continues_word(s[from]) {
        lemma_word_end_covers(s, from + 1);
    }
}

/// A character that makes a token by itself is read as that token,
/// whatever follows it.
proof fn lemma_scan_single(c: char, rest: Seq<char>)
    requires
        single_token(c) is Some,
    ensures
        scan_from(seq![c] + rest, 0, seq![]) == seq![single_token(c)->0] + scan_from(
            rest,
            0,
            seq![],
        ),
{
    let s = seq![c] + rest;
    assert(s[0] == c);
    lemma_scan_shift(seq![c], rest, 0, seq![]);
}

/// A word is read as its token if the text ends behind it or goes on with
/// a space.
proof fn lemma_scan_word(word: Seq<char>, rest: Seq<char>)
    requires
        is_word(word),
        rest.len() == 0 || rest[0] == ' ',
    ensures
        scan_from(word + rest, 0, seq![]) == seq![word_token(word)] + scan_from(rest, 0, seq![]),
{
    let s = word + rest;
    let n = word.len() as int;
    assert(s[0] == word[0]);
    assert forall|i: int| 1 <= i < n implies continues_word(#[trigger] s[i]) by {
        assert(s[i] == word[i]);
    }
    if rest.len() > 0 {
        assert(s[n] == rest[0]);
    }
    lemma_word_end_is(s, 1, n);
    assert(Seq::<char>::empty() + s.subrange(0, n) =~= word);
    lemma_scan_shift(word, rest, 0, seq![]);
}

/// Quoted text is read back from between its two quotes, whatever follows
/// the second quote.
proof fn lemma_scan_quoted(text: Seq<char>, rest: Seq<char>)
    requires
        is_quotable(text),
    ensures
        scan_from(rendering(TokenView::String(text)) + rest, 0, seq![]) == seq![
            TokenView::String(text),
        ] + scan_from(rest, 0, seq![]),
{
    let shown = rendering(TokenView::String(text));
    let s = shown + rest;
    let n = text.len() as int;
    assert(shown.len() == n + 2);
    assert(s[0] == '\'');
    assert(s[n + 1] == '\'') by {
        assert(shown[n + 1] == '\'');
    }
    assert forall|i: int| 2 <= i < n + 1 implies #[trigger] s[i] != '\'' by {
        assert(s[i] == shown[i]);
        assert(shown[i] == text[i - 1]);
    }
    lemma_quote_end_is(s, 2, n + 1);
    assert(Seq::<char>::empty() + s.subrange(1, n + 1) =~= text);
    lemma_scan_shift(shown, rest, 0, seq![]);
}

/// A plain token is read back from its text if the line ends behind it or
/// goes on with a space.
proof fn lemma_scan_plain_token(token: TokenView, rest: Seq<char>)
    requires
        is_plain(token),
        rest.len() == 0 || rest[0] == ' ',
    ensures
        scan_from(rendering(token) + rest, 0, seq![]) == seq![token] + scan_from(rest, 0, seq![]),
{
    match token {
        TokenView::Symbol(text) => lemma_scan_word(text, rest),
        TokenView::Number(text) => lemma_scan_word(text, rest),
        TokenView::Defun => {
            lemma_keywords_are_words();
            lemma_scan_word("defun"@, rest);
        },
        TokenView::Defvar => {
            lemma_keywords_are_words();
            lemma_scan_word("defvar"@, rest);
        },
        TokenView::String(text) => lemma_scan_quoted(text, rest),
        TokenView::Tick => {},
        TokenView::LeftParen => {
            reveal_strlit("(");
            assert("("@ =~= seq!['(']);
            lemma_scan_single('(', rest);
        },
        TokenView::RightParen => {
            reveal_strlit(")");
            assert(")"@ =~= seq![')']);
            lemma_scan_single(')', rest);
        },
        TokenView::Plus => {
            reveal_strlit("+");
            assert("+"@ =~= seq!['+']);
            lemma_scan_single('+', rest);
        },
        TokenView::Minus => {
            reveal_strlit("-");
            assert("-"@ =~= seq!['-']);
            lemma_scan_single('-', rest);
        },
        TokenView::Asterisk => {
            reveal_strlit("*");
            assert("*"@ =~= seq!['*']);
            lemma_scan_single('*', rest);
        },
        TokenView::ForwardSlash => {
            reveal_strlit("/");
            assert("/"@ =~= seq!['/']);
            lemma_scan_single('/', rest);
        },
        TokenView::Carat => {
            reveal_strlit("^");
            assert("^"@ =~= seq!['^']);
            lemma_scan_single('^', rest);
        },
        TokenView::Dollar => {
            reveal_strlit("$");
            assert("$"@ =~= seq!['$']);
            lemma_scan_single('$', rest);
        },
    }
}

/// The tokens of `tokens` are plain, but that the last of them may be a
/// tick: a tick that ends the line has no character behind it.
pub open spec fn scans_back(tokens: Seq<TokenView>) -> bool {
    forall|i: int|
        0 <= i < tokens.len() ==> is_plain(#[trigger] tokens[i]) || (i == tokens.len() - 1
            && tokens[i] == TokenView::Tick)
}

/// Plain tokens, with or without a tick behind the last of them, are read
/// back from the line that shows them.
pub proof fn lemma_line_scans_back(tokens: Seq<TokenView>)
    requires
        scans_back(tokens),
    ensures
        scan(line_of(tokens)) == tokens,
    decreases tokens.len(),
{
    let empty = Seq::<char>::empty();
    if tokens.len() == 0 {
        assert(line_of(tokens) =~= empty);
    } else if tokens.len() == 1 {
        assert(line_of(tokens) =~= rendering(tokens[0]) + empty);
        if tokens[0] == TokenView::Tick {
            reveal_strlit("'");
            let line = line_of(tokens);
            assert(line.len() == 1 && line[0] == '\'');
            assert(scan_from(line, 1, seq![]) =~= Seq::<TokenView>::empty());
            assert(scan(line) =~= seq![TokenView::Tick]);
            assert(seq![TokenView::Tick] =~= tokens);
        } else {
            lemma_scan_plain_token(tokens[0], empty);
            assert(seq![tokens[0]] + Seq::<TokenView>::empty() =~= tokens);
        }
    } else {
        let others = tokens.drop_first();
        let after = line_of(others);
        let rest = seq![' '] + after;
        assert(renderings(tokens).drop_first() =~= renderings(others));
        assert(line_of(tokens) =~= rendering(tokens[0]) + rest);
        assert(is_plain(tokens[0]));
        lemma_scan_plain_token(tokens[0], rest);
        assert(rest[0] == ' ');
        lemma_scan_shift(seq![' '], after, 0, seq![]);
        assert(scans_back(others)) by {
            assert forall|i: int| 0 <= i < others.len() implies is_plain(#[trigger] others[i]) || (
            i == others.len() - 1 && others[i] == TokenView::Tick) by {
                assert(others[i] == tokens[i + 1]);
            }
        }
        lemma_line_scans_back(others);
        assert(seq![tokens[0]] + others =~= tokens);
    }
}

/// Quoted text holds text that can be quoted; any other token is as it
/// may be.
pub open spec fn holds_quotable(token: TokenView) -> bool {
    match token {
        TokenView::String(text) => is_quotable(text),
        _ => true,
    }
}

/// From `pos` on, whatever quoted text the scanner makes can be quoted
/// again, provided that no text is pending where a quote is still to come.
proof fn lemma_scanned_strings(s: Seq<char>, pos: int, pending: Seq<char>)
    requires
        0 <= pos,
        pending.len() > 0 ==> forall|i: int| pos <= i < s.len() ==> s[i] != '\'',
    ensures
        forall|j: int|
            0 <= j < scan_from(s, pos, pending).len() ==> holds_quotable(
                #[trigger] scan_from(s, pos, pending)[j],
            ),
    decreases s.len() - pos,
{
    let tokens = scan_from(s, pos, pending);
    if pos < s.len() && is_blank(s[pos]) {
        assert(tokens == scan_from(s, pos + 1, pending));
        lemma_scanned_strings(s, pos + 1, pending);
    } else if pos < s.len() {
        let c = s[pos];
        let first: TokenView;
        let next: int;
        let left: Seq<char>;
        if single_token(c) is Some {
            first = single_token(c)->0;
            next = pos + 1;
            left = pending;
        } else if c == '\'' {
            assert(pending.len() == 0);
            let close = quote_end(s, pos + 2);
            if pos + 1 >= s.len() {
                first = TokenView::Tick;
                next = pos + 1;
                left = pending;
            } else if pos + 2 <= close < s.len() {
                let text = s.subrange(pos + 1, close);
                lemma_quote_end_covers(s, pos + 2);
                assert(pending + text =~= text);
                assert(is_quotable(text)) by {
                    assert forall|i: int| 1 <= i < text.len() implies #[trigger] text[i]
                        != '\'' by {
                        assert(text[i] == s[pos + 1 + i]);
                    }
                }
                first = TokenView::String(text);
                next = close + 1;
                left = seq![];
            } else {
                lemma_quote_end_covers(s, pos + 2);
                lemma_quote_end_bounds(s, pos + 2);
                first = TokenView::Tick;
                next = pos + 2;
                left = pending.push(s[pos + 1]);
            }
        } else {
            lemma_word_end_bounds(s, pos + 1);
            let end = word_end(s, pos + 1);
            first = word_token(pending + s.subrange(pos, end));
            next = end;
            left = seq![];
        }
        let rest = scan_from(s, next, left);
        assert(tokens == seq![first] + rest);
        assert(holds_quotable(first));
        lemma_scanned_strings(s, next, left);
        assert forall|j: int| 0 <= j < tokens.len() implies holds_quotable(
            #[trigger] tokens[j],
        ) by {
            if j > 0 {
                assert(tokens[j] == rest[j - 1]);
            }
        }
    }
}

/// Every quoted text that the scanner makes of a line can be quoted again:
/// it holds one character at least, and no quote behind the first.
pub proof fn lemma_scanned_strings_are_quotable(line: Seq<char>)
    ensures
        forall|j: int| 0 <= j < scan(line).len() ==> holds_quotable(#[trigger] scan(line)[j]),
{
    lemma_scanned_strings(line, 0, seq![]);
}

/// A plain token, shown by itself, is read back as itself. So is each of
/// the parentheses, the operators, `$` and the two keywords, which are
/// plain whatever they hold.
pub proof fn lemma_token_scans_back(token: TokenView)
    requires
        is_plain(token),
    ensures
        scan(rendering(token)) == seq![token],
{
    let empty = Seq::<char>::empty();
    lemma_scan_plain_token(token, empty);
    assert(rendering(token) + empty =~= rendering(token));
    assert(seq![token] + Seq::<TokenView>::empty() =~= seq![token]);
}

/// Each of the two parentheses, the five operators, `$` and the two
/// keywords is read back from its text.
pub proof fn lemma_fixed_tokens_scan_back()
    ensures
        scan("("@) == seq![TokenView::LeftParen],
        scan(")"@) == seq![TokenView::RightParen],
        scan("+"@) == seq![TokenView::Plus],
        scan("-"@) == seq![TokenView::Minus],
        scan("*"@) == seq![TokenView::Asterisk],
        scan("/"@) == seq![TokenView::ForwardSlash],
        scan("^"@) == seq![TokenView::Carat],
        scan("$"@) == seq![TokenView::Dollar],
        scan("defun"@) == seq![TokenView::Defun],
        scan("defvar"@) == seq![TokenView::Defvar],
{
    lemma_token_scans_back(TokenView::LeftParen);
    lemma_token_scans_back(TokenView::RightParen);
    lemma_token_scans_back(TokenView::Plus);
    lemma_token_scans_back(TokenView::Minus);
    lemma_token_scans_back(TokenView::Asterisk);
    lemma_token_scans_back(TokenView::ForwardSlash);
    lemma_token_scans_back(TokenView::Carat);
    lemma_token_scans_back(TokenView::Dollar);
    lemma_token_scans_back(TokenView::Defun);
    lemma_token_scans_back(TokenView::Defvar);
}

/// Pending text makes a token at the latest where the line ends.
proof fn lemma_pending_makes_a_token(s: Seq<char>, pos: int, pending: Seq<char>)
    requires
        0 <= pos,
        pending.len() > 0,
    ensures
        scan_from(s, pos, pending).len() > 0,
    decreases s.len() - pos,
{
    if pos < s.len() && is_blank(s[pos]) {
        lemma_pending_makes_a_token(s, pos + 1, pending);
    } else if pos < s.len() {
        lemma_word_end_bounds(s, pos + 1);
        let tokens = scan_from(s, pos, pending);
        if single_token(s[pos]) is Some {
            assert(tokens == seq![single_token(s[pos])->0] + scan_from(s, pos + 1, pending));
        } else if s[pos] != '\'' {
            let end = word_end(s, pos + 1);
            assert(tokens == seq![word_token(pending + s.subrange(pos, end))] + scan_from(
                s,
                end,
                seq![],
            ));
        }
    }
}

/// No tick stands among `tokens` but, at most, as the last of them.
pub open spec fn ticks_only_last(tokens: Seq<TokenView>) -> bool {
    forall|j: int| 0 <= j < tokens.len() - 1 ==> #[trigger] tokens[j] != TokenView::Tick
}

/// Where the scanner makes no tick of a text but at its end, nothing is
/// ever pending, and every token that it makes before that tick is plain.
proof fn lemma_scan_is_plain(s: Seq<char>, pos: int)
    requires
        0 <= pos,
        ticks_only_last(scan_from(s, pos, seq![])),
    ensures
        scans_back(scan_from(s, pos, seq![])),
    decreases s.len() - pos,
{
    let tokens = scan_from(s, pos, seq![]);
    if pos < s.len() && is_blank(s[pos]) {
        assert(tokens == scan_from(s, pos + 1, seq![]));
        lemma_scan_is_plain(s, pos + 1);
    } else if pos < s.len() {
        let c = s[pos];
        let first: TokenView;
        let next: int;
        if single_token(c) is Some {
            first = single_token(c)->0;
            next = pos + 1;
        } else if c == '\'' {
            let close = quote_end(s, pos + 2);
            if pos + 1 >= s.len() {
                // a tick that ends the line
                first = TokenView::Tick;
                next = pos + 1;
                assert(scan_from(s, next, seq![]) =~= Seq::<TokenView>::empty());
            } else if pos + 2 <= close < s.len() {
                let text = s.subrange(pos + 1, close);
                lemma_quote_end_covers(s, pos + 2);
                assert(Seq::<char>::empty() + text =~= text);
                assert(is_quotable(text)) by {
                    assert forall|i: int| 1 <= i < text.len() implies #[trigger] text[i]
                        != '\'' by {
                        assert(text[i] == s[pos + 1 + i]);
                    }
                }
                first = TokenView::String(text);
                next = close + 1;
            } else {
                // a tick with a character behind it, which makes a further
                // token: the scanner makes no such tick of this text
                let pending = Seq::<char>::empty().push(s[pos + 1]);
                lemma_pending_makes_a_token(s, pos + 2, pending);
                assert(tokens == seq![TokenView::Tick] + scan_from(s, pos + 2, pending));
                assert(tokens.len() > 1 && tokens[0] == TokenView::Tick);
                first = TokenView::Tick;
                next = pos + 1;
            }
        } else {
            lemma_word_end_bounds(s, pos + 1);
            lemma_word_end_covers(s, pos + 1);
            let end = word_end(s, pos + 1);
            let text = s.subrange(pos, end);
            assert(Seq::<char>::empty() + text =~= text);
            assert(is_word(text)) by {
                assert(text[0] == s[pos]);
                assert forall|i: int| 1 <= i < text.len() implies continues_word(
                    #[trigger] text[i],
                ) by {
                    assert(text[i] == s[pos + i]);
                }
            }
            first = word_token(text);
            next = end;
        }
        let rest = scan_from(s, next, seq![]);
        assert(tokens == seq![first] + rest);
        assert(is_plain(first) || (rest.len() == 0 && first == TokenView::Tick));
        assert(ticks_only_last(rest)) by {
            assert forall|j: int| 0 <= j < rest.len() - 1 implies #[trigger] rest[j]
                != TokenView::Tick by {
                assert(rest[j] == tokens[j + 1]);
            }
        }
        lemma_scan_is_plain(s, next);
        assert forall|j: int| 0 <= j < tokens.len() implies is_plain(#[trigger] tokens[j]) || (j
            == tokens.len() - 1 && tokens[j] == TokenView::Tick) by {
            if j > 0 {
                assert(tokens[j] == rest[j - 1]);
            }
        }
    }
}

/// Scanning a line, showing its tokens with one space between every two of
/// them, and scanning what is shown gives the tokens of the line again,
/// for every kind of token. One kind of line is left out: that of which
/// the scanner makes a tick with a token behind it. The character behind
/// such a tick is taken as text, whatever it is, and in what is shown that
/// character is the space between the tick and the next token.
pub proof fn lemma_scan_round_trip(line: Seq<char>)
    requires
        ticks_only_last(scan(line)),
    ensures
        scan(line_of(scan(line))) == scan(line),
{
    lemma_scan_is_plain(line, 0);
    lemma_line_scans_back(scan(line));
}

} // verus!
