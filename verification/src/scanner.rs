//! Tokens, and the scanner that turns a line of text into tokens.

use crate::numeral::{is_numeral, numeral};
use crate::text::{chars_of, join, joined_text, same_text, text_of, text_views};
use vstd::prelude::*;
use vstd::string::StringExecFns;

verus! {

/// One lexical unit of a line.
#[derive(Debug)]
pub enum Token {
    LeftParen,
    RightParen,
    /// A name: any word that is neither a numeral nor a keyword.
    Symbol(String),
    Plus,
    Minus,
    Asterisk,
    ForwardSlash,
    /// Quoted text, without its quotes.
    String(String),
    /// A numeral, as it was written.
    Number(String),
    Defun,
    Defvar,
    Carat,
    Dollar,
    /// A quote that opens no quoted text.
    Tick,
}

/// The mathematical value of a [`Token`].
pub enum TokenView {
    LeftParen,
    RightParen,
    Symbol(Seq<char>),
    Plus,
    Minus,
    Asterisk,
    ForwardSlash,
    String(Seq<char>),
    Number(Seq<char>),
    Defun,
    Defvar,
    Carat,
    Dollar,
    Tick,
}

impl View for Token {
    type V = TokenView;

    open spec fn view(&self) -> TokenView {
        match self {
            Token::LeftParen => TokenView::LeftParen,
            Token::RightParen => TokenView::RightParen,
            Token::Symbol(s) => TokenView::Symbol(s@),
            Token::Plus => TokenView::Plus,
            Token::Minus => TokenView::Minus,
            Token::Asterisk => TokenView::Asterisk,
            Token::ForwardSlash => TokenView::ForwardSlash,
            Token::String(s) => TokenView::String(s@),
            Token::Number(s) => TokenView::Number(s@),
            Token::Defun => TokenView::Defun,
            Token::Defvar => TokenView::Defvar,
            Token::Carat => TokenView::Carat,
            Token::Dollar => TokenView::Dollar,
            Token::Tick => TokenView::Tick,
        }
    }
}

/// The values of a sequence of tokens.
pub open spec fn token_views(tokens: Seq<Token>) -> Seq<TokenView> {
    tokens.map_values(|t: Token| t@)
}

impl Clone for Token {
    fn clone(&self) -> (copy: Self)
        ensures
            copy == *self,
    {
        match self {
            Token::LeftParen => Token::LeftParen,
            Token::RightParen => Token::RightParen,
            Token::Symbol(s) => Token::Symbol(s.clone()),
            Token::Plus => Token::Plus,
            Token::Minus => Token::Minus,
            Token::Asterisk => Token::Asterisk,
            Token::ForwardSlash => Token::ForwardSlash,
            Token::String(s) => Token::String(s.clone()),
            Token::Number(s) => Token::Number(s.clone()),
            Token::Defun => Token::Defun,
            Token::Defvar => Token::Defvar,
            Token::Carat => Token::Carat,
            Token::Dollar => Token::Dollar,
            Token::Tick => Token::Tick,
        }
    }
}

impl PartialEq for Token {
    fn eq(&self, other: &Self) -> (same: bool) {
        match (self, other) {
            (Token::LeftParen, Token::LeftParen) => true,
            (Token::RightParen, Token::RightParen) => true,
            (Token::Symbol(a), Token::Symbol(b)) => same_text(a.as_str(), b.as_str()),
            (Token::Plus, Token::Plus) => true,
            (Token::Minus, Token::Minus) => true,
            (Token::Asterisk, Token::Asterisk) => true,
            (Token::ForwardSlash, Token::ForwardSlash) => true,
            (Token::String(a), Token::String(b)) => same_text(a.as_str(), b.as_str()),
            (Token::Number(a), Token::Number(b)) => same_text(a.as_str(), b.as_str()),
            (Token::Defun, Token::Defun) => true,
            (Token::Defvar, Token::Defvar) => true,
            (Token::Carat, Token::Carat) => true,
            (Token::Dollar, Token::Dollar) => true,
            (Token::Tick, Token::Tick) => true,
            _ => false,
        }
    }
}

impl vstd::std_specs::cmp::PartialEqSpecImpl for Token {
    open spec fn obeys_eq_spec() -> bool {
        true
    }

    open spec fn eq_spec(&self, other: &Self) -> bool {
        self@ == other@
    }
}

/// The text that shows a token: punctuation and keywords as they are
/// written, a symbol or a number as its text, quoted text between two
/// quotes, as the scanner reads it.
pub open spec fn rendering(token: TokenView) -> Seq<char> {
    match token {
        TokenView::LeftParen => "("@,
        TokenView::RightParen => ")"@,
        TokenView::Symbol(s) => s,
        TokenView::Plus => "+"@,
        TokenView::Minus => "-"@,
        TokenView::Asterisk => "*"@,
        TokenView::ForwardSlash => "/"@,
        TokenView::String(s) => seq!['\''] + s + seq!['\''],
        TokenView::Number(s) => s,
        TokenView::Defun => "defun"@,
        TokenView::Defvar => "defvar"@,
        TokenView::Carat => "^"@,
        TokenView::Dollar => "$"@,
        TokenView::Tick => "'"@,
    }
}

impl Token {
    /// The text that shows this token.
    pub fn render(&self) -> (text: String)
        ensures
            text@ == rendering(self@),
    {
        match self {
            Token::LeftParen => "(".to_owned(),
            Token::RightParen => ")".to_owned(),
            Token::Symbol(s) => s.clone(),
            Token::Plus => "+".to_owned(),
            Token::Minus => "-".to_owned(),
            Token::Asterisk => "*".to_owned(),
            Token::ForwardSlash => "/".to_owned(),
            Token::String(s) => {
                let mut text = String::new();
                text.push('\'');
                text.append(s.as_str());
                text.push('\'');
                assert(text@ =~= seq!['\''] + s@ + seq!['\'']);
                text
            },
            Token::Number(s) => s.clone(),
            Token::Defun => "defun".to_owned(),
            Token::Defvar => "defvar".to_owned(),
            Token::Carat => "^".to_owned(),
            Token::Dollar => "$".to_owned(),
            Token::Tick => "'".to_owned(),
        }
    }
}

/// The texts that show `tokens`.
pub open spec fn renderings(tokens: Seq<TokenView>) -> Seq<Seq<char>> {
    tokens.map_values(|token: TokenView| rendering(token))
}

/// The line that shows `tokens`, with one space between every two of them.
pub open spec fn line_of(tokens: Seq<TokenView>) -> Seq<char> {
    joined_text(renderings(tokens), seq![' '])
}

/// The line that shows `tokens`, with one space between every two of them.
pub fn render_line(tokens: &Vec<Token>) -> (line: String)
    ensures
        line@ == line_of(token_views(tokens@)),
{
    let mut parts: Vec<String> = Vec::new();
    let mut i: usize = 0;
    while i < tokens.len()
        invariant
            i <= tokens.len(),
            text_views(parts@) =~= renderings(token_views(tokens@)).subrange(0, i as int),
        decreases tokens.len() - i,
    {
        let ghost before = text_views(parts@);
        let part = tokens[i].render();
        parts.push(part);
        assert(text_views(parts@) =~= before.push(part@));
        i += 1;
    }
    assert(text_views(parts@) =~= renderings(token_views(tokens@)));
    proof {
        reveal_strlit(" ");
        assert(" "@ =~= seq![' ']);
    }
    join(&parts, " ")
}

/// What `char::is_alphanumeric` answers for `c`.
pub uninterp spec fn alphanumeric(c: char) -> bool;

/// `char::is_alphanumeric` tells whether a character is alphabetic or numeric
/// as Unicode classifies it; its answer depends on the character alone.
pub assume_specification[ char::is_alphanumeric ](c: char) -> (b: bool)
    ensures
        b == alphanumeric(c),
;

/// Spaces, tabs and line feeds separate tokens and are otherwise dropped.
pub open spec fn is_blank(c: char) -> bool {
    c == ' ' || c == '\t' || c == '\n'
}

/// The token that `c` makes by itself, if it makes one.
pub open spec fn single_token(c: char) -> Option<TokenView> {
    if c == '(' {
        Some(TokenView::LeftParen)
    } else if c == ')' {
        Some(TokenView::RightParen)
    } else if c == '+' {
        Some(TokenView::Plus)
    } else if c == '-' {
        Some(TokenView::Minus)
    } else if c == '*' {
        Some(TokenView::Asterisk)
    } else if c == '/' {
        Some(TokenView::ForwardSlash)
    } else if c == '^' {
        Some(TokenView::Carat)
    } else if c == '$' {
        Some(TokenView::Dollar)
    } else {
        None
    }
}

/// Blanks, the single-character tokens and the quote never belong to the
/// rest of a word.
pub open spec fn is_delimiter(c: char) -> bool {
    is_blank(c) || single_token(c) is Some || c == '\''
}

/// The letters and digits of ASCII.
pub open spec fn is_ascii_letter_or_digit(c: char) -> bool {
    ('a' <= c <= 'z') || ('A' <= c <= 'Z') || ('0' <= c <= '9')
}

/// Whether `c` extends a word that has begun: letters, digits and `.` do.
/// The letters and digits of ASCII are told by their codes, so that what
/// holds of a word made of them rests on no table of characters.
pub open spec fn continues_word(c: char) -> bool {
    (is_ascii_letter_or_digit(c) || alphanumeric(c) || c == '.') && !is_delimiter(c)
}

/// The index of the first character at or after `from` that does not extend
/// a word.
pub open spec fn word_end(s: Seq<char>, from: int) -> int
    decreases s.len() - from,
{
    if 0 <= from < s.len() && continues_word(s[from]) {
        word_end(s, from + 1)
    } else {
        from
    }
}

/// The index of the first quote at or after `from`; the length of `s` if
/// there is none.
pub open spec fn quote_end(s: Seq<char>, from: int) -> int
    decreases s.len() - from,
{
    if 0 <= from < s.len() && s[from] != '\'' {
        quote_end(s, from + 1)
    } else {
        from
    }
}

/// The token that a complete word makes: a number if it is a numeral, else a
/// keyword if it is one, else a symbol.
pub open spec fn word_token(text: Seq<char>) -> TokenView {
    if is_numeral(text) {
        TokenView::Number(text)
    } else if text == "defun"@ {
        TokenView::Defun
    } else if text == "defvar"@ {
        TokenView::Defvar
    } else {
        TokenView::Symbol(text)
    }
}

/// The tokens of `s[pos..]`, where `pending` is text that was set aside
/// after a lone quote and waits for the word that it will begin.
///
/// - A blank is dropped.
/// - `( ) + - * / ^ $` make one token each.
/// - A quote, at least one character and a further quote make a `String` of
///   what stands between the two quotes (after the pending text, if any).
/// - A quote that no later quote closes makes a `Tick`, and the character
///   behind it, whatever it is, becomes pending text.
/// - Any other character begins a word, which goes on over letters, digits
///   and `.`; the pending text and the word make one token.
/// - At the end, pending text that is left makes a `Symbol`.
pub open spec fn scan_from(s: Seq<char>, pos: int, pending: Seq<char>) -> Seq<TokenView>
    decreases s.len() - pos,
{
    if pos < 0 || pos >= s.len() {
        if pending.len() > 0 {
            seq![TokenView::Symbol(pending)]
        } else {
            seq![]
        }
    } else if is_blank(s[pos]) {
        scan_from(s, pos + 1, pending)
    } else if single_token(s[pos]) is Some {
        seq![single_token(s[pos])->0] + scan_from(s, pos + 1, pending)
    } else if s[pos] == '\'' {
        if pos + 1 >= s.len() {
            seq![TokenView::Tick] + scan_from(s, pos + 1, pending)
        } else {
            let close = quote_end(s, pos + 2);
            if pos + 2 <= close < s.len() {
                seq![TokenView::String(pending + s.subrange(pos + 1, close))] + scan_from(
                    s,
                    close + 1,
                    seq![],
                )
            } else {
                seq![TokenView::Tick] + scan_from(s, pos + 2, pending.push(s[pos + 1]))
            }
        }
    } else {
        let end = word_end(s, pos + 1);
        if pos < end <= s.len() {
            seq![word_token(pending + s.subrange(pos, end))] + scan_from(s, end, seq![])
        } else {
            seq![]
        }
    }
}

/// The tokens of a line.
pub open spec fn scan(s: Seq<char>) -> Seq<TokenView> {
    scan_from(s, 0, seq![])
}

pub proof fn lemma_word_end_bounds(s: Seq<char>, from: int)
    requires
        0 <= from <= s.len(),
    ensures
        from <= word_end(s, from) <= s.len(),
    decreases s.len() - from,
{
    if from < s.len() && continues_word(s[from]) {
        lemma_word_end_bounds(s, from + 1);
    }
}

pub proof fn lemma_quote_end_bounds(s: Seq<char>, from: int)
    requires
        0 <= from <= s.len(),
    ensures
        from <= quote_end(s, from) <= s.len(),
    decreases s.len() - from,
{
    if from < s.len() && s[from] != '\'' {
        lemma_quote_end_bounds(s, from + 1);
    }
}

/// A number token holds a numeral; any other token is as it may be.
pub open spec fn holds_numeral(token: TokenView) -> bool {
    match token {
        TokenView::Number(text) => is_numeral(text),
        _ => true,
    }
}

/// Every number that the scanner makes holds a numeral.
pub proof fn lemma_scanned_numbers_are_numerals(s: Seq<char>, pos: int, pending: Seq<char>)
    ensures
        forall|j: int|
            0 <= j < scan_from(s, pos, pending).len() ==> holds_numeral(
                #[trigger] scan_from(s, pos, pending)[j],
            ),
    decreases s.len() - pos,
{
    let tokens = scan_from(s, pos, pending);
    if 0 <= pos < s.len() && is_blank(s[pos]) {
        lemma_scanned_numbers_are_numerals(s, pos + 1, pending);
        assert(tokens == scan_from(s, pos + 1, pending));
    } else if 0 <= pos < s.len() {
        let first: TokenView;
        let rest: Seq<TokenView>;
        if single_token(s[pos]) is Some {
            lemma_scanned_numbers_are_numerals(s, pos + 1, pending);
            first = single_token(s[pos])->0;
            rest = scan_from(s, pos + 1, pending);
        } else if s[pos] == '\'' {
            let close = quote_end(s, pos + 2);
            if pos + 1 >= s.len() {
                lemma_scanned_numbers_are_numerals(s, pos + 1, pending);
                first = TokenView::Tick;
                rest = scan_from(s, pos + 1, pending);
            } else if pos + 2 <= close < s.len() {
                lemma_scanned_numbers_are_numerals(s, close + 1, seq![]);
                first = TokenView::String(pending + s.subrange(pos + 1, close));
                rest = scan_from(s, close + 1, seq![]);
            } else {
                lemma_scanned_numbers_are_numerals(s, pos + 2, pending.push(s[pos + 1]));
                first = TokenView::Tick;
                rest = scan_from(s, pos + 2, pending.push(s[pos + 1]));
            }
        } else {
            let end = word_end(s, pos + 1);
            lemma_word_end_bounds(s, pos + 1);
            lemma_scanned_numbers_are_numerals(s, end, seq![]);
            first = word_token(pending + s.subrange(pos, end));
            rest = scan_from(s, end, seq![]);
        }
        assert(tokens == seq![first] + rest);
        assert(holds_numeral(first));
        assert forall|j: int| 0 <= j < tokens.len() implies holds_numeral(#[trigger] tokens[j]) by {
            if j > 0 {
                assert(tokens[j] == rest[j - 1]);
            }
        }
    }
}

fn single(c: char) -> (token: Option<Token>)
    ensures
        token is Some == single_token(c) is Some,
        token is Some ==> token->0@ == single_token(c)->0,
{
    if c == '(' {
        Some(Token::LeftParen)
    } else if c == ')' {
        Some(Token::RightParen)
    } else if c == '+' {
        Some(Token::Plus)
    } else if c == '-' {
        Some(Token::Minus)
    } else if c == '*' {
        Some(Token::Asterisk)
    } else if c == '/' {
        Some(Token::ForwardSlash)
    } else if c == '^' {
        Some(Token::Carat)
    } else if c == '$' {
        Some(Token::Dollar)
    } else {
        None
    }
}

fn blank(c: char) -> (r: bool)
    ensures
        r == is_blank(c),
{
    c == ' ' || c == '\t' || c == '\n'
}

fn extends_word(c: char) -> (r: bool)
    ensures
        r == continues_word(c),
{
    let plain = ('a' <= c && c <= 'z') || ('A' <= c && c <= 'Z') || ('0' <= c && c <= '9');
    (plain || c.is_alphanumeric() || c == '.') && !blank(c) && single(c).is_none() && c != '\''
}

fn find_word_end(chars: &Vec<char>, from: usize) -> (end: usize)
    requires
        from <= chars.len(),
    ensures
        end == word_end(chars@, from as int),
        from <= end <= chars.len(),
{
    let mut end: usize = from;
    while end < chars.len() && extends_word(chars[end])
        invariant
            from <= end <= chars.len(),
            word_end(chars@, from as int) == word_end(chars@, end as int),
        decreases chars.len() - end,
    {
        end += 1;
    }
    end
}

fn find_quote_end(chars: &Vec<char>, from: usize) -> (end: usize)
    requires
        from <= chars.len(),
    ensures
        end == quote_end(chars@, from as int),
        from <= end <= chars.len(),
{
    let mut end: usize = from;
    while end < chars.len() && chars[end] != '\''
        invariant
            from <= end <= chars.len(),
            quote_end(chars@, from as int) == quote_end(chars@, end as int),
        decreases chars.len() - end,
    {
        end += 1;
    }
    end
}

/// Appends `chars[from..to]` to `text`.
fn extend_text(text: &mut Vec<char>, chars: &Vec<char>, from: usize, to: usize)
    requires
        from <= to <= chars.len(),
    ensures
        final(text)@ == old(text)@ + chars@.subrange(from as int, to as int),
{
    let mut i: usize = from;
    while i < to
        invariant
            from <= i <= to <= chars.len(),
            text@ == old(text)@ + chars@.subrange(from as int, i as int),
        decreases to - i,
    {
        text.push(chars[i]);
        i += 1;
        assert(chars@.subrange(from as int, i as int) == chars@.subrange(from as int, i - 1).push(
            chars@[i - 1],
        ));
    }
}

fn make_word(text: &Vec<char>) -> (token: Token)
    ensures
        token@ == word_token(text@),
{
    let word = text_of(text, 0, text.len());
    assert(text@.subrange(0, text.len() as int) == text@);
    if numeral(text) {
        Token::Number(word)
    } else if same_text(word.as_str(), "defun") {
        Token::Defun
    } else if same_text(word.as_str(), "defvar") {
        Token::Defvar
    } else {
        Token::Symbol(word)
    }
}

/// Scans one line of text into its tokens. Every text has tokens: what is no
/// number, keyword, operator or parenthesis becomes a symbol.
pub fn scan_tokens(input: &str) -> (tokens: Vec<Token>)
    ensures
        token_views(tokens@) == scan(input@),
{
    let chars = chars_of(input);
    let mut tokens: Vec<Token> = Vec::new();
    let mut pending: Vec<char> = Vec::new();
    let mut pos: usize = 0;
    assert(token_views(tokens@) =~= seq![]);
    while pos < chars.len()
        invariant
            pos <= chars.len(),
            chars@ == input@,
            token_views(tokens@) + scan_from(chars@, pos as int, pending@) == scan(input@),
        decreases chars.len() - pos,
    {
        let c = chars[pos];
        let ghost before = token_views(tokens@);
        let ghost rest = scan_from(chars@, pos as int, pending@);
        if blank(c) {
            pos += 1;
        } else if let Some(token) = single(c) {
            tokens.push(token);
            pos += 1;
            proof {
                let after = scan_from(chars@, pos as int, pending@);
                assert(token_views(tokens@) =~= before.push(token@));
                assert(before.push(token@) + after =~= before + (seq![token@] + after));
            }
        } else if c == '\'' {
            if pos + 1 >= chars.len() {
                tokens.push(Token::Tick);
                pos += 1;
                proof {
                    let after = scan_from(chars@, pos as int, pending@);
                    assert(token_views(tokens@) =~= before.push(TokenView::Tick));
                    assert(before.push(TokenView::Tick) + after =~= before + (seq![TokenView::Tick]
                        + after));
                }
            } else {
                let close = find_quote_end(&chars, pos + 2);
                if close < chars.len() {
                    extend_text(&mut pending, &chars, pos + 1, close);
                    let token = Token::String(text_of(&pending, 0, pending.len()));
                    assert(pending@.subrange(0, pending.len() as int) == pending@);
                    tokens.push(token);
                    pending = Vec::new();
                    pos = close + 1;
                    proof {
                        let after = scan_from(chars@, pos as int, pending@);
                        assert(pending@ =~= seq![]);
                        assert(token_views(tokens@) =~= before.push(token@));
                        assert(before.push(token@) + after =~= before + (seq![token@] + after));
                    }
                } else {
                    tokens.push(Token::Tick);
                    pending.push(chars[pos + 1]);
                    pos += 2;
                    proof {
                        let after = scan_from(chars@, pos as int, pending@);
                        assert(token_views(tokens@) =~= before.push(TokenView::Tick));
                        assert(before.push(TokenView::Tick) + after =~= before + (
                        seq![TokenView::Tick] + after));
                    }
                }
            }
        } else {
            let end = find_word_end(&chars, pos + 1);
            extend_text(&mut pending, &chars, pos, end);
            let token = make_word(&pending);
            tokens.push(token);
            pending = Vec::new();
            pos = end;
            proof {
                let after = scan_from(chars@, pos as int, pending@);
                assert(pending@ =~= seq![]);
                assert(token_views(tokens@) =~= before.push(token@));
                assert(before.push(token@) + after =~= before + (seq![token@] + after));
            }
        }
    }
    if pending.len() > 0 {
        let token = Token::Symbol(text_of(&pending, 0, pending.len()));
        assert(pending@.subrange(0, pending.len() as int) == pending@);
        let ghost before = token_views(tokens@);
        tokens.push(token);
        assert(token_views(tokens@) =~= before.push(token@));
        assert(before.push(token@) =~= before + seq![token@]);
    } else {
        assert(token_views(tokens@) + seq![] =~= token_views(tokens@));
    }
    tokens
}

} // verus!
