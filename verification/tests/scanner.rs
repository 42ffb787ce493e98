use lisp_interp::scanner::{scan_tokens, Token};

fn sym(s: &str) -> Token {
    Token::Symbol(s.to_string())
}

fn num(s: &str) -> Token {
    Token::Number(s.to_string())
}

#[test]
fn scans_an_operator_form() {
    assert_eq!(
        scan_tokens("(+ 1 2.5)"),
        vec![Token::LeftParen, Token::Plus, num("1"), num("2.5"), Token::RightParen]
    );
}

#[test]
fn scans_every_single_character_token() {
    assert_eq!(
        scan_tokens("()+-*/^$"),
        vec![
            Token::LeftParen,
            Token::RightParen,
            Token::Plus,
            Token::Minus,
            Token::Asterisk,
            Token::ForwardSlash,
            Token::Carat,
            Token::Dollar
        ]
    );
}

#[test]
fn drops_blanks() {
    assert_eq!(scan_tokens(" \t(\n ) "), vec![Token::LeftParen, Token::RightParen]);
    assert_eq!(scan_tokens(""), Vec::<Token>::new());
    assert_eq!(scan_tokens("   "), Vec::<Token>::new());
}

#[test]
fn scans_keywords_and_symbols() {
    assert_eq!(
        scan_tokens("(defun inc n (+ n 1))"),
        vec![
            Token::LeftParen,
            Token::Defun,
            sym("inc"),
            sym("n"),
            Token::LeftParen,
            Token::Plus,
            sym("n"),
            num("1"),
            Token::RightParen,
            Token::RightParen
        ]
    );
    assert_eq!(
        scan_tokens("(defvar x 5)"),
        vec![Token::LeftParen, Token::Defvar, sym("x"), num("5"), Token::RightParen]
    );
    assert_eq!(scan_tokens("defunx Defun"), vec![sym("defunx"), sym("Defun")]);
}

#[test]
fn scans_numerals() {
    for text in ["0", "5", "5.", ".5", "0.5", "1e5", "1E5", "1.5e3", "inf", "INF", "Infinity", "nan", "NaN"] {
        assert_eq!(scan_tokens(text), vec![num(text)], "{text}");
        assert!(text.parse::<f64>().is_ok(), "{text}");
    }
}

#[test]
fn words_that_are_no_numerals_are_symbols() {
    for text in [".", "1e", "e5", "1.2.3", "in", "infinit", "na", "1x", "x1", "..", "1e5e", "_"] {
        assert_eq!(scan_tokens(text), vec![sym(text)], "{text}");
        assert!(text.parse::<f64>().is_err(), "{text}");
    }
}

#[test]
fn a_sign_ends_a_word() {
    assert_eq!(scan_tokens("1e-5"), vec![sym("1e"), Token::Minus, num("5")]);
    assert_eq!(scan_tokens("-5"), vec![Token::Minus, num("5")]);
    assert_eq!(scan_tokens("a+b"), vec![sym("a"), Token::Plus, sym("b")]);
}

#[test]
fn a_word_goes_on_over_letters_digits_and_dots() {
    assert_eq!(scan_tokens("ab.c1 d"), vec![sym("ab.c1"), sym("d")]);
    assert_eq!(scan_tokens("a_b"), vec![sym("a"), sym("_b")]);
    assert_eq!(scan_tokens("\u{e9}t\u{e9}"), vec![sym("\u{e9}t\u{e9}")]);
    assert_eq!(scan_tokens("x,y"), vec![sym("x"), sym(",y")]);
}

#[test]
fn scans_quoted_text() {
    assert_eq!(scan_tokens("'a'"), vec![Token::String("a".to_string())]);
    assert_eq!(scan_tokens("'abc'"), vec![Token::String("abc".to_string())]);
    assert_eq!(scan_tokens("'a b(c'"), vec![Token::String("a b(c".to_string())]);
    assert_eq!(
        scan_tokens("('a')"),
        vec![Token::LeftParen, Token::String("a".to_string()), Token::RightParen]
    );
    assert_eq!(scan_tokens("'''"), vec![Token::String("'".to_string())]);
}

#[test]
fn an_unmatched_quote_is_a_tick() {
    assert_eq!(scan_tokens("'"), vec![Token::Tick]);
    assert_eq!(scan_tokens("'a"), vec![Token::Tick, sym("a")]);
    assert_eq!(scan_tokens("'abc"), vec![Token::Tick, sym("abc")]);
    assert_eq!(scan_tokens("''"), vec![Token::Tick, sym("'")]);
}

#[test]
fn the_character_behind_a_tick_is_ordinary_text() {
    assert_eq!(scan_tokens("'(x"), vec![Token::Tick, sym("(x")]);
    assert_eq!(scan_tokens("'a(b"), vec![Token::Tick, Token::LeftParen, sym("ab")]);
    assert_eq!(scan_tokens("'-5"), vec![Token::Tick, num("-5")]);
    assert_eq!(scan_tokens("'a("), vec![Token::Tick, Token::LeftParen, sym("a")]);
    assert_eq!(scan_tokens("' "), vec![Token::Tick, sym(" ")]);
}

#[test]
fn renders_every_kind_of_token() {
    assert_eq!(Token::LeftParen.render(), "(");
    assert_eq!(Token::RightParen.render(), ")");
    assert_eq!(sym("abc").render(), "abc");
    assert_eq!(Token::Plus.render(), "+");
    assert_eq!(Token::Minus.render(), "-");
    assert_eq!(Token::Asterisk.render(), "*");
    assert_eq!(Token::ForwardSlash.render(), "/");
    assert_eq!(Token::String("hi".to_string()).render(), "'hi'");
    assert_eq!(num("1.5").render(), "1.5");
    assert_eq!(Token::Defun.render(), "defun");
    assert_eq!(Token::Defvar.render(), "defvar");
    assert_eq!(Token::Carat.render(), "^");
    assert_eq!(Token::Dollar.render(), "$");
    assert_eq!(Token::Tick.render(), "'");
}

#[test]
fn rendered_tokens_scan_back() {
    let line = "(defun f x y (+ (* x 2.5) (- y 1) (/ $ 3) (^ inf .5)))";
    let tokens = scan_tokens(line);
    let rendered: Vec<String> = tokens.iter().map(|t| t.render()).collect();
    assert_eq!(scan_tokens(&rendered.join(" ")), tokens);
}

#[test]
fn tokens_compare_by_kind_and_text() {
    assert_eq!(sym("a"), sym("a"));
    assert_ne!(sym("a"), sym("b"));
    assert_ne!(sym("1"), num("1"));
    assert_ne!(num("1"), num("1.0"));
    assert_ne!(Token::String("a".to_string()), sym("a"));
    assert_eq!(sym("a").clone(), sym("a"));
}

#[test]
fn quoted_text_scans_back() {
    let tok = Token::String("a".to_string());
    assert_eq!(tok.render(), "'a'");
    assert_eq!(scan_tokens(&tok.render()), vec![Token::String("a".to_string())]);
    for line in ["'a'", "'abc'", "'a b(c'", "('a')", "'\'\'", "' x' 'y ' z", "(f 'a' 1 'b c')"] {
        let tokens = scan_tokens(line);
        assert!(tokens.iter().any(|t| matches!(t, Token::String(_))), "{line}");
        assert!(!tokens.contains(&Token::Tick), "{line}");
        let shown: Vec<String> = tokens.iter().map(|t| t.render()).collect();
        assert_eq!(scan_tokens(&shown.join(" ")), tokens, "{line}");
    }
}

#[test]
fn every_fixed_token_scans_back() {
    for tok in [
        Token::LeftParen,
        Token::RightParen,
        Token::Plus,
        Token::Minus,
        Token::Asterisk,
        Token::ForwardSlash,
        Token::Carat,
        Token::Dollar,
        Token::Defun,
        Token::Defvar,
    ] {
        assert_eq!(scan_tokens(&tok.render()), vec![tok.clone()]);
    }
}

#[test]
fn a_tick_that_ends_the_line_scans_back() {
    for line in ["'", "(+ 1 '", "'a' '", "x '"] {
        let tokens = scan_tokens(line);
        assert_eq!(tokens.last(), Some(&Token::Tick), "{line}");
        let shown: Vec<String> = tokens.iter().map(|t| t.render()).collect();
        assert_eq!(scan_tokens(&shown.join(" ")), tokens, "{line}");
    }
}

#[test]
fn a_tick_with_a_token_behind_it_does_not_scan_back() {
    // the character behind a tick is taken as text, here the space that
    // stands between the tokens
    let tokens = scan_tokens("'a");
    assert_eq!(tokens, vec![Token::Tick, sym("a")]);
    let shown: Vec<String> = tokens.iter().map(|t| t.render()).collect();
    assert_eq!(shown.join(" "), "' a");
    assert_eq!(scan_tokens("' a"), vec![Token::Tick, sym(" a")]);
    assert_ne!(scan_tokens("' a"), tokens);
}

#[test]
fn a_line_without_ticks_scans_back_from_what_shows_it() {
    for line in [
        "",
        "(+ 1 2)",
        "(defvar x (* 2.5 .5))",
        "(defun f a b (^ a (/ b $)))",
        "x,y _z \u{e9}",
        ")) ((",
        "1e5 1e-5 nan inf defun defvar",
        "(defvar x 'quoted text') 'more' $",
    ] {
        let tokens = scan_tokens(line);
        let shown: Vec<String> = tokens.iter().map(|t| t.render()).collect();
        assert_eq!(scan_tokens(&shown.join(" ")), tokens, "{line}");
    }
}

#[test]
fn every_scanned_number_is_a_numeral() {
    for line in [
        "(+ 1 2.5 .5 5. 1e5 inf nan x 1x e5)",
        "'-5 '+.5e3 '1e '1e5",
        "'x'5 'a' 7",
        "1.2.3 4 -5 +6",
    ] {
        let mut numbers = 0;
        for token in scan_tokens(line) {
            if let Token::Number(text) = token {
                assert!(text.parse::<f64>().is_ok(), "{text}");
                numbers += 1;
            }
        }
        assert!(numbers >= 2, "{line}");
    }
}
