use lisp_interp::numeral::numeral;

fn is_numeral(text: &str) -> bool {
    numeral(&text.chars().collect())
}

#[test]
fn numerals_are_the_texts_that_parse_as_doubles() {
    let alphabet = ['0', '7', '.', 'e', 'E', '+', '-', 'i', 'n', 'f', 'a', 'N', ' ', 'x'];
    let mut texts: Vec<String> = vec![String::new()];
    let mut from = 0;
    for _ in 0..5 {
        let to = texts.len();
        for i in from..to {
            for c in alphabet {
                let mut longer = texts[i].clone();
                longer.push(c);
                texts.push(longer);
            }
        }
        from = to;
    }
    assert_eq!(texts.len(), 1 + 14 + 196 + 2744 + 38416 + 537824);
    for text in texts.iter() {
        assert_eq!(is_numeral(text), text.parse::<f64>().is_ok(), "{:?}", text);
    }
}

#[test]
fn the_words_for_infinity_and_not_a_number_are_numerals() {
    for text in [
        "inf", "INF", "Inf", "+inf", "-inf", "infinity", "Infinity", "INFINITY", "-infinity",
        "+iNfInItY", "nan", "NaN", "NAN", "-nan", "+nan",
    ] {
        assert!(is_numeral(text), "{text}");
        assert!(text.parse::<f64>().is_ok(), "{text}");
    }
    for text in [
        "in", "infi", "infinit", "infinityy", "na", "nann", "i", "n", "+", "-", "", "++inf",
        "inf ", " inf", "\u{130}nf", "\u{131}nf", "ınf", "nan.", ".nan", "infe5",
    ] {
        assert!(!is_numeral(text), "{text}");
        assert!(text.parse::<f64>().is_err(), "{text}");
    }
}

#[test]
fn decimal_numerals() {
    for text in [
        "0", "007", "1234567890", "1.", ".1", "1.1", "+1", "-1", "+.5", "-5.", "1e0", "1E0",
        "1e+0", "1e-0", "1.e1", ".1e1", "1.5e+10", "-1.5E-10", "1e0000000000000000000001",
        "123456789012345678901234567890123456789012345678901234567890",
        "0.000000000000000000000000000000000000000000000000000000000001", "1e999", "1e-999",
    ] {
        assert!(is_numeral(text), "{text}");
        assert!(text.parse::<f64>().is_ok(), "{text}");
    }
    for text in [
        ".", "+.", "-.", "e", "e1", ".e1", "1e", "1e+", "1e-", "1e1.0", "1e1e1", "1..", "..1",
        "1.2.3", "1_000", "0x10", "1f", "1 ", " 1", "1,5", "\u{661}", "１", "--1", "+-1", "1e++1",
    ] {
        assert!(!is_numeral(text), "{text}");
        assert!(text.parse::<f64>().is_err(), "{text}");
    }
}
