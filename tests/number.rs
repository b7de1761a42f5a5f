use serialplotter::number::{decimal_string, is_number_literal, string_from_chars};

fn literal(s: &str) -> bool {
    is_number_literal(&s.chars().collect())
}

#[test]
fn accepts_float_literals() {
    for s in ["0", "1.5", "-2", "+3.", ".5", "1e10", "1E-3", "2.5e+7", "inf", "-Infinity", "NaN", "+nan", "INF"] {
        assert!(literal(s), "{}", s);
        assert!(s.parse::<f64>().is_ok(), "{}", s);
    }
}

#[test]
fn rejects_other_text() {
    for s in ["", ".", "-", "e5", "1e", "1e+", "1.2.3", "abc", "1x", "infin", "--1", "1,0", "0x10", "1 "] {
        assert!(!literal(s), "{}", s);
        assert!(s.parse::<f64>().is_err(), "{}", s);
    }
}

#[test]
fn decimal_numerals() {
    assert_eq!(decimal_string(0), "0");
    assert_eq!(decimal_string(7), "7");
    assert_eq!(decimal_string(10), "10");
    assert_eq!(decimal_string(1234), "1234");
    assert_eq!(decimal_string(usize::MAX), usize::MAX.to_string());
}

#[test]
fn string_from_chars_keeps_characters() {
    assert_eq!(string_from_chars(&vec!['a', 'b', 'é']), "abé");
    assert_eq!(string_from_chars(&vec![]), "");
}
