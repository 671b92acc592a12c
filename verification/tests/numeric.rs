use coin_ingest::numeric::coerce_numeric;
use coin_ingest::numeric::is_float_text;

#[test]
fn well_formed_numbers_are_kept() {
    for s in ["0", "1", "42", "1.5", "5.", ".5", "0.0", "12345.6789"] {
        assert!(is_float_text(s), "{s} should be accepted");
        assert_eq!(coerce_numeric(s), s);
        assert!(s.parse::<f64>().is_ok());
    }
}

#[test]
fn signs_and_exponents_are_kept() {
    for s in ["+1", "-1", "-1.25e-3", "1e5", "1E5", "1.e5", ".5e+2", "9e0"] {
        assert!(is_float_text(s), "{s} should be accepted");
        assert_eq!(coerce_numeric(s), s);
        assert!(s.parse::<f64>().is_ok());
    }
}

#[test]
fn special_words_are_kept_in_any_case() {
    for s in ["inf", "INF", "Infinity", "INFINITY", "-inf", "+infinity", "nan", "NaN", "NAN", "-nan"] {
        assert!(is_float_text(s), "{s} should be accepted");
        assert_eq!(coerce_numeric(s), s);
        assert!(s.parse::<f64>().is_ok());
    }
}

#[test]
fn malformed_text_is_coerced_to_the_default() {
    for s in [
        "not-a-number",
        "",
        ".",
        "+",
        "-",
        "e5",
        "1e",
        "1.5e",
        "+e5",
        "--1",
        "1.2.3",
        " 1.5",
        "1.5 ",
        "12a",
        "infx",
        "na",
    ] {
        assert!(!is_float_text(s), "{s} should be rejected");
        assert_eq!(coerce_numeric(s), "0");
        assert!(s.parse::<f64>().is_err(), "{s} should not parse");
    }
}

#[test]
fn the_default_denotes_zero() {
    let coerced = coerce_numeric("not-a-number");
    assert_eq!(coerced.parse::<f64>().unwrap(), 0.0);
}
