use log_viewer::number::{
    decimal_chars, float_error_message, int_error_message, is_float_literal_chars, parse_bool,
    parse_i32, parse_u64, IntErrorKind,
};
use log_viewer::text::chars_of;
use std::num::IntErrorKind as StdKind;

fn kind_of(k: &StdKind) -> IntErrorKind {
    match k {
        StdKind::Empty => IntErrorKind::Empty,
        StdKind::InvalidDigit => IntErrorKind::InvalidDigit,
        StdKind::PosOverflow => IntErrorKind::PosOverflow,
        StdKind::NegOverflow => IntErrorKind::NegOverflow,
        _ => panic!("unexpected kind"),
    }
}

const INT_SAMPLES: &[&str] = &[
    "", "0", "7", "-7", "+7", "+", "-", "--1", "+-1", "12a", "a12", " 1", "1 ", "2147483647",
    "2147483648", "-2147483648", "-2147483649", "99999999999x", "x99999999999", "00012",
    "-0", "18446744073709551615", "18446744073709551616", "-18446744073709551616",
    "184467440737095516150", "٣", "1_000",
];

#[test]
fn parse_i32_matches_std() {
    for s in INT_SAMPLES {
        let ours = parse_i32(&chars_of(s));
        match s.parse::<i32>() {
            Ok(v) => assert_eq!(ours, Ok(v), "input {:?}", s),
            Err(e) => assert_eq!(ours, Err(kind_of(e.kind())), "input {:?}", s),
        }
    }
}

#[test]
fn parse_u64_matches_std() {
    for s in INT_SAMPLES {
        let ours = parse_u64(&chars_of(s));
        match s.parse::<u64>() {
            Ok(v) => assert_eq!(ours, Ok(v), "input {:?}", s),
            Err(e) => assert_eq!(ours, Err(kind_of(e.kind())), "input {:?}", s),
        }
    }
}

#[test]
fn int_error_messages_match_std() {
    for s in ["", "x", "99999999999", "-99999999999"] {
        let e = s.parse::<i32>().unwrap_err();
        assert_eq!(int_error_message(kind_of(e.kind())), e.to_string());
    }
}

const FLOAT_SAMPLES: &[&str] = &[
    "", "0", "1", "-1", "+1", "1.", ".5", ".", "-.", "1.5", "1.5.2", "1e5", "1E5", "1e", "e5",
    "1e+5", "1e-5", "1e+", "1.e3", ".e3", "1.5e3.2", "inf", "INF", "-inf", "+Infinity",
    "infinity", "infinit", "nan", "NaN", "-nan", "nana", "in", " 1", "1 ", "1,5", "0x10",
    "1_0", "12345678901234567890123", "1e400", "-0.0", "+.5E-3", "ee", "1ee5", "1e5e5",
];

#[test]
fn float_literal_matches_std() {
    for s in FLOAT_SAMPLES {
        let ours = is_float_literal_chars(&chars_of(s));
        assert_eq!(ours, s.parse::<f64>().is_ok(), "input {:?}", s);
        if let Err(e) = s.parse::<f64>() {
            assert_eq!(float_error_message(&chars_of(s)), e.to_string(), "input {:?}", s);
        }
    }
}

#[test]
fn parse_bool_matches_std() {
    for s in ["true", "false", "True", "", "1", "true "] {
        assert_eq!(parse_bool(&chars_of(s)), s.parse::<bool>().ok(), "input {:?}", s);
    }
}

#[test]
fn decimal_matches_display() {
    for n in [0u64, 7, 10, 99, 100, 12345, u64::MAX] {
        let text: String = decimal_chars(n).into_iter().collect();
        assert_eq!(text, n.to_string());
    }
}

#[test]
fn decimal_reads_back() {
    for n in [0u64, 9, 10, 4096, u64::MAX] {
        assert_eq!(parse_u64(&decimal_chars(n)), Ok(n));
    }
}
