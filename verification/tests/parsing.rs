use report_card::parse::{parse_marks, parse_subjects};

#[test]
fn marks_plain_decimals() {
    assert_eq!(parse_marks("432.0"), Some(43200));
    assert_eq!(parse_marks("86.4"), Some(8640));
    assert_eq!(parse_marks("450"), Some(45000));
    assert_eq!(parse_marks("0.0"), Some(0));
    assert_eq!(parse_marks("0"), Some(0));
}

#[test]
fn marks_signs() {
    assert_eq!(parse_marks("+3.25"), Some(325));
    assert_eq!(parse_marks("-5"), Some(-500));
    assert_eq!(parse_marks("-0.07"), Some(-7));
}

#[test]
fn marks_dot_edges() {
    assert_eq!(parse_marks(".5"), Some(50));
    assert_eq!(parse_marks("5."), Some(500));
    assert_eq!(parse_marks("12.345"), Some(1234));
    assert_eq!(parse_marks("0.005"), Some(0));
}

#[test]
fn marks_leading_zeros() {
    assert_eq!(parse_marks("000123"), Some(12300));
    assert_eq!(parse_marks("00000000000000001"), Some(100));
}

#[test]
fn marks_rejects_non_numeric() {
    assert_eq!(parse_marks(""), None);
    assert_eq!(parse_marks("abc"), None);
    assert_eq!(parse_marks("4.5.6"), None);
    assert_eq!(parse_marks("12a"), None);
    assert_eq!(parse_marks("."), None);
    assert_eq!(parse_marks("+"), None);
    assert_eq!(parse_marks("-"), None);
    assert_eq!(parse_marks("1e5"), None);
    assert_eq!(parse_marks(" 5"), None);
}

#[test]
fn marks_range_limit() {
    assert_eq!(parse_marks("9999999999.99"), Some(999_999_999_999));
    assert_eq!(parse_marks("10000000000"), None);
}

#[test]
fn subjects_accepts_positive_integers() {
    assert_eq!(parse_subjects("5"), Some(5));
    assert_eq!(parse_subjects("+12"), Some(12));
    assert_eq!(parse_subjects("007"), Some(7));
    assert_eq!(parse_subjects("4294967295"), Some(4294967295));
}

#[test]
fn subjects_rejects_zero_and_negative() {
    assert_eq!(parse_subjects("0"), None);
    assert_eq!(parse_subjects("-2"), None);
    assert_eq!(parse_subjects("000"), None);
}

#[test]
fn subjects_rejects_non_numeric() {
    assert_eq!(parse_subjects(""), None);
    assert_eq!(parse_subjects("+"), None);
    assert_eq!(parse_subjects("abc"), None);
    assert_eq!(parse_subjects("3.5"), None);
    assert_eq!(parse_subjects("4294967296"), None);
}
