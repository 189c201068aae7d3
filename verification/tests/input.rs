use lib_myfltk::error::ErrorKind;
use lib_myfltk::input::{first_char, parse_i64, CountedSession};

fn chars(s: &str) -> Vec<char> {
    s.chars().collect()
}

#[test]
fn parse_plain_number() {
    assert_eq!(parse_i64(&chars("42")), Ok(42));
}

#[test]
fn parse_trims_whitespace() {
    assert_eq!(parse_i64(&chars(" -17 \n")), Ok(-17));
}

#[test]
fn parse_trims_unicode_whitespace() {
    assert_eq!(parse_i64(&chars("\u{3000}5\u{a0}")), Ok(5));
}

#[test]
fn parse_explicit_plus() {
    assert_eq!(parse_i64(&chars("+0")), Ok(0));
}

#[test]
fn parse_leading_zeros() {
    assert_eq!(parse_i64(&chars("007")), Ok(7));
}

#[test]
fn parse_extremes() {
    assert_eq!(parse_i64(&chars("9223372036854775807")), Ok(i64::MAX));
    assert_eq!(parse_i64(&chars("-9223372036854775808")), Ok(i64::MIN));
}

#[test]
fn parse_rejects_overflow() {
    assert_eq!(parse_i64(&chars("9223372036854775808")), Err(ErrorKind::InvalidInput));
    assert_eq!(parse_i64(&chars("-9223372036854775809")), Err(ErrorKind::InvalidInput));
    assert_eq!(parse_i64(&chars("99999999999999999999999")), Err(ErrorKind::InvalidInput));
}

#[test]
fn parse_rejects_junk() {
    assert_eq!(parse_i64(&chars("")), Err(ErrorKind::InvalidInput));
    assert_eq!(parse_i64(&chars("   ")), Err(ErrorKind::InvalidInput));
    assert_eq!(parse_i64(&chars("abc")), Err(ErrorKind::InvalidInput));
    assert_eq!(parse_i64(&chars("12a")), Err(ErrorKind::InvalidInput));
    assert_eq!(parse_i64(&chars("--5")), Err(ErrorKind::InvalidInput));
    assert_eq!(parse_i64(&chars("+")), Err(ErrorKind::InvalidInput));
    assert_eq!(parse_i64(&chars("1 2")), Err(ErrorKind::InvalidInput));
}

#[test]
fn first_char_of_text() {
    assert_eq!(first_char(&chars("hello")), Ok('h'));
}

#[test]
fn first_char_of_empty_text_fails() {
    assert_eq!(first_char(&chars("")), Err(ErrorKind::InvalidInput));
}

#[test]
fn session_collects_exactly_count() {
    let mut session = CountedSession::new(3);
    let mut entries: Vec<i64> = Vec::new();
    let mut next: i64 = 10;
    while session.wants_more() {
        entries.push(next);
        next += 1;
        session.record();
    }
    assert_eq!(entries, vec![10, 11, 12]);
    assert_eq!(session.taken(), 3);
}

#[test]
fn session_with_zero_count_collects_nothing() {
    let session = CountedSession::new(0);
    assert!(!session.wants_more());
    assert_eq!(session.taken(), 0);
}

#[test]
fn session_with_negative_count_collects_nothing() {
    let session = CountedSession::new(-2);
    assert!(!session.wants_more());
    assert_eq!(session.taken(), 0);
}
