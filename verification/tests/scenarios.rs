//! End-to-end matching scenarios.

use hitori::class::CharClass;
use hitori::examples::{
    BinaryU32,
    Identifier,
    TrainCars,
    TRAIN_CARS_FIRST_CAR,
    TRAIN_CARS_LAST_CAR,
};
use hitori::expr::Expr;
use hitori::pattern::{Pattern, RepeatBounds, Span};
use hitori::string::{find_iter, starts_with};

fn all(children: Vec<Pattern>) -> Pattern {
    Pattern::All(children)
}

fn lit(c: char) -> Pattern {
    Pattern::Test(CharClass::Is(c))
}

/// `f(32|64)`: a float type name.
fn float_type() -> Expr {
    let tree = all(vec![
        lit('f'),
        Pattern::Any(vec![all(vec![lit('3'), lit('2')]), all(vec![lit('6'), lit('4')])]),
    ]);
    Expr::new(tree, 0).unwrap()
}

#[test]
fn float_suffix_matches_f64_prefix() {
    let e = float_type();
    let m = starts_with(&e, "f64x").unwrap();
    assert_eq!(m.range, Span { start: 0, end: 3 });
    assert_eq!(m.iter_remainder, 3);
    assert!(m.is_iter_advanced);
}

#[test]
fn float_suffix_rejects_f128() {
    let e = float_type();
    assert!(starts_with(&e, "f128").is_none());
}

#[test]
fn identifier_matches_word_prefix() {
    let e = Identifier::expr();
    let m = starts_with(&e, "my_var32 rest").unwrap();
    assert_eq!(m.range, Span { start: 0, end: 8 });
}

#[test]
fn identifier_matches_lone_underscore() {
    let e = Identifier::expr();
    let m = starts_with(&e, "_").unwrap();
    assert_eq!(m.range, Span { start: 0, end: 1 });
}

#[test]
fn identifier_rejects_leading_digit() {
    let e = Identifier::expr();
    assert!(starts_with(&e, "9x").is_none());
}

#[test]
fn binary_u32_matches_literal() {
    let e = BinaryU32::expr();
    let m = starts_with(&e, "0b110011010").unwrap();
    assert_eq!(m.range, Span { start: 0, end: 11 });
}

#[test]
fn binary_u32_needs_a_digit() {
    let e = BinaryU32::expr();
    assert!(starts_with(&e, "0b").is_none());
}

#[test]
fn binary_u32_greediness_caps_at_32_digits() {
    let e = BinaryU32::expr();
    let mut s = String::from("0b");
    for _ in 0..40 {
        s.push('1');
    }
    let m = starts_with(&e, &s).unwrap();
    assert_eq!(m.range, Span { start: 0, end: 34 });
}

#[test]
fn train_cars_single_car() {
    let e = TrainCars::expr();
    let m = starts_with(&e, "\u{1F683}").unwrap();
    let first = m.capture.get(TRAIN_CARS_FIRST_CAR).unwrap();
    let last = m.capture.get(TRAIN_CARS_LAST_CAR).unwrap();
    assert_eq!(first, Span { start: 0, end: 4 });
    assert_eq!(last, Span { start: 0, end: 4 });
}

#[test]
fn train_cars_five_cars() {
    let e = TrainCars::expr();
    let m = starts_with(&e, "\u{1F683}\u{1F683}\u{1F683}\u{1F683}\u{1F683}").unwrap();
    assert_eq!(m.capture.get(TRAIN_CARS_FIRST_CAR).unwrap(), Span { start: 0, end: 4 });
    assert_eq!(m.capture.get(TRAIN_CARS_LAST_CAR).unwrap(), Span { start: 16, end: 20 });
}

#[test]
fn train_cars_rejects_leading_space() {
    let e = TrainCars::expr();
    assert!(starts_with(&e, " \u{1F683}\u{1F683}\u{1F683}\u{1F683}\u{1F683}").is_none());
}

#[test]
fn train_cars_rejects_trailing_space() {
    let e = TrainCars::expr();
    assert!(starts_with(&e, "\u{1F683}\u{1F683}\u{1F683}\u{1F683}\u{1F683} ").is_none());
}

/// One to eight ASCII digits: `Repeat(Test(ascii_digit), lo = 1, hi = 9)`.
fn password() -> Expr {
    let tree = Pattern::Repeat(
        Box::new(all(vec![Pattern::Test(CharClass::AsciiDigit)])),
        RepeatBounds::Between(1, 9),
    );
    Expr::new(tree, 0).unwrap()
}

#[test]
fn password_matches_five_digits() {
    let e = password();
    let m = starts_with(&e, "12345").unwrap();
    assert_eq!(m.range, Span { start: 0, end: 5 });
}

#[test]
fn password_rejects_letter_start() {
    let e = password();
    assert!(starts_with(&e, "cUFK^06#43Gs").is_none());
}

#[test]
fn password_greediness_caps_at_eight_digits() {
    let e = password();
    let m = starts_with(&e, "123456789").unwrap();
    assert_eq!(m.range, Span { start: 0, end: 8 });
}

/// An email-like pattern: word characters, `@`, word characters, `.`,
/// letters.
fn word_class() -> CharClass {
    CharClass::AnyOf(vec![CharClass::AsciiAlnum, CharClass::Is('_')])
}

fn email() -> Expr {
    let letters = CharClass::InRange('a', 'z');
    let tree = all(vec![
        Pattern::Repeat(
            Box::new(all(vec![Pattern::Test(word_class())])),
            RepeatBounds::AtLeast(1),
        ),
        lit('@'),
        Pattern::Repeat(
            Box::new(all(vec![Pattern::Test(word_class())])),
            RepeatBounds::AtLeast(1),
        ),
        lit('.'),
        Pattern::Repeat(
            Box::new(all(vec![Pattern::Test(letters)])),
            RepeatBounds::AtLeast(1),
        ),
    ]);
    Expr::new(tree, 0).unwrap()
}

#[test]
fn find_iter_clears_the_first_flag_after_a_yield() {
    let anchored_empty = Pattern::Position(Box::new(all(vec![])), hitori::pattern::Position::First);
    let e = Expr::new(anchored_empty, 0).unwrap();
    let mut it = find_iter(e, "ab");
    let m = it.next().unwrap();
    assert_eq!(m.range, Span { start: 0, end: 0 });
    assert!(!m.is_iter_advanced);
    assert!(it.next().is_none());
    assert!(it.next().is_none());
}

#[test]
fn find_iter_miss_is_permanent() {
    let anchored_run = Pattern::Repeat(
        Box::new(Pattern::Position(
            Box::new(all(vec![lit('a')])),
            hitori::pattern::Position::First,
        )),
        RepeatBounds::AtLeast(0),
    );
    let e = Expr::new(all(vec![anchored_run, lit('a')]), 0).unwrap();
    let mut it = find_iter(e, "a");
    assert!(it.next().is_none());
    assert!(it.next().is_none());
    assert!(it.next().is_none());
}

#[test]
fn find_iter_yields_non_overlapping_increasing_matches() {
    let e = email();
    let text = "to a_1@x.com cc b2@y.org bcc c@z.io end";
    let mut it = find_iter(e, text);
    let m1 = it.next().unwrap();
    let m2 = it.next().unwrap();
    let m3 = it.next().unwrap();
    assert!(it.next().is_none());
    assert_eq!(&text[m1.range.start..m1.range.end], "a_1@x.com");
    assert_eq!(&text[m2.range.start..m2.range.end], "b2@y.org");
    assert_eq!(&text[m3.range.start..m3.range.end], "c@z.io");
    assert!(m1.range.end <= m2.range.start);
    assert!(m2.range.end <= m3.range.start);
    assert!(m1.range.start < m2.range.start && m2.range.start < m3.range.start);
    assert!(m2.is_iter_advanced);
    assert!(m3.is_iter_advanced);
}
