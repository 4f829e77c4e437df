//! Tests of the string-level drivers: search, iteration and replace.

use hitori::class::CharClass;
use hitori::examples::{Uri, URI_FRAGMENT, URI_PATH, URI_QUERY, URI_SCHEMA};
use hitori::examples::IpV4;
use hitori::expr::Expr;
use hitori::generic;
use hitori::pattern::{Pattern, Position, RepeatBounds, Span};
use hitori::string::{find, repeat, replace, replacen, starts_with};

fn lit(c: char) -> Pattern {
    Pattern::Test(CharClass::Is(c))
}

fn lit_expr(c: char) -> Expr {
    Expr::new(lit(c), 0).unwrap()
}

#[test]
fn determinism_same_input_same_result() {
    let e = Uri::expr();
    let s = "ab://cd?q#f tail";
    let m1 = starts_with(&e, s).unwrap();
    let m2 = starts_with(&e, s).unwrap();
    assert_eq!(m1.range, m2.range);
    assert_eq!(m1.iter_remainder, m2.iter_remainder);
    assert_eq!(m1.is_iter_advanced, m2.is_iter_advanced);
    for k in 0..4 {
        assert_eq!(m1.capture.get(k), m2.capture.get(k));
    }
}

#[test]
fn prefix_contract_remainder_starts_after_the_match() {
    let e = Expr::new(
        Pattern::All(vec![lit('a'), lit('b')]),
        0,
    )
    .unwrap();
    let input = vec![(1, 'a'), (2, 'b'), (3, 'c')];
    let m = generic::starts_with(&e, 0, true, &input, 0).unwrap();
    assert_eq!(m.range, Span { start: 0, end: 2 });
    assert_eq!(m.iter_remainder, 2);
    assert_eq!(input[m.iter_remainder], (3, 'c'));
}

#[test]
fn empty_match_preserves_the_iterator() {
    let e = Expr::new(Pattern::All(vec![]), 0).unwrap();
    let input = vec![(1, 'a'), (2, 'b')];
    let at_start = generic::starts_with(&e, 0, true, &input, 0).unwrap();
    assert_eq!(at_start.range, Span { start: 0, end: 0 });
    assert_eq!(at_start.iter_remainder, 0);
    assert!(!at_start.is_iter_advanced);
    let not_first = generic::starts_with(&e, 0, false, &input, 0).unwrap();
    assert_eq!(not_first.range, Span { start: 0, end: 0 });
    assert_eq!(not_first.iter_remainder, 0);
    assert!(not_first.is_iter_advanced);
}

#[test]
fn capture_containment_within_the_matched_range() {
    let e = Uri::expr();
    let m = starts_with(&e, "ab://cd?q#f tail").unwrap();
    for k in 0..4 {
        if let Some(sp) = m.capture.get(k) {
            assert!(m.range.start <= sp.start);
            assert!(sp.start <= sp.end);
            assert!(sp.end <= m.range.end);
        }
    }
}

#[test]
fn uri_captures_schema_path_query_fragment() {
    let e = Uri::expr();
    let s = "ab://cd?q#f tail";
    let m = starts_with(&e, s).unwrap();
    assert_eq!(m.range, Span { start: 0, end: 11 });
    assert_eq!(m.capture.get(URI_SCHEMA), Some(Span { start: 0, end: 2 }));
    assert_eq!(m.capture.get(URI_PATH), Some(Span { start: 5, end: 7 }));
    assert_eq!(m.capture.get(URI_QUERY), Some(Span { start: 8, end: 9 }));
    assert_eq!(m.capture.get(URI_FRAGMENT), Some(Span { start: 10, end: 11 }));
}

#[test]
fn uri_without_query_leaves_its_slot_empty() {
    let e = Uri::expr();
    let m = starts_with(&e, "ab://cd").unwrap();
    assert_eq!(m.capture.get(URI_SCHEMA), Some(Span { start: 0, end: 2 }));
    assert_eq!(m.capture.get(URI_PATH), Some(Span { start: 5, end: 7 }));
    assert_eq!(m.capture.get(URI_QUERY), None);
    assert_eq!(m.capture.get(URI_FRAGMENT), None);
}

#[test]
fn ipv4_matches_dotted_quad() {
    let e = IpV4::expr();
    let m = starts_with(&e, "255.255.255.255").unwrap();
    assert_eq!(m.range, Span { start: 0, end: 15 });
    assert!(starts_with(&e, "10.20.30.40").is_some());
    assert!(starts_with(&e, "256.10.10.10").is_none());
}

#[test]
fn find_skips_to_the_first_match() {
    let e = lit_expr('b');
    let m = find(&e, "aab").unwrap();
    assert_eq!(m.range, Span { start: 2, end: 3 });
    assert!(m.is_iter_advanced);
}

#[test]
fn find_returns_none_when_nothing_matches() {
    let e = lit_expr('z');
    assert!(find(&e, "aab").is_none());
}

#[test]
fn find_never_reaches_a_first_anchor_past_the_start() {
    let p = Pattern::Position(Box::new(Pattern::All(vec![lit('a')])), Position::First);
    let e = Expr::new(p, 0).unwrap();
    assert!(find(&e, "ba").is_none());
    let m = find(&e, "ab").unwrap();
    assert_eq!(m.range, Span { start: 0, end: 1 });
}

#[test]
fn repeat_yields_adjacent_matches_only() {
    let e = lit_expr('a');
    let mut it = repeat(e, "aab");
    let m1 = it.next().unwrap();
    assert_eq!(m1.range, Span { start: 0, end: 1 });
    let m2 = it.next().unwrap();
    assert_eq!(m2.range, Span { start: 1, end: 2 });
    assert!(it.next().is_none());
    assert!(it.next().is_none());
}

#[test]
fn replace_rewrites_every_match() {
    let e = Expr::new(
        Pattern::Repeat(
            Box::new(Pattern::All(vec![Pattern::Test(CharClass::AsciiDigit)])),
            RepeatBounds::AtLeast(1),
        ),
        0,
    )
    .unwrap();
    let r = replace(&e, "a12b345c", |_m, _t| String::from("#"));
    assert_eq!(r, "a#b#c");
}

#[test]
fn replace_keeps_an_unmatched_input_unchanged() {
    let e = lit_expr('z');
    let r = replace(&e, "abc", |_m, _t| String::from("#"));
    assert_eq!(r, "abc");
}

#[test]
fn replace_round_trip_rebuilds_the_input() {
    let e = Expr::new(
        Pattern::Repeat(
            Box::new(Pattern::All(vec![Pattern::Test(CharClass::AsciiDigit)])),
            RepeatBounds::AtLeast(1),
        ),
        0,
    )
    .unwrap();
    let s = "a12b345c\u{E9}9";
    let r = replace(&e, s, |_m, t| t);
    assert_eq!(r, s);
}

#[test]
fn replace_passes_the_matched_text_to_the_closure() {
    let e = Expr::new(
        Pattern::Repeat(
            Box::new(Pattern::All(vec![Pattern::Test(CharClass::AsciiDigit)])),
            RepeatBounds::AtLeast(1),
        ),
        0,
    )
    .unwrap();
    let r = replace(&e, "a12b345", |_m, t| format!("<{}>", t));
    assert_eq!(r, "a<12>b<345>");
}

#[test]
fn replacen_stops_after_the_limit() {
    let e = lit_expr('a');
    let r = replacen(&e, 2, "a a a a", |_m, _t| String::from("X"));
    assert_eq!(r, "X X a a");
}

#[test]
fn replacen_with_zero_limit_changes_nothing() {
    let e = lit_expr('a');
    let r = replacen(&e, 0, "aaa", |_m, _t| String::from("X"));
    assert_eq!(r, "aaa");
}
