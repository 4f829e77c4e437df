//! Unit tests of the node evaluator, the capture table and validation.

use hitori::capture::Capture;
use hitori::class::{class_test, CharClass};
use hitori::context::MatchCtx;
use hitori::engine::node_matches;
use hitori::expr::Expr;
use hitori::pattern::{Pattern, PatternError, Position, RepeatBounds, Span};
use hitori::string::char_ends;

fn lit(c: char) -> Pattern {
    Pattern::Test(CharClass::Is(c))
}

fn pairs_of(s: &str) -> Vec<(usize, char)> {
    let mut it = char_ends(s);
    let mut v = Vec::new();
    while let Some(pair) = it.next() {
        v.push(pair);
    }
    v
}

#[test]
fn char_ends_empty_string_yields_nothing() {
    let mut it = char_ends("");
    assert!(it.next().is_none());
}

#[test]
fn char_ends_yields_exclusive_ends() {
    assert_eq!(pairs_of("abc"), vec![(1, 'a'), (2, 'b'), (3, 'c')]);
    assert_eq!(pairs_of("a\u{E9}\u{1F683}"), vec![(1, 'a'), (3, '\u{E9}'), (7, '\u{1F683}')]);
}

#[test]
fn char_ends_single_char_yields_its_width() {
    assert_eq!(pairs_of("\u{1F683}"), vec![(4, '\u{1F683}')]);
    assert_eq!(pairs_of("x"), vec![(1, 'x')]);
}

#[test]
fn empty_input_rejects_consuming_patterns() {
    let e = Expr::new(lit('a'), 0).unwrap();
    assert!(hitori::string::starts_with(&e, "").is_none());
    assert!(hitori::string::find(&e, "").is_none());
}

#[test]
fn empty_input_accepts_the_empty_pattern() {
    let e = Expr::new(Pattern::All(vec![]), 0).unwrap();
    let m = hitori::string::starts_with(&e, "").unwrap();
    assert_eq!(m.range, Span { start: 0, end: 0 });
    assert_eq!(m.iter_remainder, 0);
    assert!(!m.is_iter_advanced);
}

#[test]
fn class_tests_decide_membership() {
    assert!(class_test(&CharClass::Is('a'), 'a'));
    assert!(!class_test(&CharClass::Is('a'), 'b'));
    assert!(class_test(&CharClass::InRange('0', '5'), '3'));
    assert!(!class_test(&CharClass::InRange('0', '5'), '7'));
    assert!(class_test(&CharClass::OneOf(vec!['x', 'y']), 'y'));
    assert!(!class_test(&CharClass::OneOf(vec!['x', 'y']), 'z'));
    assert!(class_test(&CharClass::AsciiDigit, '9'));
    assert!(!class_test(&CharClass::AsciiDigit, 'a'));
    assert!(class_test(&CharClass::AsciiAlnum, 'Q'));
    assert!(!class_test(&CharClass::AsciiAlnum, '-'));
    assert!(class_test(&CharClass::AsciiWhitespace, '\t'));
    assert!(class_test(&CharClass::Alphabetic, '\u{3BB}'));
    assert!(!class_test(&CharClass::Alphabetic, '1'));
    assert!(class_test(&CharClass::Alphanumeric, '1'));
    assert!(class_test(&CharClass::Not(Box::new(CharClass::Is('a'))), 'b'));
    assert!(!class_test(&CharClass::Not(Box::new(CharClass::Is('a'))), 'a'));
    assert!(class_test(
        &CharClass::AnyOf(vec![CharClass::Is('a'), CharClass::AsciiDigit]),
        '7'
    ));
    assert!(!class_test(&CharClass::AnyOf(vec![]), 'a'));
    assert!(class_test(
        &CharClass::AllOf(vec![CharClass::AsciiAlnum, CharClass::AsciiDigit]),
        '7'
    ));
    assert!(!class_test(
        &CharClass::AllOf(vec![CharClass::AsciiAlnum, CharClass::AsciiDigit]),
        'a'
    ));
    assert!(class_test(&CharClass::AllOf(vec![]), 'a'));
}

#[test]
fn empty_sequence_matches_without_consuming() {
    let input = pairs_of("abc");
    let mut ctx = MatchCtx::new(0, true, 0, 0);
    assert!(node_matches(&Pattern::All(vec![]), &input, &mut ctx));
    assert_eq!(ctx.pos, 0);
    assert_eq!(ctx.end, 0);
    assert!(ctx.first);
}

#[test]
fn empty_alternative_never_matches() {
    let input = pairs_of("abc");
    let mut ctx = MatchCtx::new(0, true, 0, 0);
    assert!(!node_matches(&Pattern::Any(vec![]), &input, &mut ctx));
    assert_eq!(ctx.pos, 0);
}

#[test]
fn test_node_consumes_one_character_and_clears_first() {
    let input = pairs_of("ab");
    let mut ctx = MatchCtx::new(0, true, 0, 0);
    assert!(node_matches(&lit('a'), &input, &mut ctx));
    assert_eq!(ctx.pos, 1);
    assert_eq!(ctx.end, 1);
    assert!(!ctx.first);
}

#[test]
fn failed_test_leaves_context_untouched() {
    let input = pairs_of("ab");
    let mut ctx = MatchCtx::new(0, true, 0, 0);
    assert!(!node_matches(&lit('b'), &input, &mut ctx));
    assert_eq!(ctx.pos, 0);
    assert_eq!(ctx.end, 0);
    assert!(ctx.first);
}

#[test]
fn failed_sequence_rolls_back_consumption_and_captures() {
    let input = pairs_of("ab");
    let inner = Pattern::All(vec![
        Pattern::Capture(Box::new(Pattern::All(vec![lit('a')])), vec![0]),
        lit('c'),
    ]);
    let mut ctx = MatchCtx::new(0, true, 0, 1);
    assert!(!node_matches(&inner, &input, &mut ctx));
    assert_eq!(ctx.pos, 0);
    assert_eq!(ctx.end, 0);
    assert!(ctx.first);
    assert_eq!(ctx.caps.get(0), None);
}

#[test]
fn alternative_falls_through_to_later_branch() {
    let input = pairs_of("ac");
    let p = Pattern::Any(vec![
        Pattern::All(vec![lit('a'), lit('b')]),
        Pattern::All(vec![lit('a'), lit('c')]),
    ]);
    let mut ctx = MatchCtx::new(0, true, 0, 0);
    assert!(node_matches(&p, &input, &mut ctx));
    assert_eq!(ctx.pos, 2);
    assert_eq!(ctx.end, 2);
}

#[test]
fn alternative_prefers_the_earlier_branch() {
    let input = pairs_of("ab");
    let p = Pattern::Any(vec![
        Pattern::All(vec![lit('a')]),
        Pattern::All(vec![lit('a'), lit('b')]),
    ]);
    let mut ctx = MatchCtx::new(0, true, 0, 0);
    assert!(node_matches(&p, &input, &mut ctx));
    assert_eq!(ctx.pos, 1);
    assert_eq!(ctx.end, 1);
}

#[test]
fn repeat_exactly_consumes_exactly_n() {
    let input = pairs_of("aaaa");
    let p = Pattern::Repeat(Box::new(lit('a')), RepeatBounds::Exactly(3));
    let mut ctx = MatchCtx::new(0, true, 0, 0);
    assert!(node_matches(&p, &input, &mut ctx));
    assert_eq!(ctx.pos, 3);
    assert_eq!(ctx.end, 3);
}

#[test]
fn repeat_at_least_is_greedy() {
    let input = pairs_of("aaab");
    let p = Pattern::Repeat(Box::new(lit('a')), RepeatBounds::AtLeast(1));
    let mut ctx = MatchCtx::new(0, true, 0, 0);
    assert!(node_matches(&p, &input, &mut ctx));
    assert_eq!(ctx.pos, 3);
}

#[test]
fn repeat_does_not_yield_rounds_to_the_rest() {
    let input = pairs_of("aa");
    let p = Pattern::All(vec![
        Pattern::Repeat(Box::new(lit('a')), RepeatBounds::AtLeast(1)),
        lit('a'),
    ]);
    let mut ctx = MatchCtx::new(0, true, 0, 0);
    assert!(!node_matches(&p, &input, &mut ctx));
    assert_eq!(ctx.pos, 0);
}

#[test]
fn repeat_below_lower_bound_fails() {
    let input = pairs_of("aab");
    let p = Pattern::Repeat(Box::new(lit('a')), RepeatBounds::AtLeast(3));
    let mut ctx = MatchCtx::new(0, true, 0, 0);
    assert!(!node_matches(&p, &input, &mut ctx));
    assert_eq!(ctx.pos, 0);
}

#[test]
fn repeat_with_collapsed_bounds_fails_without_consuming() {
    let input = pairs_of("aaa");
    let p = Pattern::Repeat(Box::new(lit('a')), RepeatBounds::Between(2, 2));
    let mut ctx = MatchCtx::new(0, true, 0, 0);
    assert!(!node_matches(&p, &input, &mut ctx));
    assert_eq!(ctx.pos, 0);
}

#[test]
fn capture_records_range_into_every_listed_slot() {
    let input = pairs_of("ab");
    let p = Pattern::Capture(Box::new(Pattern::All(vec![lit('a'), lit('b')])), vec![0, 2]);
    let mut ctx = MatchCtx::new(0, true, 0, 3);
    assert!(node_matches(&p, &input, &mut ctx));
    assert_eq!(ctx.caps.get(0), Some(Span { start: 0, end: 2 }));
    assert_eq!(ctx.caps.get(1), None);
    assert_eq!(ctx.caps.get(2), Some(Span { start: 0, end: 2 }));
}

#[test]
fn repeated_capture_keeps_the_last_round() {
    let input = pairs_of("aaa");
    let p = Pattern::Repeat(
        Box::new(Pattern::Capture(Box::new(Pattern::All(vec![lit('a')])), vec![0])),
        RepeatBounds::AtLeast(0),
    );
    let mut ctx = MatchCtx::new(0, true, 0, 1);
    assert!(node_matches(&p, &input, &mut ctx));
    assert_eq!(ctx.pos, 3);
    assert_eq!(ctx.caps.get(0), Some(Span { start: 2, end: 3 }));
}

#[test]
fn first_anchor_requires_the_first_flag() {
    let input = pairs_of("a");
    let p = Pattern::Position(Box::new(Pattern::All(vec![lit('a')])), Position::First);
    let mut at_start = MatchCtx::new(0, true, 0, 0);
    assert!(node_matches(&p, &input, &mut at_start));
    let mut later = MatchCtx::new(0, false, 0, 0);
    assert!(!node_matches(&p, &input, &mut later));
    assert_eq!(later.pos, 0);
}

#[test]
fn last_anchor_requires_exhausted_input() {
    let p = Pattern::Position(Box::new(Pattern::All(vec![lit('a')])), Position::Last);
    let whole = pairs_of("a");
    let mut ctx = MatchCtx::new(0, true, 0, 0);
    assert!(node_matches(&p, &whole, &mut ctx));
    let longer = pairs_of("ab");
    let mut ctx2 = MatchCtx::new(0, true, 0, 0);
    assert!(!node_matches(&p, &longer, &mut ctx2));
    assert_eq!(ctx2.pos, 0);
}

#[test]
fn capture_table_clear_empties_every_slot() {
    let mut caps = Capture::new(2);
    assert_eq!(caps.len(), 2);
    caps.set(0, Span { start: 1, end: 2 });
    caps.set(1, Span { start: 2, end: 3 });
    caps.clear();
    assert_eq!(caps.get(0), None);
    assert_eq!(caps.get(1), None);
}

#[test]
fn expr_new_rejects_empty_capture_list() {
    let p = Pattern::Capture(Box::new(Pattern::All(vec![])), vec![]);
    assert!(matches!(Expr::new(p, 1), Err(PatternError::EmptyCapture)));
}

#[test]
fn expr_new_rejects_capture_slot_out_of_range() {
    let p = Pattern::Capture(Box::new(Pattern::All(vec![])), vec![5]);
    assert!(matches!(Expr::new(p, 1), Err(PatternError::CaptureOutOfRange)));
}

#[test]
fn expr_new_rejects_collapsed_repeat_bounds() {
    let p = Pattern::Repeat(Box::new(Pattern::All(vec![])), RepeatBounds::Between(3, 3));
    assert!(matches!(Expr::new(p, 0), Err(PatternError::EmptyRepeatRange)));
}

#[test]
fn expr_new_accepts_a_valid_pattern() {
    let p = Pattern::Capture(Box::new(Pattern::All(vec![lit('a')])), vec![0]);
    let e = Expr::new(p, 1).unwrap();
    assert_eq!(e.slot_count(), 1);
}
