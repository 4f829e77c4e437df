//! Character classes: the leaves of a pattern tree.
//!
//! A leaf of a pattern is a predicate over a single character.  Predicates
//! are data, not closures, so that what a test accepts is a specification
//! function of the class and the character alone.

use vstd::prelude::*;

verus! {

/// A predicate over a single character.
pub enum CharClass {
    /// Exactly this character.
    Is(char),
    /// Any character in the inclusive range `lo..=hi` of code points.
    InRange(char, char),
    /// Any character listed.
    OneOf(Vec<char>),
    /// An ASCII decimal digit, `'0'..='9'`.
    AsciiDigit,
    /// An ASCII letter or digit.
    AsciiAlnum,
    /// An ASCII whitespace character: space, tab, line feed, form feed or
    /// carriage return.
    AsciiWhitespace,
    /// A Unicode alphabetic character, as `char::is_alphabetic` decides it.
    Alphabetic,
    /// A Unicode alphanumeric character, as `char::is_alphanumeric`
    /// decides it.
    Alphanumeric,
    /// Any character the inner class rejects.
    Not(Box<CharClass>),
    /// Any character at least one of the listed classes accepts.
    AnyOf(Vec<CharClass>),
    /// Any character every one of the listed classes accepts.
    AllOf(Vec<CharClass>),
}

/// Whether `c` has the Unicode `Alphabetic` property; the meaning of
/// `CharClass::Alphabetic`, decided by `char::is_alphabetic`.
pub uninterp spec fn alphabetic(c: char) -> bool;

/// Whether `c` is Unicode alphanumeric; the meaning of
/// `CharClass::Alphanumeric`, decided by `char::is_alphanumeric`.
pub uninterp spec fn alphanumeric(c: char) -> bool;

/// Relies on `char::is_alphabetic`: whether `c` has the Unicode
/// `Alphabetic` property, a function of the character alone.
#[verifier::external_body]
fn char_is_alphabetic(c: char) -> (r: bool)
    ensures
        r == alphabetic(c),
{
    c.is_alphabetic()
}

/// Relies on `char::is_alphanumeric`: whether `c` is in the Unicode
/// categories that make up `Alphabetic` plus `Nd`, `Nl` and `No`, a
/// function of the character alone.
#[verifier::external_body]
fn char_is_alphanumeric(c: char) -> (r: bool)
    ensures
        r == alphanumeric(c),
{
    c.is_alphanumeric()
}

/// What a class accepts: the meaning of each `CharClass` variant.
pub open spec fn class_holds(cls: CharClass, c: char) -> bool
    decreases cls, 0int, 0int,
{
    match cls {
        CharClass::Is(w) => c == w,
        CharClass::InRange(lo, hi) => lo as u32 <= c as u32 && c as u32 <= hi as u32,
        CharClass::OneOf(ws) => ws@.contains(c),
        CharClass::AsciiDigit => '0' as u32 <= c as u32 && c as u32 <= '9' as u32,
        CharClass::AsciiAlnum => ('0' as u32 <= c as u32 && c as u32 <= '9' as u32) || ('a'
            as u32 <= c as u32 && c as u32 <= 'z' as u32) || ('A' as u32 <= c as u32 && c as u32
            <= 'Z' as u32),
        CharClass::AsciiWhitespace => c == ' ' || c == '\t' || c == '\n' || c == '\u{C}' || c
            == '\r',
        CharClass::Alphabetic => alphabetic(c),
        CharClass::Alphanumeric => alphanumeric(c),
        CharClass::Not(inner) => !class_holds(*inner, c),
        CharClass::AnyOf(cs) => any_class_holds(cs@, 0, c),
        CharClass::AllOf(cs) => all_classes_hold(cs@, 0, c),
    }
}

/// Whether some class among `cs[i..]` accepts `c`.
pub open spec fn any_class_holds(cs: Seq<CharClass>, i: int, c: char) -> bool
    decreases cs, cs.len() - i, 1int,
{
    if i < 0 || i >= cs.len() {
        false
    } else {
        class_holds(cs[i], c) || any_class_holds(cs, i + 1, c)
    }
}

/// Whether every class among `cs[i..]` accepts `c`.
pub open spec fn all_classes_hold(cs: Seq<CharClass>, i: int, c: char) -> bool
    decreases cs, cs.len() - i, 1int,
{
    if i < 0 || i >= cs.len() {
        true
    } else {
        class_holds(cs[i], c) && all_classes_hold(cs, i + 1, c)
    }
}

/// Decides whether the class accepts the character.
pub fn class_test(cls: &CharClass, c: char) -> (r: bool)
    ensures
        r == class_holds(*cls, c),
    decreases *cls, 0int, 0int,
{
    match cls {
        CharClass::Is(w) => c == *w,
        CharClass::InRange(lo, hi) => *lo as u32 <= c as u32 && c as u32 <= *hi as u32,
        CharClass::OneOf(ws) => {
            let mut i: usize = 0;
            let mut found: bool = false;
            while i < ws.len()
                invariant
                    0 <= i <= ws@.len(),
                    found == exists|k: int| 0 <= k < i && ws@[k] == c,
                decreases ws@.len() - i,
            {
                if ws[i] == c {
                    found = true;
                }
                i = i + 1;
            }
            assert(found == ws@.contains(c));
            found
        },
        CharClass::AsciiDigit => '0' as u32 <= c as u32 && c as u32 <= '9' as u32,
        CharClass::AsciiAlnum => ('0' as u32 <= c as u32 && c as u32 <= '9' as u32) || ('a'
            as u32 <= c as u32 && c as u32 <= 'z' as u32) || ('A' as u32 <= c as u32 && c as u32
            <= 'Z' as u32),
        CharClass::AsciiWhitespace => c == ' ' || c == '\t' || c == '\n' || c == '\u{C}' || c
            == '\r',
        CharClass::Alphabetic => char_is_alphabetic(c),
        CharClass::Alphanumeric => char_is_alphanumeric(c),
        CharClass::Not(inner) => !class_test(inner, c),
        CharClass::AnyOf(cs) => {
            let mut i: usize = 0;
            while i < cs.len()
                invariant
                    0 <= i <= cs@.len(),
                    *cls is AnyOf,
                    cs == cls->AnyOf_0,
                    any_class_holds(cs@, 0, c) == any_class_holds(cs@, i as int, c),
                decreases cs@.len() - i,
            {
                proof {
                    assert(decreases_to!(*cls => cls->AnyOf_0));
                    assert(decreases_to!(cls->AnyOf_0 => cls->AnyOf_0@));
                    assert(decreases_to!(cls->AnyOf_0@ => cs@[i as int]));
                    assert(decreases_to!(*cls => cs@[i as int]));
                }
                if class_test(&cs[i], c) {
                    return true;
                }
                i = i + 1;
            }
            false
        },
        CharClass::AllOf(cs) => {
            let mut i: usize = 0;
            while i < cs.len()
                invariant
                    0 <= i <= cs@.len(),
                    *cls is AllOf,
                    cs == cls->AllOf_0,
                    all_classes_hold(cs@, 0, c) == all_classes_hold(cs@, i as int, c),
                decreases cs@.len() - i,
            {
                proof {
                    assert(decreases_to!(*cls => cls->AllOf_0));
                    assert(decreases_to!(cls->AllOf_0 => cls->AllOf_0@));
                    assert(decreases_to!(cls->AllOf_0@ => cs@[i as int]));
                    assert(decreases_to!(*cls => cs@[i as int]));
                }
                if !class_test(&cs[i], c) {
                    return false;
                }
                i = i + 1;
            }
            true
        },
    }
}

} // verus!
