//! The pattern tree and its static validation.

use vstd::prelude::*;
use crate::class::CharClass;

verus! {

/// A half-open index range `start..end`.
#[derive(Clone, Copy, PartialEq, Eq, Structural, Debug)]
pub struct Span {
    pub start: usize,
    pub end: usize,
}

/// Positional anchors a `Pattern::Position` node may demand.
#[derive(Clone, Copy, PartialEq, Eq, Structural, Debug)]
pub enum Position {
    /// The inner pattern must match before any character was consumed.
    First,
    /// The input must be exhausted after the inner pattern matched.
    Last,
    /// Both constraints at once.
    FirstAndLast,
}

/// Bounds of a `Pattern::Repeat` node.
#[derive(Clone, Copy, PartialEq, Eq, Structural, Debug)]
pub enum RepeatBounds {
    /// The inner pattern matches exactly this many times.
    Exactly(usize),
    /// At least `lo` times, then greedily as often as possible.
    AtLeast(usize),
    /// At least `lo` times, then greedily up to `hi - 1` times in all;
    /// `hi` is exclusive.  A node whose `lo` is not below `hi` never
    /// matches.
    Between(usize, usize),
}

/// A pattern tree.
pub enum Pattern {
    /// A single character accepted by the class.
    Test(CharClass),
    /// All children in order; the empty sequence matches the empty prefix.
    All(Vec<Pattern>),
    /// The first matching child, tried in order; the empty alternative
    /// never matches.
    Any(Vec<Pattern>),
    /// Bounded greedy repetition of the child.
    Repeat(Box<Pattern>, RepeatBounds),
    /// On success of the child, the matched range is written to every
    /// listed capture slot.
    Capture(Box<Pattern>, Vec<usize>),
    /// The child with positional anchors.
    Position(Box<Pattern>, Position),
}

/// Every capture slot the pattern names lies below `n_slots`; what the
/// evaluator needs of a pattern to run against a capture table of that
/// size.
pub open spec fn pattern_wf(p: Pattern, n_slots: int) -> bool
    decreases p, 0int, 0int,
{
    match p {
        Pattern::Test(_) => true,
        Pattern::All(cs) => patterns_wf(cs@, 0, n_slots),
        Pattern::Any(cs) => patterns_wf(cs@, 0, n_slots),
        Pattern::Repeat(child, _) => pattern_wf(*child, n_slots),
        Pattern::Capture(child, slots) => pattern_wf(*child, n_slots) && (forall|k: int|
            0 <= k < slots@.len() ==> slots@[k] < n_slots),
        Pattern::Position(child, _) => pattern_wf(*child, n_slots),
    }
}

/// `pattern_wf` of every pattern among `cs[i..]`.
pub open spec fn patterns_wf(cs: Seq<Pattern>, i: int, n_slots: int) -> bool
    decreases cs, cs.len() - i, 1int,
{
    if i < 0 || i >= cs.len() {
        true
    } else {
        pattern_wf(cs[i], n_slots) && patterns_wf(cs, i + 1, n_slots)
    }
}

/// `patterns_wf` covers each element it ranges over.
pub proof fn lemma_patterns_wf_index(cs: Seq<Pattern>, i: int, n_slots: int, k: int)
    requires
        patterns_wf(cs, i, n_slots),
        i <= k < cs.len(),
        0 <= i,
    ensures
        pattern_wf(cs[k], n_slots),
    decreases k - i,
{
    if k > i {
        lemma_patterns_wf_index(cs, i + 1, n_slots, k);
    }
}

/// A structural fault in a pattern, reported when an `Expr` is built.
#[derive(Clone, Copy, PartialEq, Eq, Structural, Debug)]
pub enum PatternError {
    /// A capture node with an empty list of slots.
    EmptyCapture,
    /// A capture slot at or above the declared slot count.
    CaptureOutOfRange,
    /// A `Between` repetition whose bounds leave no permitted count.
    EmptyRepeatRange,
}

/// The first structural fault of the pattern in preorder, if any:
/// an empty capture list, a capture slot at or above `n_slots`, or
/// `Between` bounds with `lo >= hi`.
pub open spec fn first_error(p: Pattern, n_slots: int) -> Option<PatternError>
    decreases p, 0int, 0int,
{
    match p {
        Pattern::Test(_) => None,
        Pattern::All(cs) => first_error_seq(cs@, 0, n_slots),
        Pattern::Any(cs) => first_error_seq(cs@, 0, n_slots),
        Pattern::Repeat(child, b) => match b {
            RepeatBounds::Between(lo, hi) => if lo >= hi {
                Some(PatternError::EmptyRepeatRange)
            } else {
                first_error(*child, n_slots)
            },
            _ => first_error(*child, n_slots),
        },
        Pattern::Capture(child, slots) => if slots@.len() == 0 {
            Some(PatternError::EmptyCapture)
        } else if exists|k: int| 0 <= k < slots@.len() && slots@[k] >= n_slots {
            Some(PatternError::CaptureOutOfRange)
        } else {
            first_error(*child, n_slots)
        },
        Pattern::Position(child, _) => first_error(*child, n_slots),
    }
}

/// The first structural fault among `cs[i..]`, if any.
pub open spec fn first_error_seq(cs: Seq<Pattern>, i: int, n_slots: int) -> Option<PatternError>
    decreases cs, cs.len() - i, 1int,
{
    if i < 0 || i >= cs.len() {
        None
    } else {
        match first_error(cs[i], n_slots) {
            Some(e) => Some(e),
            None => first_error_seq(cs, i + 1, n_slots),
        }
    }
}

/// A pattern without structural faults.
pub open spec fn pattern_valid(p: Pattern, n_slots: int) -> bool {
    first_error(p, n_slots) is None
}

/// A valid pattern names no slot at or above `n_slots`.
pub proof fn lemma_valid_implies_wf(p: Pattern, n_slots: int)
    requires
        pattern_valid(p, n_slots),
    ensures
        pattern_wf(p, n_slots),
    decreases p, 0int, 0int,
{
    match p {
        Pattern::Test(_) => {},
        Pattern::All(cs) => {
            lemma_valid_seq_implies_wf(cs@, 0, n_slots);
        },
        Pattern::Any(cs) => {
            lemma_valid_seq_implies_wf(cs@, 0, n_slots);
        },
        Pattern::Repeat(child, b) => {
            lemma_valid_implies_wf(*child, n_slots);
        },
        Pattern::Capture(child, slots) => {
            lemma_valid_implies_wf(*child, n_slots);
        },
        Pattern::Position(child, _) => {
            lemma_valid_implies_wf(*child, n_slots);
        },
    }
}

proof fn lemma_valid_seq_implies_wf(cs: Seq<Pattern>, i: int, n_slots: int)
    requires
        first_error_seq(cs, i, n_slots) is None,
    ensures
        patterns_wf(cs, i, n_slots),
    decreases cs, cs.len() - i, 1int,
{
    if 0 <= i < cs.len() {
        lemma_valid_implies_wf(cs[i], n_slots);
        lemma_valid_seq_implies_wf(cs, i + 1, n_slots);
    }
}

/// A stretch of children without structural faults has none as a whole.
pub proof fn lemma_first_error_seq_none(cs: Seq<Pattern>, i: int, n_slots: int)
    requires
        forall|j: int| i <= j < cs.len() ==> first_error(#[trigger] cs[j], n_slots) is None,
    ensures
        first_error_seq(cs, i, n_slots) is None,
    decreases cs.len() - i,
{
    if 0 <= i < cs.len() {
        lemma_first_error_seq_none(cs, i + 1, n_slots);
    }
}

/// An `All` node whose children have no structural fault has none.
pub proof fn lemma_valid_all_node(p: Pattern, n_slots: int)
    requires
        p is All,
        forall|j: int|
            0 <= j < p->All_0@.len() ==> first_error(#[trigger] p->All_0@[j], n_slots) is None,
    ensures
        pattern_valid(p, n_slots),
{
    lemma_first_error_seq_none(p->All_0@, 0, n_slots);
}

/// An `Any` node whose children have no structural fault has none.
pub proof fn lemma_valid_any_node(p: Pattern, n_slots: int)
    requires
        p is Any,
        forall|j: int|
            0 <= j < p->Any_0@.len() ==> first_error(#[trigger] p->Any_0@[j], n_slots) is None,
    ensures
        pattern_valid(p, n_slots),
{
    lemma_first_error_seq_none(p->Any_0@, 0, n_slots);
}

/// A `Capture` node with a non-empty list of in-range slots over a
/// fault-free child has no structural fault.
pub proof fn lemma_valid_capture_node(p: Pattern, n_slots: int)
    requires
        p is Capture,
        p->Capture_1@.len() > 0,
        forall|j: int| 0 <= j < p->Capture_1@.len() ==> #[trigger] p->Capture_1@[j] < n_slots,
        pattern_valid(*p->Capture_0, n_slots),
    ensures
        pattern_valid(p, n_slots),
{
}

/// Returns the first structural fault of the pattern in preorder, if any,
/// against a capture table of `n_slots` slots.
pub fn check_pattern(p: &Pattern, n_slots: usize) -> (r: Option<PatternError>)
    ensures
        r == first_error(*p, n_slots as int),
    decreases *p, 0int, 0int,
{
    match p {
        Pattern::Test(_) => None,
        Pattern::All(cs) => {
            proof {
                assert(decreases_to!(*p => p->All_0));
                assert(decreases_to!(p->All_0 => p->All_0@));
            }
            check_patterns(cs, n_slots)
        },
        Pattern::Any(cs) => {
            proof {
                assert(decreases_to!(*p => p->Any_0));
                assert(decreases_to!(p->Any_0 => p->Any_0@));
            }
            check_patterns(cs, n_slots)
        },
        Pattern::Repeat(child, b) => {
            match b {
                RepeatBounds::Between(lo, hi) => {
                    if *lo >= *hi {
                        Some(PatternError::EmptyRepeatRange)
                    } else {
                        check_pattern(child, n_slots)
                    }
                },
                _ => check_pattern(child, n_slots),
            }
        },
        Pattern::Capture(child, slots) => {
            if slots.len() == 0 {
                return Some(PatternError::EmptyCapture);
            }
            let mut k: usize = 0;
            while k < slots.len()
                invariant
                    0 <= k <= slots@.len(),
                    *p is Capture,
                    *slots == p->Capture_1,
                    forall|j: int| 0 <= j < k ==> slots@[j] < n_slots,
                decreases slots@.len() - k,
            {
                if slots[k] >= n_slots {
                    proof {
                        assert(*p is Capture);
                        assert(p->Capture_1 == *slots);
                        assert(p->Capture_1@[k as int] >= n_slots as int);
                    }
                    return Some(PatternError::CaptureOutOfRange);
                }
                k = k + 1;
            }
            check_pattern(child, n_slots)
        },
        Pattern::Position(child, _) => check_pattern(child, n_slots),
    }
}

/// Returns the first structural fault among the children, if any.
fn check_patterns(cs: &Vec<Pattern>, n_slots: usize) -> (r: Option<PatternError>)
    ensures
        r == first_error_seq(cs@, 0, n_slots as int),
    decreases cs@, 1int, 0int,
{
    let mut i: usize = 0;
    while i < cs.len()
        invariant
            0 <= i <= cs@.len(),
            first_error_seq(cs@, 0, n_slots as int) == first_error_seq(
                cs@,
                i as int,
                n_slots as int,
            ),
        decreases cs@.len() - i,
    {
        let e = check_pattern(&cs[i], n_slots);
        if e.is_some() {
            return e;
        }
        i = i + 1;
    }
    None
}

} // verus!
