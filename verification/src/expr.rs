//! A compiled matching expression and the result of one match.

use vstd::prelude::*;
use crate::capture::Capture;
use crate::pattern::{
    check_pattern,
    first_error,
    lemma_valid_implies_wf,
    pattern_valid,
    pattern_wf,
    Pattern,
    PatternError,
    Span,
};

verus! {

/// One match.
pub struct Match {
    /// The matched index range, in the indices the input pairs carry.
    pub range: Span,
    /// The capture table as the match left it.
    pub capture: Capture,
    /// Where the remainder of the input begins: how many input pairs were
    /// consumed or skipped over.
    pub iter_remainder: usize,
    /// Whether the input was advanced before or during the match; false
    /// only when nothing was consumed and the caller asserted start of
    /// input.
    pub is_iter_advanced: bool,
}

/// The abstract value of a `Match`.
pub struct MatchV {
    pub range: Span,
    pub caps: Seq<Option<Span>>,
    pub rem: int,
    pub advanced: bool,
}

impl View for Match {
    type V = MatchV;

    open spec fn view(&self) -> MatchV {
        MatchV {
            range: self.range,
            caps: self.capture@,
            rem: self.iter_remainder as int,
            advanced: self.is_iter_advanced,
        }
    }
}

/// The abstract value of an optional `Match`.
pub open spec fn opt_match_view(m: Option<Match>) -> Option<MatchV> {
    match m {
        None => None,
        Some(x) => Some(x@),
    }
}

/// A pattern checked against its capture slot count, ready to run.
pub struct Expr {
    pattern: Pattern,
    n_slots: usize,
}

impl Expr {
    /// The pattern this expression runs.
    pub closed spec fn pat(&self) -> Pattern {
        self.pattern
    }

    /// The number of capture slots the expression declares.
    pub closed spec fn slots(&self) -> int {
        self.n_slots as int
    }

    /// What `Expr::new` establishes: the pattern has no structural fault.
    pub open spec fn wf(&self) -> bool {
        pattern_valid(self.pat(), self.slots()) && self.slots() >= 0
    }

    /// Builds an expression from a pattern and its capture slot count,
    /// rejecting at construction time every pattern with a structural
    /// fault: an empty capture list, a capture slot at or above
    /// `n_slots`, or `Between` bounds that permit no count.
    pub fn new(pattern: Pattern, n_slots: usize) -> (r: Result<Expr, PatternError>)
        ensures
            r is Ok <==> pattern_valid(pattern, n_slots as int),
            r matches Ok(e) ==> e.wf() && e.pat() == pattern && e.slots() == n_slots,
            r matches Err(err) ==> Some(err) == first_error(pattern, n_slots as int),
    {
        match check_pattern(&pattern, n_slots) {
            None => Ok(Expr { pattern, n_slots }),
            Some(err) => Err(err),
        }
    }

    /// The pattern, for the evaluator.
    pub fn pattern_ref(&self) -> (p: &Pattern)
        ensures
            *p == self.pat(),
    {
        &self.pattern
    }

    /// The number of capture slots.
    pub fn slot_count(&self) -> (n: usize)
        ensures
            n == self.slots(),
    {
        self.n_slots
    }

    /// A well-formed expression never names a slot outside its table.
    pub proof fn lemma_wf_pattern(&self)
        requires
            self.wf(),
        ensures
            pattern_wf(self.pat(), self.slots()),
    {
        lemma_valid_implies_wf(self.pat(), self.slots());
    }
}

} // verus!
