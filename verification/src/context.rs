//! The match context: the mutable state one match attempt runs over.

use vstd::prelude::*;
use crate::capture::Capture;
use crate::pattern::Span;

verus! {

/// The abstract value of a match context.
///
/// `pos` counts the `(end_index, char)` pairs already consumed from the
/// input, `end` is the index just past the last consumed character, `first`
/// says that no character was consumed yet and the caller asserted start of
/// input, and `caps` is the capture table.
pub struct Ctx {
    pub pos: int,
    pub end: usize,
    pub first: bool,
    pub caps: Seq<Option<Span>>,
}

/// The context lies within the input: `pos` points into it.
pub open spec fn ctx_wf(ctx: Ctx, input: Seq<(usize, char)>) -> bool {
    0 <= ctx.pos <= input.len()
}

/// The mutable state of one match attempt.
pub struct MatchCtx {
    /// How many input pairs were consumed.
    pub pos: usize,
    /// The index just past the last consumed character; the start index
    /// while nothing was consumed.
    pub end: usize,
    /// True while nothing was consumed and the caller asserted start of
    /// input.
    pub first: bool,
    /// The capture table.
    pub caps: Capture,
}

impl View for MatchCtx {
    type V = Ctx;

    open spec fn view(&self) -> Ctx {
        Ctx { pos: self.pos as int, end: self.end, first: self.first, caps: self.caps@ }
    }
}

impl MatchCtx {
    /// A fresh context at `start`, with `n_slots` empty capture slots.
    pub fn new(start: usize, is_first: bool, pos: usize, n_slots: usize) -> (c: MatchCtx)
        ensures
            c@.pos == pos,
            c@.end == start,
            c@.first == is_first,
            c@.caps.len() == n_slots,
            forall|i: int| 0 <= i < n_slots ==> c@.caps[i] is None,
    {
        MatchCtx { pos, end: start, first: is_first, caps: Capture::new(n_slots) }
    }

    /// A snapshot taken at a backtrack point.
    pub fn cache(&self) -> (c: MatchCtx)
        ensures
            c@ == self@,
    {
        MatchCtx { pos: self.pos, end: self.end, first: self.first, caps: self.caps.cache() }
    }

    /// Rolls the context back to a snapshot.
    pub fn restore(&mut self, saved: MatchCtx)
        ensures
            final(self)@ == saved@,
    {
        *self = saved;
    }
}

} // verus!
