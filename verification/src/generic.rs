//! The drivers: match a prefix, or scan for the first match.
//!
//! The input is a sequence of `(end_index, char)` pairs — each character
//! together with the index just past it — and a cursor into it.  `start`
//! must be the start index of the first character at the cursor.

use vstd::prelude::*;
use crate::context::{Ctx, MatchCtx};
use crate::engine::{eval, node_matches};
use crate::expr::{opt_match_view, Expr, Match, MatchV};
use crate::pattern::{Pattern, Span};
use crate::props::lemma_eval_frame;

verus! {

/// A capture table of `n` empty slots.
pub open spec fn empty_caps(n: int) -> Seq<Option<Span>> {
    Seq::new(n as nat, |i: int| None)
}

/// The context a top-level match attempt starts from: nothing consumed,
/// the end index at `start`, and a cleared capture table.
pub open spec fn init_ctx(start: usize, is_first: bool, pos: int, n_slots: int) -> Ctx {
    Ctx { pos, end: start, first: is_first, caps: empty_caps(n_slots) }
}

/// What `starts_with` returns: the outcome of one match attempt at the
/// cursor.  On a match, the range runs from `start` to the end of the
/// last consumed character, the remainder begins after the consumed
/// pairs, and the advanced-flag is false only when nothing was consumed
/// and the caller asserted start of input.
pub open spec fn spec_starts_with(
    p: Pattern,
    n_slots: int,
    input: Seq<(usize, char)>,
    start: usize,
    is_first: bool,
    pos: int,
) -> Option<MatchV> {
    match eval(p, input, init_ctx(start, is_first, pos, n_slots)) {
        None => None,
        Some(c) => Some(
            MatchV {
                range: Span { start, end: c.end },
                caps: c.caps,
                rem: c.pos,
                advanced: !c.first,
            },
        ),
    }
}

/// What `find` returns: the first position at or after the cursor where
/// the pattern matches, with the match made there and the pair index the
/// match started from.  Skipping a character moves `start` to that
/// character's end index and clears `is_first`.
pub open spec fn spec_find(
    p: Pattern,
    n_slots: int,
    input: Seq<(usize, char)>,
    start: usize,
    is_first: bool,
    pos: int,
) -> Option<(MatchV, int)>
    decreases input.len() - pos,
{
    if pos < 0 || pos > input.len() {
        None
    } else {
        match spec_starts_with(p, n_slots, input, start, is_first, pos) {
            Some(m) => Some((m, pos)),
            None => if pos < input.len() {
                spec_find(p, n_slots, input, input[pos].0, false, pos + 1)
            } else {
                None
            },
        }
    }
}

/// What a prefix match guarantees: the remainder begins at or after the
/// cursor and within the input, the capture table has the declared size,
/// the range starts at `start` and ends at the end of the last consumed
/// character — at `start` itself when nothing was consumed — and the
/// advanced-flag is false exactly when nothing was consumed and the
/// caller asserted start of input.
pub proof fn lemma_spec_starts_with_frame(
    p: Pattern,
    n_slots: int,
    input: Seq<(usize, char)>,
    start: usize,
    is_first: bool,
    pos: int,
)
    requires
        0 <= pos <= input.len(),
        n_slots >= 0,
    ensures
        spec_starts_with(p, n_slots, input, start, is_first, pos) matches Some(m) ==> {
            &&& pos <= m.rem <= input.len()
            &&& m.caps.len() == n_slots
            &&& m.range.start == start
            &&& (m.rem == pos ==> m.range.end == start)
            &&& (m.rem > pos ==> m.range.end == input[m.rem - 1].0)
            &&& m.advanced == !(is_first && m.rem == pos)
        },
{
    lemma_eval_frame(p, input, init_ctx(start, is_first, pos, n_slots));
}

/// What a successful scan guarantees, in addition: the match begins at a
/// pair index between the cursor and the end of the input, and its range
/// starts at `start` when nothing was skipped, else at the end index of
/// the last skipped character.
pub proof fn lemma_spec_find_frame(
    p: Pattern,
    n_slots: int,
    input: Seq<(usize, char)>,
    start: usize,
    is_first: bool,
    pos: int,
)
    requires
        0 <= pos <= input.len(),
        n_slots >= 0,
    ensures
        spec_find(p, n_slots, input, start, is_first, pos) matches Some((m, ps)) ==> {
            &&& pos <= ps <= m.rem <= input.len()
            &&& m.caps.len() == n_slots
            &&& m.range.start == (if ps == pos { start } else { input[ps - 1].0 })
            &&& (m.rem == ps ==> m.range.end == m.range.start)
            &&& (m.rem > ps ==> m.range.end == input[m.rem - 1].0)
            &&& m.advanced == !(is_first && ps == pos && m.rem == pos)
        },
    decreases input.len() - pos,
{
    lemma_spec_starts_with_frame(p, n_slots, input, start, is_first, pos);
    if spec_starts_with(p, n_slots, input, start, is_first, pos) is None && pos < input.len() {
        lemma_spec_find_frame(p, n_slots, input, input[pos].0, false, pos + 1);
    }
}

/// Checks whether the input starting at the cursor begins with a match
/// of the expression.
///
/// Returns `None`, and consumes nothing, when the pattern does not match
/// there.
pub fn starts_with(
    expr: &Expr,
    start: usize,
    is_first: bool,
    input: &Vec<(usize, char)>,
    pos: usize,
) -> (m: Option<Match>)
    requires
        expr.wf(),
        pos <= input@.len(),
    ensures
        opt_match_view(m) == spec_starts_with(
            expr.pat(),
            expr.slots(),
            input@,
            start,
            is_first,
            pos as int,
        ),
{
    proof {
        expr.lemma_wf_pattern();
    }
    let mut ctx = MatchCtx::new(start, is_first, pos, expr.slot_count());
    proof {
        assert(ctx@.caps =~= empty_caps(expr.slots()));
        assert(ctx@ == init_ctx(start, is_first, pos as int, expr.slots()));
    }
    if node_matches(expr.pattern_ref(), input, &mut ctx) {
        Some(
            Match {
                range: Span { start, end: ctx.end },
                capture: ctx.caps,
                iter_remainder: ctx.pos,
                is_iter_advanced: !ctx.first,
            },
        )
    } else {
        None
    }
}

/// `find`, together with the pair index the returned match starts at.
pub(crate) fn find_from(
    expr: &Expr,
    start: usize,
    is_first: bool,
    input: &Vec<(usize, char)>,
    pos: usize,
) -> (r: Option<(Match, usize)>)
    requires
        expr.wf(),
        pos <= input@.len(),
    ensures
        match r {
            None => spec_find(expr.pat(), expr.slots(), input@, start, is_first, pos as int)
                is None,
            Some((m, ps)) => spec_find(expr.pat(), expr.slots(), input@, start, is_first, pos as int)
                == Some((m@, ps as int)),
        },
{
    let mut cur_start = start;
    let mut cur_first = is_first;
    let mut cur_pos = pos;
    loop
        invariant
            cur_pos <= input@.len(),
            expr.wf(),
            spec_find(expr.pat(), expr.slots(), input@, start, is_first, pos as int) == spec_find(
                expr.pat(),
                expr.slots(),
                input@,
                cur_start,
                cur_first,
                cur_pos as int,
            ),
        decreases input@.len() - cur_pos,
    {
        let m = starts_with(expr, cur_start, cur_first, input, cur_pos);
        if m.is_some() {
            let found = m.unwrap();
            return Some((found, cur_pos));
        }
        if cur_pos < input.len() {
            cur_start = input[cur_pos].0;
            cur_first = false;
            cur_pos = cur_pos + 1;
        } else {
            return None;
        }
    }
}

/// Finds the first place at or after the cursor where the expression
/// matches.
///
/// On failure at the cursor, one character is skipped — `start` becomes
/// that character's end index and `is_first` is cleared — and the attempt
/// repeats; `None` comes back only when the input is exhausted without a
/// match.
pub fn find(
    expr: &Expr,
    start: usize,
    is_first: bool,
    input: &Vec<(usize, char)>,
    pos: usize,
) -> (m: Option<Match>)
    requires
        expr.wf(),
        pos <= input@.len(),
    ensures
        opt_match_view(m) == match spec_find(
            expr.pat(),
            expr.slots(),
            input@,
            start,
            is_first,
            pos as int,
        ) {
            None => None,
            Some((mv, _)) => Some(mv),
        },
{
    match find_from(expr, start, is_first, input, pos) {
        Some((m, _)) => Some(m),
        None => None,
    }
}

} // verus!
