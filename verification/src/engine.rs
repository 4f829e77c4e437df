//! The node evaluators.
//!
//! `eval` is the single specification of matching: a function from a
//! pattern, the input pairs and a context to the context after the match,
//! or nothing when the sub-pattern does not match there.  Failure leaves
//! no trace: a failed branch means the caller goes on from its own
//! context, which is the rollback rule every executable evaluator is held
//! to.
//!
//! `node_matches` is the executable evaluator, proved to return exactly
//! what `eval` says and to restore the context on failure.

use vstd::prelude::*;
use crate::class::{class_holds, class_test};
use crate::context::{ctx_wf, Ctx, MatchCtx};
use crate::pattern::{
    lemma_patterns_wf_index,
    pattern_wf,
    patterns_wf,
    Pattern,
    Position,
    RepeatBounds,
    Span,
};
use crate::props::lemma_eval_frame;

verus! {

/// `caps` with `Some(sp)` recorded in every listed slot; slots at or
/// above the table length are ignored.
pub open spec fn write_slots(caps: Seq<Option<Span>>, slots: Seq<usize>, sp: Span) -> Seq<
    Option<Span>,
>
    decreases slots.len(),
{
    if slots.len() == 0 {
        caps
    } else {
        let rest = write_slots(caps, slots.drop_last(), sp);
        if (slots.last() as int) < caps.len() {
            rest.update(slots.last() as int, Some(sp))
        } else {
            rest
        }
    }
}

/// What it means for a pattern to match: the context after the match,
/// starting from `ctx`, or `None` when the pattern does not match there.
///
/// A `Test` consumes one accepted character and clears the first-flag.
/// An `All` runs its children in order; an `Any` returns its first
/// matching child's outcome.  A `Repeat` runs the required count, then
/// greedily as many further rounds as its bound allows, keeping every
/// successful round; a round that consumes nothing ends the greedy phase,
/// since no later round could change the context further.  A `Capture`
/// records the child's range in every listed slot.  A `Position` adds the
/// start and end-of-input constraints.
pub open spec fn eval(p: Pattern, input: Seq<(usize, char)>, ctx: Ctx) -> Option<Ctx>
    decreases p, 0int, 0int,
{
    match p {
        Pattern::Test(cls) => if 0 <= ctx.pos < input.len() && class_holds(
            cls,
            input[ctx.pos].1,
        ) {
            Some(
                Ctx {
                    pos: ctx.pos + 1,
                    end: input[ctx.pos].0,
                    first: false,
                    caps: ctx.caps,
                },
            )
        } else {
            None
        },
        Pattern::All(cs) => eval_all(cs@, 0, input, ctx),
        Pattern::Any(cs) => eval_any(cs@, 0, input, ctx),
        Pattern::Repeat(child, b) => match b {
            RepeatBounds::Exactly(n) => eval_rep_lo(*child, n as int, input, ctx),
            RepeatBounds::AtLeast(lo) => match eval_rep_lo(*child, lo as int, input, ctx) {
                None => None,
                Some(c1) => Some(eval_rep_more(*child, input.len() - c1.pos + 1, input, c1)),
            },
            RepeatBounds::Between(lo, hi) => if lo >= hi {
                None
            } else {
                match eval_rep_lo(*child, lo as int, input, ctx) {
                    None => None,
                    Some(c1) => Some(eval_rep_more(*child, hi - 1 - lo, input, c1)),
                }
            },
        },
        Pattern::Capture(child, slots) => match eval(*child, input, ctx) {
            None => None,
            Some(c1) => Some(
                Ctx {
                    caps: write_slots(c1.caps, slots@, Span { start: ctx.end, end: c1.end }),
                    ..c1
                },
            ),
        },
        Pattern::Position(child, pos) => if (pos is First || pos is FirstAndLast) && !ctx.first {
            None
        } else {
            match eval(*child, input, ctx) {
                None => None,
                Some(c1) => if (pos is Last || pos is FirstAndLast) && c1.pos < input.len() {
                    None
                } else {
                    Some(c1)
                },
            }
        },
    }
}

/// The children `cs[i..]` run in order; the empty rest matches without
/// consuming.
pub open spec fn eval_all(cs: Seq<Pattern>, i: int, input: Seq<(usize, char)>, ctx: Ctx) -> Option<
    Ctx,
>
    decreases cs, cs.len() - i, 1int,
{
    if i < 0 || i >= cs.len() {
        Some(ctx)
    } else {
        match eval(cs[i], input, ctx) {
            None => None,
            Some(c1) => eval_all(cs, i + 1, input, c1),
        }
    }
}

/// The first child among `cs[i..]` that matches at `ctx`; the empty rest
/// never matches.
pub open spec fn eval_any(cs: Seq<Pattern>, i: int, input: Seq<(usize, char)>, ctx: Ctx) -> Option<
    Ctx,
>
    decreases cs, cs.len() - i, 1int,
{
    if i < 0 || i >= cs.len() {
        None
    } else {
        match eval(cs[i], input, ctx) {
            Some(c1) => Some(c1),
            None => eval_any(cs, i + 1, input, ctx),
        }
    }
}

/// The required phase of a repetition: `n` consecutive matches of
/// `child`, each from where the previous one ended.
pub open spec fn eval_rep_lo(child: Pattern, n: int, input: Seq<(usize, char)>, ctx: Ctx) -> Option<
    Ctx,
>
    decreases child, n, 1int,
{
    if n <= 0 {
        Some(ctx)
    } else {
        match eval(child, input, ctx) {
            None => None,
            Some(c1) => eval_rep_lo(child, n - 1, input, c1),
        }
    }
}

/// The greedy phase of a repetition: up to `budget` further rounds of
/// `child`, keeping every success, stopping at the first failure or at a
/// round that consumed nothing.
pub open spec fn eval_rep_more(child: Pattern, budget: int, input: Seq<(usize, char)>, ctx: Ctx) -> Ctx
    decreases child, budget, 1int,
{
    if budget <= 0 {
        ctx
    } else {
        match eval(child, input, ctx) {
            None => ctx,
            Some(c1) => if c1.pos <= ctx.pos {
                c1
            } else {
                eval_rep_more(child, budget - 1, input, c1)
            },
        }
    }
}

/// Decides whether the pattern matches at the context.
///
/// On success the context reflects the consumption, exactly as `eval`
/// says; on failure every change made during the attempt has been rolled
/// back and the context is the one observed at entry.
pub fn node_matches(p: &Pattern, input: &Vec<(usize, char)>, ctx: &mut MatchCtx) -> (r: bool)
    requires
        ctx_wf(old(ctx)@, input@),
        pattern_wf(*p, old(ctx)@.caps.len() as int),
    ensures
        r == (eval(*p, input@, old(ctx)@) is Some),
        r ==> Some(final(ctx)@) == eval(*p, input@, old(ctx)@),
        !r ==> final(ctx)@ == old(ctx)@,
        ctx_wf(final(ctx)@, input@),
        final(ctx)@.caps.len() == old(ctx)@.caps.len(),
    decreases *p, 0int, 0int,
{
    match p {
        Pattern::Test(cls) => {
            if ctx.pos < input.len() {
                let pair = input[ctx.pos];
                if class_test(cls, pair.1) {
                    ctx.end = pair.0;
                    ctx.first = false;
                    ctx.pos = ctx.pos + 1;
                    true
                } else {
                    false
                }
            } else {
                false
            }
        },
        Pattern::All(cs) => {
            proof {
                assert(decreases_to!(*p => p->All_0));
                assert(decreases_to!(p->All_0 => p->All_0@));
            }
            all_matches(cs, input, ctx)
        },
        Pattern::Any(cs) => {
            proof {
                assert(decreases_to!(*p => p->Any_0));
                assert(decreases_to!(p->Any_0 => p->Any_0@));
            }
            any_matches(cs, input, ctx)
        },
        Pattern::Repeat(child, b) => {
            proof {
                assert(decreases_to!(*p => p->Repeat_0));
            }
            match b {
                RepeatBounds::Exactly(n) => rep_lo_matches(child, *n, input, ctx),
                RepeatBounds::AtLeast(lo) => {
                    if rep_lo_matches(child, *lo, input, ctx) {
                        rep_more_unbounded(child, input, ctx);
                        true
                    } else {
                        false
                    }
                },
                RepeatBounds::Between(lo, hi) => {
                    if *lo >= *hi {
                        false
                    } else {
                        if rep_lo_matches(child, *lo, input, ctx) {
                            rep_more_bounded(child, *hi - 1 - *lo, input, ctx);
                            true
                        } else {
                            false
                        }
                    }
                },
            }
        },
        Pattern::Capture(child, slots) => {
            proof {
                assert(decreases_to!(*p => p->Capture_0));
            }
            let start = ctx.end;
            let ghost ctx0 = ctx@;
            if !node_matches(child, input, ctx) {
                return false;
            }
            let sp = Span { start, end: ctx.end };
            let ghost c1 = ctx@;
            let mut k: usize = 0;
            while k < slots.len()
                invariant
                    0 <= k <= slots@.len(),
                    *p is Capture,
                    *slots == p->Capture_1,
                    pattern_wf(*p, ctx0.caps.len() as int),
                    ctx@.caps.len() == c1.caps.len(),
                    c1.caps.len() == ctx0.caps.len(),
                    ctx@.pos == c1.pos,
                    ctx@.end == c1.end,
                    ctx@.first == c1.first,
                    ctx@.caps == write_slots(c1.caps, slots@.take(k as int), sp),
                decreases slots@.len() - k,
            {
                proof {
                    assert(slots@.take(k + 1).drop_last() =~= slots@.take(k as int));
                    assert(slots@.take(k + 1).last() == slots@[k as int]);
                }
                ctx.caps.set(slots[k], sp);
                k = k + 1;
            }
            proof {
                assert(slots@.take(slots@.len() as int) =~= slots@);
            }
            true
        },
        Pattern::Position(child, anchor) => {
            proof {
                assert(decreases_to!(*p => p->Position_0));
            }
            let first_required = matches!(anchor, Position::First | Position::FirstAndLast);
            if first_required && !ctx.first {
                return false;
            }
            let last_required = matches!(anchor, Position::Last | Position::FirstAndLast);
            if !last_required {
                node_matches(child, input, ctx)
            } else {
                let saved = ctx.cache();
                if !node_matches(child, input, ctx) {
                    false
                } else if ctx.pos < input.len() {
                    ctx.restore(saved);
                    false
                } else {
                    true
                }
            }
        },
    }
}

/// Runs the children in order; on any child's failure the context is
/// rolled back to the state at entry, so no capture written by an earlier
/// child leaks out of a failed sequence.
fn all_matches(cs: &Vec<Pattern>, input: &Vec<(usize, char)>, ctx: &mut MatchCtx) -> (r: bool)
    requires
        ctx_wf(old(ctx)@, input@),
        patterns_wf(cs@, 0, old(ctx)@.caps.len() as int),
    ensures
        r == (eval_all(cs@, 0, input@, old(ctx)@) is Some),
        r ==> Some(final(ctx)@) == eval_all(cs@, 0, input@, old(ctx)@),
        !r ==> final(ctx)@ == old(ctx)@,
        ctx_wf(final(ctx)@, input@),
        final(ctx)@.caps.len() == old(ctx)@.caps.len(),
    decreases cs@, 1int, 0int,
{
    let saved = ctx.cache();
    let ghost ctx0 = ctx@;
    let mut i: usize = 0;
    while i < cs.len()
        invariant
            0 <= i <= cs@.len(),
            ctx0 == old(ctx)@,
            saved@ == ctx0,
            ctx_wf(ctx0, input@),
            ctx_wf(ctx@, input@),
            ctx@.caps.len() == ctx0.caps.len(),
            patterns_wf(cs@, 0, ctx0.caps.len() as int),
            eval_all(cs@, 0, input@, ctx0) == eval_all(cs@, i as int, input@, ctx@),
        decreases cs@.len() - i,
    {
        proof {
            lemma_patterns_wf_index(cs@, 0, ctx0.caps.len() as int, i as int);
        }
        if !node_matches(&cs[i], input, ctx) {
            ctx.restore(saved);
            return false;
        }
        i = i + 1;
    }
    true
}

/// Tries the children in order and takes the first that matches; a failed
/// branch has already rolled itself back, so the next one starts from the
/// context observed at entry.
fn any_matches(cs: &Vec<Pattern>, input: &Vec<(usize, char)>, ctx: &mut MatchCtx) -> (r: bool)
    requires
        ctx_wf(old(ctx)@, input@),
        patterns_wf(cs@, 0, old(ctx)@.caps.len() as int),
    ensures
        r == (eval_any(cs@, 0, input@, old(ctx)@) is Some),
        r ==> Some(final(ctx)@) == eval_any(cs@, 0, input@, old(ctx)@),
        !r ==> final(ctx)@ == old(ctx)@,
        ctx_wf(final(ctx)@, input@),
        final(ctx)@.caps.len() == old(ctx)@.caps.len(),
    decreases cs@, 1int, 0int,
{
    let ghost ctx0 = ctx@;
    let mut i: usize = 0;
    while i < cs.len()
        invariant
            0 <= i <= cs@.len(),
            ctx0 == old(ctx)@,
            ctx@ == ctx0,
            ctx_wf(ctx0, input@),
            patterns_wf(cs@, 0, ctx0.caps.len() as int),
            eval_any(cs@, 0, input@, ctx0) == eval_any(cs@, i as int, input@, ctx0),
        decreases cs@.len() - i,
    {
        proof {
            lemma_patterns_wf_index(cs@, 0, ctx0.caps.len() as int, i as int);
        }
        if node_matches(&cs[i], input, ctx) {
            return true;
        }
        i = i + 1;
    }
    false
}

/// The required phase of a repetition: the child must match `n` times in
/// a row; on failure the context is rolled back to the state at entry.
fn rep_lo_matches(child: &Pattern, n: usize, input: &Vec<(usize, char)>, ctx: &mut MatchCtx) -> (r:
    bool)
    requires
        ctx_wf(old(ctx)@, input@),
        pattern_wf(*child, old(ctx)@.caps.len() as int),
    ensures
        r == (eval_rep_lo(*child, n as int, input@, old(ctx)@) is Some),
        r ==> Some(final(ctx)@) == eval_rep_lo(*child, n as int, input@, old(ctx)@),
        !r ==> final(ctx)@ == old(ctx)@,
        ctx_wf(final(ctx)@, input@),
        final(ctx)@.caps.len() == old(ctx)@.caps.len(),
    decreases *child, 1int, 1int,
{
    let saved = ctx.cache();
    let ghost ctx0 = ctx@;
    let mut j: usize = 0;
    while j < n
        invariant
            0 <= j <= n,
            ctx0 == old(ctx)@,
            saved@ == ctx0,
            ctx_wf(ctx0, input@),
            ctx_wf(ctx@, input@),
            ctx@.caps.len() == ctx0.caps.len(),
            pattern_wf(*child, ctx0.caps.len() as int),
            eval_rep_lo(*child, n as int, input@, ctx0) == eval_rep_lo(
                *child,
                n - j,
                input@,
                ctx@,
            ),
        decreases n - j,
    {
        if !node_matches(child, input, ctx) {
            ctx.restore(saved);
            return false;
        }
        j = j + 1;
    }
    true
}

/// The greedy phase of a repetition without an upper bound: the child
/// runs again and again until it fails or until a round consumes nothing.
fn rep_more_unbounded(child: &Pattern, input: &Vec<(usize, char)>, ctx: &mut MatchCtx)
    requires
        ctx_wf(old(ctx)@, input@),
        pattern_wf(*child, old(ctx)@.caps.len() as int),
    ensures
        final(ctx)@ == eval_rep_more(
            *child,
            input@.len() - old(ctx)@.pos + 1,
            input@,
            old(ctx)@,
        ),
        ctx_wf(final(ctx)@, input@),
        final(ctx)@.caps.len() == old(ctx)@.caps.len(),
    decreases *child, 1int, 1int,
{
    let ghost ctx0 = ctx@;
    let ghost budget0: int = input@.len() - ctx0.pos + 1;
    let ghost mut left: int = budget0;
    loop
        invariant
            ctx0 == old(ctx)@,
            budget0 == input@.len() - ctx0.pos + 1,
            ctx_wf(ctx@, input@),
            ctx@.caps.len() == ctx0.caps.len(),
            pattern_wf(*child, ctx0.caps.len() as int),
            left > input@.len() - ctx@.pos,
            eval_rep_more(*child, budget0, input@, ctx0) == eval_rep_more(
                *child,
                left,
                input@,
                ctx@,
            ),
        decreases input@.len() - ctx@.pos,
    {
        let before = ctx.pos;
        let ghost pre = ctx@;
        if !node_matches(child, input, ctx) {
            return;
        }
        proof {
            lemma_eval_frame(*child, input@, pre);
        }
        if ctx.pos == before {
            return;
        }
        proof {
            left = left - 1;
        }
    }
}

/// The greedy phase of a repetition with an upper bound: at most `budget`
/// further rounds, stopping early when the child fails or consumes
/// nothing.
fn rep_more_bounded(child: &Pattern, budget: usize, input: &Vec<(usize, char)>, ctx: &mut MatchCtx)
    requires
        ctx_wf(old(ctx)@, input@),
        pattern_wf(*child, old(ctx)@.caps.len() as int),
    ensures
        final(ctx)@ == eval_rep_more(*child, budget as int, input@, old(ctx)@),
        ctx_wf(final(ctx)@, input@),
        final(ctx)@.caps.len() == old(ctx)@.caps.len(),
    decreases *child, 1int, 1int,
{
    let ghost ctx0 = ctx@;
    let mut left = budget;
    while left > 0
        invariant
            0 <= left <= budget,
            ctx0 == old(ctx)@,
            ctx_wf(ctx@, input@),
            ctx@.caps.len() == ctx0.caps.len(),
            pattern_wf(*child, ctx0.caps.len() as int),
            eval_rep_more(*child, budget as int, input@, ctx0) == eval_rep_more(
                *child,
                left as int,
                input@,
                ctx@,
            ),
        decreases left,
    {
        let before = ctx.pos;
        let ghost pre = ctx@;
        if !node_matches(child, input, ctx) {
            return;
        }
        proof {
            lemma_eval_frame(*child, input@, pre);
        }
        if ctx.pos == before {
            return;
        }
        left = left - 1;
    }
}

} // verus!
