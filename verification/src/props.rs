//! Structural facts about the evaluator, proved once by induction and
//! used by the executable engine and by the laws.

use vstd::prelude::*;
use crate::context::{ctx_wf, Ctx};
use crate::engine::{eval, eval_all, eval_any, eval_rep_lo, eval_rep_more, write_slots};
use crate::pattern::{Pattern, RepeatBounds, Span};

verus! {

/// How one successful step relates the context before to the context
/// after: the cursor moves forward and stays in the input, the capture
/// table keeps its size, the first-flag survives exactly while nothing
/// was consumed, and the end index either stays or is the end of the last
/// consumed character.
pub open spec fn step_frame(ctx: Ctx, c: Ctx, input: Seq<(usize, char)>) -> bool {
    &&& ctx.pos <= c.pos <= input.len()
    &&& c.caps.len() == ctx.caps.len()
    &&& (c.first <==> (ctx.first && c.pos == ctx.pos))
    &&& (c.pos == ctx.pos ==> c.end == ctx.end)
    &&& (c.pos > ctx.pos ==> c.end == input[c.pos - 1].0)
}

/// Writing capture slots does not change the table's size.
pub proof fn lemma_write_slots_len(caps: Seq<Option<Span>>, slots: Seq<usize>, sp: Span)
    ensures
        write_slots(caps, slots, sp).len() == caps.len(),
    decreases slots.len(),
{
    if slots.len() > 0 {
        lemma_write_slots_len(caps, slots.drop_last(), sp);
    }
}

/// Every successful evaluation satisfies the step frame.
pub proof fn lemma_eval_frame(p: Pattern, input: Seq<(usize, char)>, ctx: Ctx)
    requires
        ctx_wf(ctx, input),
    ensures
        eval(p, input, ctx) matches Some(c) ==> step_frame(ctx, c, input),
    decreases p, 0int, 0int,
{
    match p {
        Pattern::Test(_) => {},
        Pattern::All(cs) => {
            lemma_eval_all_frame(cs@, 0, input, ctx);
        },
        Pattern::Any(cs) => {
            lemma_eval_any_frame(cs@, 0, input, ctx);
        },
        Pattern::Repeat(child, b) => {
            let lo: int = match b {
                RepeatBounds::Exactly(n) => n as int,
                RepeatBounds::AtLeast(lo) => lo as int,
                RepeatBounds::Between(lo, _) => lo as int,
            };
            lemma_eval_rep_lo_frame(*child, lo, input, ctx);
            match eval_rep_lo(*child, lo, input, ctx) {
                Some(c1) => {
                    lemma_eval_rep_more_frame(*child, input.len() - c1.pos + 1, input, c1);
                    match b {
                        RepeatBounds::Between(blo, bhi) => {
                            lemma_eval_rep_more_frame(*child, bhi - 1 - blo, input, c1);
                        },
                        _ => {},
                    }
                },
                None => {},
            }
        },
        Pattern::Capture(child, slots) => {
            lemma_eval_frame(*child, input, ctx);
            match eval(*child, input, ctx) {
                Some(c1) => {
                    lemma_write_slots_len(c1.caps, slots@, Span { start: ctx.end, end: c1.end });
                },
                None => {},
            }
        },
        Pattern::Position(child, _) => {
            lemma_eval_frame(*child, input, ctx);
        },
    }
}

/// `eval_all` satisfies the step frame.
pub proof fn lemma_eval_all_frame(cs: Seq<Pattern>, i: int, input: Seq<(usize, char)>, ctx: Ctx)
    requires
        ctx_wf(ctx, input),
    ensures
        eval_all(cs, i, input, ctx) matches Some(c) ==> step_frame(ctx, c, input),
    decreases cs, cs.len() - i, 1int,
{
    if 0 <= i < cs.len() {
        lemma_eval_frame(cs[i], input, ctx);
        match eval(cs[i], input, ctx) {
            Some(c1) => {
                lemma_eval_all_frame(cs, i + 1, input, c1);
            },
            None => {},
        }
    }
}

/// `eval_any` satisfies the step frame.
pub proof fn lemma_eval_any_frame(cs: Seq<Pattern>, i: int, input: Seq<(usize, char)>, ctx: Ctx)
    requires
        ctx_wf(ctx, input),
    ensures
        eval_any(cs, i, input, ctx) matches Some(c) ==> step_frame(ctx, c, input),
    decreases cs, cs.len() - i, 1int,
{
    if 0 <= i < cs.len() {
        lemma_eval_frame(cs[i], input, ctx);
        lemma_eval_any_frame(cs, i + 1, input, ctx);
    }
}

/// The required phase of a repetition satisfies the step frame.
pub proof fn lemma_eval_rep_lo_frame(child: Pattern, n: int, input: Seq<(usize, char)>, ctx: Ctx)
    requires
        ctx_wf(ctx, input),
    ensures
        eval_rep_lo(child, n, input, ctx) matches Some(c) ==> step_frame(ctx, c, input),
    decreases child, n, 1int,
{
    if n > 0 {
        lemma_eval_frame(child, input, ctx);
        match eval(child, input, ctx) {
            Some(c1) => {
                lemma_eval_rep_lo_frame(child, n - 1, input, c1);
            },
            None => {},
        }
    }
}

/// The end indices of the input grow strictly.
pub open spec fn sorted_ends(input: Seq<(usize, char)>) -> bool {
    forall|i: int, j: int| 0 <= i < j < input.len() ==> input[i].0 < input[j].0
}

/// The context's end index lies before the end of every character still
/// to come.
pub open spec fn cursor_ok(ctx: Ctx, input: Seq<(usize, char)>) -> bool {
    forall|k: int| ctx.pos <= k < input.len() ==> ctx.end < input[k].0
}

/// Every slot either keeps its old value or was written with a range
/// inside `[lo, hi]`.
pub open spec fn caps_evolve(
    older: Seq<Option<Span>>,
    newer: Seq<Option<Span>>,
    lo: usize,
    hi: usize,
) -> bool {
    forall|k: int|
        0 <= k < newer.len() ==> newer[k] == older[k] || (#[trigger] newer[k] is Some && lo
            <= newer[k]->0.start && newer[k]->0.start <= newer[k]->0.end && newer[k]->0.end <= hi)
}

/// Writing capture slots writes `Some(sp)` and touches nothing else.
pub proof fn lemma_write_slots_effect(caps: Seq<Option<Span>>, slots: Seq<usize>, sp: Span)
    ensures
        forall|k: int|
            0 <= k < caps.len() ==> #[trigger] write_slots(caps, slots, sp)[k] == caps[k]
                || write_slots(caps, slots, sp)[k] == Some(sp),
    decreases slots.len(),
{
    if slots.len() > 0 {
        lemma_write_slots_effect(caps, slots.drop_last(), sp);
        lemma_write_slots_len(caps, slots.drop_last(), sp);
    }
}

/// Where capture ranges can come from: on success, the end index moved
/// forward, still lies before every remaining character's end, and every
/// capture slot either kept its value or was written with a range between
/// the old and the new end index.
pub proof fn lemma_eval_caps(p: Pattern, input: Seq<(usize, char)>, ctx: Ctx)
    requires
        ctx_wf(ctx, input),
        sorted_ends(input),
        cursor_ok(ctx, input),
    ensures
        eval(p, input, ctx) matches Some(c) ==> {
            &&& ctx.end <= c.end
            &&& cursor_ok(c, input)
            &&& caps_evolve(ctx.caps, c.caps, ctx.end, c.end)
        },
    decreases p, 0int, 0int,
{
    lemma_eval_frame(p, input, ctx);
    match p {
        Pattern::Test(_) => {},
        Pattern::All(cs) => {
            lemma_eval_all_caps(cs@, 0, input, ctx);
        },
        Pattern::Any(cs) => {
            lemma_eval_any_caps(cs@, 0, input, ctx);
        },
        Pattern::Repeat(child, b) => {
            let lo: int = match b {
                RepeatBounds::Exactly(n) => n as int,
                RepeatBounds::AtLeast(lo) => lo as int,
                RepeatBounds::Between(lo, _) => lo as int,
            };
            lemma_eval_rep_lo_caps(*child, lo, input, ctx);
            lemma_eval_rep_lo_frame(*child, lo, input, ctx);
            match eval_rep_lo(*child, lo, input, ctx) {
                Some(c1) => {
                    lemma_eval_rep_more_caps(*child, input.len() - c1.pos + 1, input, c1);
                    lemma_eval_rep_more_frame(*child, input.len() - c1.pos + 1, input, c1);
                    match b {
                        RepeatBounds::Between(blo, bhi) => {
                            lemma_eval_rep_more_caps(*child, bhi - 1 - blo, input, c1);
                            lemma_eval_rep_more_frame(*child, bhi - 1 - blo, input, c1);
                        },
                        _ => {},
                    }
                },
                None => {},
            }
        },
        Pattern::Capture(child, slots) => {
            lemma_eval_caps(*child, input, ctx);
            match eval(*child, input, ctx) {
                Some(c1) => {
                    lemma_write_slots_effect(c1.caps, slots@, Span { start: ctx.end, end: c1.end });
                    lemma_write_slots_len(c1.caps, slots@, Span { start: ctx.end, end: c1.end });
                },
                None => {},
            }
        },
        Pattern::Position(child, _) => {
            lemma_eval_caps(*child, input, ctx);
        },
    }
}

/// `eval_all` satisfies the capture evolution frame.
pub proof fn lemma_eval_all_caps(cs: Seq<Pattern>, i: int, input: Seq<(usize, char)>, ctx: Ctx)
    requires
        ctx_wf(ctx, input),
        sorted_ends(input),
        cursor_ok(ctx, input),
    ensures
        eval_all(cs, i, input, ctx) matches Some(c) ==> {
            &&& ctx.end <= c.end
            &&& cursor_ok(c, input)
            &&& caps_evolve(ctx.caps, c.caps, ctx.end, c.end)
        },
    decreases cs, cs.len() - i, 1int,
{
    if 0 <= i < cs.len() {
        lemma_eval_caps(cs[i], input, ctx);
        lemma_eval_frame(cs[i], input, ctx);
        match eval(cs[i], input, ctx) {
            Some(c1) => {
                lemma_eval_all_caps(cs, i + 1, input, c1);
                lemma_eval_all_frame(cs, i + 1, input, c1);
            },
            None => {},
        }
    }
}

/// `eval_any` satisfies the capture evolution frame.
pub proof fn lemma_eval_any_caps(cs: Seq<Pattern>, i: int, input: Seq<(usize, char)>, ctx: Ctx)
    requires
        ctx_wf(ctx, input),
        sorted_ends(input),
        cursor_ok(ctx, input),
    ensures
        eval_any(cs, i, input, ctx) matches Some(c) ==> {
            &&& ctx.end <= c.end
            &&& cursor_ok(c, input)
            &&& caps_evolve(ctx.caps, c.caps, ctx.end, c.end)
        },
    decreases cs, cs.len() - i, 1int,
{
    if 0 <= i < cs.len() {
        lemma_eval_caps(cs[i], input, ctx);
        lemma_eval_any_caps(cs, i + 1, input, ctx);
    }
}

/// The required phase satisfies the capture evolution frame.
pub proof fn lemma_eval_rep_lo_caps(child: Pattern, n: int, input: Seq<(usize, char)>, ctx: Ctx)
    requires
        ctx_wf(ctx, input),
        sorted_ends(input),
        cursor_ok(ctx, input),
    ensures
        eval_rep_lo(child, n, input, ctx) matches Some(c) ==> {
            &&& ctx.end <= c.end
            &&& cursor_ok(c, input)
            &&& caps_evolve(ctx.caps, c.caps, ctx.end, c.end)
        },
    decreases child, n, 1int,
{
    if n > 0 {
        lemma_eval_caps(child, input, ctx);
        lemma_eval_frame(child, input, ctx);
        match eval(child, input, ctx) {
            Some(c1) => {
                lemma_eval_rep_lo_caps(child, n - 1, input, c1);
                lemma_eval_rep_lo_frame(child, n - 1, input, c1);
            },
            None => {},
        }
    }
}

/// The greedy phase satisfies the capture evolution frame.
pub proof fn lemma_eval_rep_more_caps(
    child: Pattern,
    budget: int,
    input: Seq<(usize, char)>,
    ctx: Ctx,
)
    requires
        ctx_wf(ctx, input),
        sorted_ends(input),
        cursor_ok(ctx, input),
    ensures
        ctx.end <= eval_rep_more(child, budget, input, ctx).end,
        cursor_ok(eval_rep_more(child, budget, input, ctx), input),
        caps_evolve(
            ctx.caps,
            eval_rep_more(child, budget, input, ctx).caps,
            ctx.end,
            eval_rep_more(child, budget, input, ctx).end,
        ),
    decreases child, budget, 1int,
{
    if budget > 0 {
        lemma_eval_caps(child, input, ctx);
        lemma_eval_frame(child, input, ctx);
        match eval(child, input, ctx) {
            Some(c1) => {
                if c1.pos > ctx.pos {
                    lemma_eval_rep_more_caps(child, budget - 1, input, c1);
                    lemma_eval_rep_more_frame(child, budget - 1, input, c1);
                }
            },
            None => {},
        }
    }
}

/// Two contexts that agree on everything but the capture table make the
/// same consumption: matching reads characters and flags, never what was
/// captured.
pub proof fn lemma_eval_same_shape(p: Pattern, input: Seq<(usize, char)>, ctx1: Ctx, ctx2: Ctx)
    requires
        ctx_wf(ctx1, input),
        ctx_wf(ctx2, input),
        ctx1.pos == ctx2.pos,
        ctx1.end == ctx2.end,
        ctx1.first == ctx2.first,
    ensures
        eval(p, input, ctx1) is Some <==> eval(p, input, ctx2) is Some,
        eval(p, input, ctx1) matches Some(c1) ==> eval(p, input, ctx2) matches Some(c2) ==> c1.pos
            == c2.pos && c1.end == c2.end && c1.first == c2.first,
    decreases p, 0int, 0int,
{
    match p {
        Pattern::Test(_) => {},
        Pattern::All(cs) => {
            lemma_eval_all_same_shape(cs@, 0, input, ctx1, ctx2);
        },
        Pattern::Any(cs) => {
            lemma_eval_any_same_shape(cs@, 0, input, ctx1, ctx2);
        },
        Pattern::Repeat(child, b) => {
            let lo: int = match b {
                RepeatBounds::Exactly(n) => n as int,
                RepeatBounds::AtLeast(lo) => lo as int,
                RepeatBounds::Between(lo, _) => lo as int,
            };
            lemma_eval_rep_lo_same_shape(*child, lo, input, ctx1, ctx2);
            lemma_eval_rep_lo_frame(*child, lo, input, ctx1);
            lemma_eval_rep_lo_frame(*child, lo, input, ctx2);
            match (eval_rep_lo(*child, lo, input, ctx1), eval_rep_lo(*child, lo, input, ctx2)) {
                (Some(c1), Some(c2)) => {
                    lemma_eval_rep_more_same_shape(
                        *child,
                        input.len() - c1.pos + 1,
                        input,
                        c1,
                        c2,
                    );
                    match b {
                        RepeatBounds::Between(blo, bhi) => {
                            lemma_eval_rep_more_same_shape(*child, bhi - 1 - blo, input, c1, c2);
                        },
                        _ => {},
                    }
                },
                _ => {},
            }
        },
        Pattern::Capture(child, _) => {
            lemma_eval_same_shape(*child, input, ctx1, ctx2);
        },
        Pattern::Position(child, _) => {
            lemma_eval_same_shape(*child, input, ctx1, ctx2);
        },
    }
}

/// `eval_all` reads characters and flags, never the capture table.
pub proof fn lemma_eval_all_same_shape(
    cs: Seq<Pattern>,
    i: int,
    input: Seq<(usize, char)>,
    ctx1: Ctx,
    ctx2: Ctx,
)
    requires
        ctx_wf(ctx1, input),
        ctx_wf(ctx2, input),
        ctx1.pos == ctx2.pos,
        ctx1.end == ctx2.end,
        ctx1.first == ctx2.first,
    ensures
        eval_all(cs, i, input, ctx1) is Some <==> eval_all(cs, i, input, ctx2) is Some,
        eval_all(cs, i, input, ctx1) matches Some(c1) ==> eval_all(cs, i, input, ctx2)
            matches Some(c2) ==> c1.pos == c2.pos && c1.end == c2.end && c1.first == c2.first,
    decreases cs, cs.len() - i, 1int,
{
    if 0 <= i < cs.len() {
        lemma_eval_same_shape(cs[i], input, ctx1, ctx2);
        lemma_eval_frame(cs[i], input, ctx1);
        lemma_eval_frame(cs[i], input, ctx2);
        match (eval(cs[i], input, ctx1), eval(cs[i], input, ctx2)) {
            (Some(c1), Some(c2)) => {
                lemma_eval_all_same_shape(cs, i + 1, input, c1, c2);
            },
            _ => {},
        }
    }
}

/// `eval_any` reads characters and flags, never the capture table.
pub proof fn lemma_eval_any_same_shape(
    cs: Seq<Pattern>,
    i: int,
    input: Seq<(usize, char)>,
    ctx1: Ctx,
    ctx2: Ctx,
)
    requires
        ctx_wf(ctx1, input),
        ctx_wf(ctx2, input),
        ctx1.pos == ctx2.pos,
        ctx1.end == ctx2.end,
        ctx1.first == ctx2.first,
    ensures
        eval_any(cs, i, input, ctx1) is Some <==> eval_any(cs, i, input, ctx2) is Some,
        eval_any(cs, i, input, ctx1) matches Some(c1) ==> eval_any(cs, i, input, ctx2)
            matches Some(c2) ==> c1.pos == c2.pos && c1.end == c2.end && c1.first == c2.first,
    decreases cs, cs.len() - i, 1int,
{
    if 0 <= i < cs.len() {
        lemma_eval_same_shape(cs[i], input, ctx1, ctx2);
        lemma_eval_any_same_shape(cs, i + 1, input, ctx1, ctx2);
    }
}

/// The required phase reads characters and flags, never the capture
/// table.
pub proof fn lemma_eval_rep_lo_same_shape(
    child: Pattern,
    n: int,
    input: Seq<(usize, char)>,
    ctx1: Ctx,
    ctx2: Ctx,
)
    requires
        ctx_wf(ctx1, input),
        ctx_wf(ctx2, input),
        ctx1.pos == ctx2.pos,
        ctx1.end == ctx2.end,
        ctx1.first == ctx2.first,
    ensures
        eval_rep_lo(child, n, input, ctx1) is Some <==> eval_rep_lo(child, n, input, ctx2) is Some,
        eval_rep_lo(child, n, input, ctx1) matches Some(c1) ==> eval_rep_lo(child, n, input, ctx2)
            matches Some(c2) ==> c1.pos == c2.pos && c1.end == c2.end && c1.first == c2.first,
    decreases child, n, 1int,
{
    if n > 0 {
        lemma_eval_same_shape(child, input, ctx1, ctx2);
        lemma_eval_frame(child, input, ctx1);
        lemma_eval_frame(child, input, ctx2);
        match (eval(child, input, ctx1), eval(child, input, ctx2)) {
            (Some(c1), Some(c2)) => {
                lemma_eval_rep_lo_same_shape(child, n - 1, input, c1, c2);
            },
            _ => {},
        }
    }
}

/// The greedy phase reads characters and flags, never the capture table.
pub proof fn lemma_eval_rep_more_same_shape(
    child: Pattern,
    budget: int,
    input: Seq<(usize, char)>,
    ctx1: Ctx,
    ctx2: Ctx,
)
    requires
        ctx_wf(ctx1, input),
        ctx_wf(ctx2, input),
        ctx1.pos == ctx2.pos,
        ctx1.end == ctx2.end,
        ctx1.first == ctx2.first,
    ensures
        ({
            let c1 = eval_rep_more(child, budget, input, ctx1);
            let c2 = eval_rep_more(child, budget, input, ctx2);
            c1.pos == c2.pos && c1.end == c2.end && c1.first == c2.first
        }),
    decreases child, budget, 1int,
{
    if budget > 0 {
        lemma_eval_same_shape(child, input, ctx1, ctx2);
        lemma_eval_frame(child, input, ctx1);
        lemma_eval_frame(child, input, ctx2);
        match (eval(child, input, ctx1), eval(child, input, ctx2)) {
            (Some(c1), Some(c2)) => {
                if c1.pos > ctx1.pos {
                    lemma_eval_rep_more_same_shape(child, budget - 1, input, c1, c2);
                }
            },
            _ => {},
        }
    }
}

/// How many rounds the greedy phase keeps.
pub open spec fn rep_rounds(child: Pattern, budget: int, input: Seq<(usize, char)>, ctx: Ctx) -> int
    decreases child, budget, 1int,
{
    if budget <= 0 {
        0
    } else {
        match eval(child, input, ctx) {
            None => 0,
            Some(c1) => if c1.pos <= ctx.pos {
                1
            } else {
                1 + rep_rounds(child, budget - 1, input, c1)
            },
        }
    }
}

/// Why the greedy phase stopped: at its exit the inner pattern fails or
/// cannot consume, unless the round budget was used up whole.
pub proof fn lemma_rep_more_exit(child: Pattern, budget: int, input: Seq<(usize, char)>, ctx: Ctx)
    requires
        ctx_wf(ctx, input),
        budget >= 0,
    ensures
        ({
            let c = eval_rep_more(child, budget, input, ctx);
            ||| eval(child, input, c) is None
            ||| eval(child, input, c)->0.pos <= c.pos
            ||| rep_rounds(child, budget, input, ctx) == budget
        }),
    decreases child, budget, 1int,
{
    if budget > 0 {
        lemma_eval_frame(child, input, ctx);
        match eval(child, input, ctx) {
            Some(c1) => {
                if c1.pos > ctx.pos {
                    lemma_rep_more_exit(child, budget - 1, input, c1);
                } else {
                    lemma_eval_same_shape(child, input, ctx, c1);
                }
            },
            None => {},
        }
    }
}

/// With more budget than characters left, the greedy phase never stops
/// for the budget: at its exit the inner pattern fails or cannot consume.
pub proof fn lemma_rep_more_exhausts(
    child: Pattern,
    budget: int,
    input: Seq<(usize, char)>,
    ctx: Ctx,
)
    requires
        ctx_wf(ctx, input),
        budget > input.len() - ctx.pos,
    ensures
        ({
            let c = eval_rep_more(child, budget, input, ctx);
            eval(child, input, c) is None || eval(child, input, c)->0.pos <= c.pos
        }),
    decreases child, budget, 1int,
{
    lemma_eval_frame(child, input, ctx);
    match eval(child, input, ctx) {
        Some(c1) => {
            if c1.pos > ctx.pos {
                lemma_rep_more_exhausts(child, budget - 1, input, c1);
            } else {
                lemma_eval_same_shape(child, input, ctx, c1);
            }
        },
        None => {},
    }
}

/// The greedy phase satisfies the step frame.
pub proof fn lemma_eval_rep_more_frame(
    child: Pattern,
    budget: int,
    input: Seq<(usize, char)>,
    ctx: Ctx,
)
    requires
        ctx_wf(ctx, input),
    ensures
        step_frame(ctx, eval_rep_more(child, budget, input, ctx), input),
    decreases child, budget, 1int,
{
    if budget > 0 {
        lemma_eval_frame(child, input, ctx);
        match eval(child, input, ctx) {
            Some(c1) => {
                if c1.pos > ctx.pos {
                    lemma_eval_rep_more_frame(child, budget - 1, input, c1);
                }
            },
            None => {},
        }
    }
}

} // verus!
