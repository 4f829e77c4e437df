//! The library's laws: what matching guarantees, stated once over the
//! specification functions that every driver's contract is pinned to.

use vstd::prelude::*;
use crate::context::{ctx_wf, Ctx};
use crate::engine::{eval, eval_any, eval_rep_lo};
use crate::expr::{Match, MatchV};
use crate::generic::{
    init_ctx,
    lemma_spec_find_frame,
    lemma_spec_starts_with_frame,
    spec_find,
    spec_starts_with,
};
use crate::pattern::{Pattern, RepeatBounds};
use crate::props::{
    caps_evolve,
    lemma_eval_caps,
    lemma_eval_frame,
    lemma_eval_rep_lo_frame,
    lemma_rep_more_exhausts,
    lemma_rep_more_exit,
    rep_rounds,
    sorted_ends,
};
use crate::string::{
    char_ends_seq,
    piece_cursor,
    rep_output_ok,
    replace_pieces,
    splice,
    splice_prefix,
};

verus! {

/// Determinism: two evaluations of a pattern on the same input with the
/// same `start`, `is_first` and cursor return identical results.  Every
/// driver's contract pins its result to `spec_starts_with`, so any two
/// results of the same call agree.
pub proof fn lemma_match_deterministic(
    p: Pattern,
    n_slots: int,
    input: Seq<(usize, char)>,
    start: usize,
    is_first: bool,
    pos: int,
    m1: Option<MatchV>,
    m2: Option<MatchV>,
)
    requires
        m1 == spec_starts_with(p, n_slots, input, start, is_first, pos),
        m2 == spec_starts_with(p, n_slots, input, start, is_first, pos),
    ensures
        m1 == m2,
{
}

/// Prefix contract: a match consumes exactly the input pairs from the
/// cursor to its remainder position, nothing else; its range runs from
/// `start` to the end index of the last consumed character, and back to
/// `start` itself when nothing was consumed.  The input past the
/// remainder position is untouched.
pub proof fn lemma_prefix_contract(
    p: Pattern,
    n_slots: int,
    input: Seq<(usize, char)>,
    start: usize,
    is_first: bool,
    pos: int,
)
    requires
        0 <= pos <= input.len(),
        n_slots >= 0,
    ensures
        spec_starts_with(p, n_slots, input, start, is_first, pos) matches Some(m) ==> {
            &&& pos <= m.rem <= input.len()
            &&& m.range.start == start
            &&& (m.rem == pos ==> m.range.end == start)
            &&& (m.rem > pos ==> m.range.end == input[m.rem - 1].0)
        },
{
    lemma_spec_starts_with_frame(p, n_slots, input, start, is_first, pos);
}

/// An empty match preserves the input: when the matched range is empty,
/// the remainder begins exactly at the cursor and the advanced-flag is
/// the negation of the caller's `is_first`.
pub proof fn lemma_empty_match_preserves_input(
    p: Pattern,
    n_slots: int,
    input: Seq<(usize, char)>,
    start: usize,
    is_first: bool,
    pos: int,
)
    requires
        0 <= pos <= input.len(),
        n_slots >= 0,
        forall|k: int| pos <= k < input.len() ==> start < #[trigger] input[k].0,
    ensures
        spec_starts_with(p, n_slots, input, start, is_first, pos) matches Some(m) ==> m.range.end
            == m.range.start ==> {
            &&& m.rem == pos
            &&& m.advanced == !is_first
        },
{
    lemma_spec_starts_with_frame(p, n_slots, input, start, is_first, pos);
}

/// Capture containment: every capture slot a match filled holds a range
/// that lies within the matched range.
pub proof fn lemma_capture_containment(
    p: Pattern,
    n_slots: int,
    input: Seq<(usize, char)>,
    start: usize,
    is_first: bool,
    pos: int,
)
    requires
        0 <= pos <= input.len(),
        n_slots >= 0,
        sorted_ends(input),
        forall|k: int| pos <= k < input.len() ==> start < #[trigger] input[k].0,
    ensures
        spec_starts_with(p, n_slots, input, start, is_first, pos) matches Some(m) ==> forall|
            k: int,
        |
            0 <= k < m.caps.len() && #[trigger] m.caps[k] is Some ==> m.range.start
                <= m.caps[k]->0.start && m.caps[k]->0.start <= m.caps[k]->0.end
                && m.caps[k]->0.end <= m.range.end,
{
    let ctx0 = init_ctx(start, is_first, pos, n_slots);
    lemma_eval_caps(p, input, ctx0);
    lemma_eval_frame(p, input, ctx0);
    match eval(p, input, ctx0) {
        Some(c) => {
            let m = spec_starts_with(p, n_slots, input, start, is_first, pos)->0;
            assert forall|k: int|
                0 <= k < m.caps.len() && #[trigger] m.caps[k] is Some implies m.range.start
                <= m.caps[k]->0.start && m.caps[k]->0.start <= m.caps[k]->0.end
                && m.caps[k]->0.end <= m.range.end by {
                assert(caps_evolve(ctx0.caps, c.caps, ctx0.end, c.end));
                assert(ctx0.caps[k] is None);
                assert(c.caps[k] == ctx0.caps[k] || (c.caps[k] is Some && ctx0.end
                    <= c.caps[k]->0.start && c.caps[k]->0.start <= c.caps[k]->0.end
                    && c.caps[k]->0.end <= c.end));
            }
        },
        None => {},
    }
}

/// Greediness: a repetition never gives rounds back.  After a repetition
/// without an upper bound, the inner pattern cannot consume anything
/// further; after a bounded one, the same holds unless the full round
/// budget `hi - 1` was used.
pub proof fn lemma_repeat_greedy(p: Pattern, input: Seq<(usize, char)>, ctx: Ctx)
    requires
        ctx_wf(ctx, input),
    ensures
        p matches Pattern::Repeat(child, b) ==> eval(p, input, ctx) matches Some(c) ==> match b {
            RepeatBounds::Exactly(_) => true,
            RepeatBounds::AtLeast(_) => eval(*child, input, c) is None || eval(
                *child,
                input,
                c,
            )->0.pos <= c.pos,
            RepeatBounds::Between(lo, hi) => {
                ||| eval(*child, input, c) is None
                ||| eval(*child, input, c)->0.pos <= c.pos
                ||| (eval_rep_lo(*child, lo as int, input, ctx) matches Some(c1) && rep_rounds(
                    *child,
                    hi - 1 - lo,
                    input,
                    c1,
                ) == hi - 1 - lo)
            },
        },
{
    match p {
        Pattern::Repeat(child, b) => {
            match b {
                RepeatBounds::Exactly(_) => {},
                RepeatBounds::AtLeast(lo) => {
                    lemma_eval_rep_lo_frame(*child, lo as int, input, ctx);
                    match eval_rep_lo(*child, lo as int, input, ctx) {
                        Some(c1) => {
                            lemma_rep_more_exhausts(*child, input.len() - c1.pos + 1, input, c1);
                        },
                        None => {},
                    }
                },
                RepeatBounds::Between(lo, hi) => {
                    if lo < hi {
                        lemma_eval_rep_lo_frame(*child, lo as int, input, ctx);
                        match eval_rep_lo(*child, lo as int, input, ctx) {
                            Some(c1) => {
                                lemma_rep_more_exit(*child, hi - 1 - lo, input, c1);
                            },
                            None => {},
                        }
                    }
                },
            }
        },
        _ => {},
    }
}

/// Anchor correctness: a `first` anchor succeeds only when the context's
/// first-flag was set at the anchor; a `last` anchor succeeds only when
/// the input is exhausted after the inner pattern matched.
pub proof fn lemma_anchor_correctness(p: Pattern, input: Seq<(usize, char)>, ctx: Ctx)
    requires
        ctx_wf(ctx, input),
    ensures
        p matches Pattern::Position(child, anchor) ==> eval(p, input, ctx) matches Some(c) ==> {
            &&& ((anchor is First || anchor is FirstAndLast) ==> ctx.first)
            &&& ((anchor is Last || anchor is FirstAndLast) ==> c.pos == input.len())
        },
{
    match p {
        Pattern::Position(child, _) => {
            lemma_eval_frame(*child, input, ctx);
        },
        _ => {},
    }
}

/// Alternative ordering: when an earlier branch matches, the whole
/// alternative returns that branch's outcome, identically; later
/// branches are never consulted.
pub proof fn lemma_alternative_ordering(
    cs: Seq<Pattern>,
    i0: int,
    i: int,
    input: Seq<(usize, char)>,
    ctx: Ctx,
)
    requires
        0 <= i0 <= i < cs.len(),
        eval(cs[i], input, ctx) is Some,
        forall|j: int| i0 <= j < i ==> eval(#[trigger] cs[j], input, ctx) is None,
    ensures
        eval_any(cs, i0, input, ctx) == eval(cs[i], input, ctx),
    decreases i - i0,
{
    if i0 < i {
        lemma_alternative_ordering(cs, i0 + 1, i, input, ctx);
    }
}

/// Successive finds do not overlap: a scan started where a previous
/// match ended — as the find-iterator starts it — returns a match whose
/// range begins at or after that end, whatever it asserts about start of
/// input.
pub proof fn lemma_successive_finds_do_not_overlap(
    p: Pattern,
    n_slots: int,
    input: Seq<(usize, char)>,
    start: usize,
    is_first: bool,
    pos: int,
    next_first: bool,
)
    requires
        0 <= pos <= input.len(),
        n_slots >= 0,
        sorted_ends(input),
        forall|k: int| pos <= k < input.len() ==> start < #[trigger] input[k].0,
    ensures
        spec_find(p, n_slots, input, start, is_first, pos) matches Some((m1, ps1)) ==> spec_find(
            p,
            n_slots,
            input,
            m1.range.end,
            next_first,
            m1.rem,
        ) matches Some((m2, ps2)) ==> {
            &&& m1.range.start <= m1.range.end <= m2.range.start <= m2.range.end
            &&& m1.rem <= ps2
        },
{
    lemma_spec_find_frame(p, n_slots, input, start, is_first, pos);
    match spec_find(p, n_slots, input, start, is_first, pos) {
        Some((m1, ps1)) => {
            lemma_spec_find_frame(p, n_slots, input, m1.range.end, next_first, m1.rem);
        },
        None => {},
    }
}

/// Splicing a cons: the first piece contributes its gap and output, the
/// rest splice from the first piece's remainder on.
proof fn lemma_splice_prefix_shift(
    s: Seq<char>,
    x: (MatchV, int),
    rest: Seq<(MatchV, int)>,
    o: Seq<char>,
    outs: Seq<Seq<char>>,
    i: int,
    pos0: int,
)
    requires
        0 <= i <= rest.len(),
        i <= outs.len(),
    ensures
        splice_prefix(s, seq![x] + rest, seq![o] + outs, i + 1, pos0) == s.subrange(pos0, x.1) + o
            + splice_prefix(s, rest, outs, i, x.0.rem),
    decreases i,
{
    let pieces0 = seq![x] + rest;
    let outs0 = seq![o] + outs;
    if i == 0 {
        assert(splice_prefix(s, pieces0, outs0, 1, pos0) == splice_prefix(s, pieces0, outs0, 0, pos0)
            + s.subrange(piece_cursor(pieces0, 0, pos0), pieces0[0].1) + outs0[0]);
        assert(Seq::<char>::empty() + s.subrange(pos0, x.1) =~= s.subrange(pos0, x.1));
        assert(s.subrange(pos0, x.1) + o + splice_prefix(s, rest, outs, 0, x.0.rem) =~= s.subrange(
            pos0,
            x.1,
        ) + o);
    } else {
        lemma_splice_prefix_shift(s, x, rest, o, outs, i - 1, pos0);
        assert(pieces0[i] == rest[i - 1]);
        assert(outs0[i] == outs[i - 1]);
        assert(piece_cursor(pieces0, i, pos0) == piece_cursor(rest, i - 1, x.0.rem));
        assert((s.subrange(pos0, x.1) + o + splice_prefix(s, rest, outs, i - 1, x.0.rem))
            + s.subrange(piece_cursor(rest, i - 1, x.0.rem), rest[i - 1].1) + outs[i - 1]
            =~= s.subrange(pos0, x.1) + o + (splice_prefix(s, rest, outs, i - 1, x.0.rem)
            + s.subrange(piece_cursor(rest, i - 1, x.0.rem), rest[i - 1].1) + outs[i - 1]));
    }
}

/// Splicing back what was matched rebuilds the text: when every output
/// is its piece's matched characters, the splice is the tail of the text
/// from the scan's origin.
proof fn lemma_splice_identity(
    p: Pattern,
    n_slots: int,
    s: Seq<char>,
    start: usize,
    is_first: bool,
    pos: int,
    max: int,
    outs: Seq<Seq<char>>,
)
    requires
        n_slots >= 0,
        0 <= pos <= s.len(),
        ({
            let pieces = replace_pieces(p, n_slots, char_ends_seq(s), start, is_first, pos, max);
            &&& outs.len() == pieces.len()
            &&& forall|j: int|
                0 <= j < pieces.len() ==> #[trigger] outs[j] == s.subrange(
                    pieces[j].1,
                    pieces[j].0.rem,
                )
        }),
    ensures
        splice(s, replace_pieces(p, n_slots, char_ends_seq(s), start, is_first, pos, max), outs, pos)
            == s.subrange(pos, s.len() as int),
    decreases max,
{
    let input = char_ends_seq(s);
    let pieces = replace_pieces(p, n_slots, input, start, is_first, pos, max);
    if max <= 0 || spec_find(p, n_slots, input, start, is_first, pos) is None {
        assert(pieces.len() == 0);
        assert(splice(s, pieces, outs, pos) == splice_prefix(s, pieces, outs, 0, pos) + s.subrange(
            pos,
            s.len() as int,
        ));
        assert(Seq::<char>::empty() + s.subrange(pos, s.len() as int) =~= s.subrange(
            pos,
            s.len() as int,
        ));
    } else {
        lemma_spec_find_frame(p, n_slots, input, start, is_first, pos);
        let (m, ps) = spec_find(p, n_slots, input, start, is_first, pos)->0;
        let x = (m, ps);
        if pos < m.rem <= input.len() {
            let rest = replace_pieces(p, n_slots, input, m.range.end, false, m.rem, max - 1);
            let outs_rest = outs.drop_first();
            assert(pieces =~= seq![x] + rest);
            assert(outs =~= seq![outs[0]] + outs_rest);
            assert forall|j: int| 0 <= j < rest.len() implies #[trigger] outs_rest[j]
                == s.subrange(rest[j].1, rest[j].0.rem) by {
                assert(outs[j + 1] == s.subrange(pieces[j + 1].1, pieces[j + 1].0.rem));
                assert(pieces[j + 1] == rest[j]);
            }
            lemma_splice_identity(p, n_slots, s, m.range.end, false, m.rem, max - 1, outs_rest);
            lemma_splice_prefix_shift(s, x, rest, outs[0], outs_rest, rest.len() as int, pos);
            assert(piece_cursor(pieces, pieces.len() as int, pos) == piece_cursor(
                rest,
                rest.len() as int,
                m.rem,
            ));
            assert(splice(s, pieces, outs, pos) =~= s.subrange(pos, ps) + outs[0] + splice(
                s,
                rest,
                outs_rest,
                m.rem,
            ));
            assert(s.subrange(pos, ps) + s.subrange(ps, m.rem) + s.subrange(
                m.rem,
                s.len() as int,
            ) =~= s.subrange(pos, s.len() as int));
        } else {
            assert(pieces =~= seq![x]);
            assert(m.rem == ps || m.rem <= pos);
            assert(pos <= ps <= m.rem <= s.len());
            assert(splice(s, pieces, outs, pos) == splice_prefix(s, pieces, outs, 1, pos)
                + s.subrange(m.rem, s.len() as int));
            assert(splice_prefix(s, pieces, outs, 1, pos) == splice_prefix(s, pieces, outs, 0, pos)
                + s.subrange(pos, ps) + outs[0]);
            assert(Seq::<char>::empty() + s.subrange(pos, ps) =~= s.subrange(pos, ps));
            assert(s.subrange(pos, ps) + s.subrange(ps, m.rem) + s.subrange(
                m.rem,
                s.len() as int,
            ) =~= s.subrange(pos, s.len() as int));
        }
    }
}

/// Replace round-trip: a replacement that writes back each match's own
/// matched text rebuilds the input unchanged.  The premise is exactly
/// what `replace` ensures of its result, for any closure whose every
/// output equals its matched-text argument.
pub proof fn lemma_replace_round_trip<F: Fn(Match, String) -> String>(
    rep: F,
    s: Seq<char>,
    p: Pattern,
    n_slots: int,
    max: int,
    r: Seq<char>,
)
    requires
        n_slots >= 0,
        forall|mm: Match, tt: String, oo: String|
            call_ensures(rep, (mm, tt), oo) ==> oo@ == tt@,
        exists|outs: Seq<Seq<char>>|
            #![trigger outs.len()]
            {
                let pieces = replace_pieces(p, n_slots, char_ends_seq(s), 0, true, 0, max);
                &&& outs.len() == pieces.len()
                &&& forall|j: int|
                    0 <= j < pieces.len() ==> rep_output_ok(rep, s, pieces, j, #[trigger] outs[j])
                &&& r == splice(s, pieces, outs, 0)
            },
    ensures
        r == s,
{
    let pieces = replace_pieces(p, n_slots, char_ends_seq(s), 0, true, 0, max);
    let outs = choose|outs: Seq<Seq<char>>|
        #![trigger outs.len()]
        {
            &&& outs.len() == pieces.len()
            &&& forall|j: int|
                0 <= j < pieces.len() ==> rep_output_ok(rep, s, pieces, j, #[trigger] outs[j])
            &&& r == splice(s, pieces, outs, 0)
        };
    assert forall|j: int| 0 <= j < pieces.len() implies #[trigger] outs[j] == s.subrange(
        pieces[j].1,
        pieces[j].0.rem,
    ) by {
        assert(rep_output_ok(rep, s, pieces, j, outs[j]));
        let (mm, tt, oo) = choose|mm: Match, tt: String, oo: String|
            mm@ == pieces[j].0 && tt@ == s.subrange(pieces[j].1, pieces[j].0.rem) && oo@ == outs[j]
                && call_ensures(rep, (mm, tt), oo);
        assert(oo@ == tt@);
    }
    lemma_splice_identity(p, n_slots, s, 0, true, 0, max, outs);
    assert(s.subrange(0, s.len() as int) =~= s);
}

} // verus!
