//! Matching over strings: the character-ends adapter and the drivers,
//! iterator and replace helpers built on it.
//!
//! The engine consumes pairs `(end_index, char)`, where `end_index` is
//! the UTF-8 byte boundary just past the character — not the start index
//! that `char_indices` yields, because a match's `end` must be the index
//! just past its last character.

use vstd::prelude::*;
use crate::expr::{opt_match_view, Expr, Match, MatchV};
use crate::generic;
use crate::generic::{lemma_spec_find_frame, spec_find, spec_starts_with};
use crate::pattern::Pattern;
use crate::props::sorted_ends;

verus! {

/// The UTF-8 encoding length of a character, by its code point.
pub open spec fn utf8_len(c: char) -> int {
    if (c as u32) < 0x80 {
        1
    } else if (c as u32) < 0x800 {
        2
    } else if (c as u32) < 0x10000 {
        3
    } else {
        4
    }
}

/// The UTF-8 byte offset of character `i` of `s`: the sum of the
/// encoding lengths of the characters before it.
pub open spec fn byte_offset(s: Seq<char>, i: int) -> int
    decreases i,
{
    if i <= 0 {
        0
    } else {
        byte_offset(s, i - 1) + utf8_len(s[i - 1])
    }
}

/// Byte offsets grow strictly with the character index.
pub proof fn lemma_byte_offset_mono(s: Seq<char>, i: int, j: int)
    requires
        0 <= i <= j,
    ensures
        0 <= byte_offset(s, i) <= byte_offset(s, j),
        i < j ==> byte_offset(s, i) < byte_offset(s, j),
    decreases j,
{
    if j > 0 && i < j {
        lemma_byte_offset_mono(s, i, j - 1);
    } else if j > 0 {
        lemma_byte_offset_mono(s, i - 1, j - 1);
    }
}

/// The pair sequence of a string: each character beside the byte index
/// just past it.
pub open spec fn char_ends_seq(s: Seq<char>) -> Seq<(usize, char)> {
    Seq::new(s.len(), |i: int| (byte_offset(s, i + 1) as usize, s[i]))
}

/// The pair sequence of a string has strictly growing end indices, all
/// of them positive, as long as the string's byte length fits the
/// machine; the adapter proves that bound for every string it is handed.
pub proof fn lemma_char_ends_sorted(s: Seq<char>)
    requires
        byte_offset(s, s.len() as int) <= usize::MAX,
    ensures
        sorted_ends(char_ends_seq(s)),
        forall|k: int|
            0 <= k < char_ends_seq(s).len() ==> 0 < #[trigger] char_ends_seq(s)[k].0,
{
    let input = char_ends_seq(s);
    assert forall|i: int, j: int| 0 <= i < j < input.len() implies input[i].0 < input[j].0 by {
        assert(input[i] == (byte_offset(s, i + 1) as usize, s[i]));
        assert(input[j] == (byte_offset(s, j + 1) as usize, s[j]));
        lemma_byte_offset_mono(s, 0, i + 1);
        lemma_byte_offset_mono(s, i + 1, j + 1);
        lemma_byte_offset_mono(s, j + 1, s.len() as int);
    }
    assert forall|k: int| 0 <= k < input.len() implies 0 < input[k].0 by {
        assert(input[k] == (byte_offset(s, k + 1) as usize, s[k]));
        lemma_byte_offset_mono(s, 0, k);
        lemma_byte_offset_mono(s, k, k + 1);
        lemma_byte_offset_mono(s, k + 1, s.len() as int);
    }
}

/// Relies on `str::char_indices`: every character of the string beside
/// its byte offset, which is the sum of the UTF-8 encoding lengths of
/// the characters before it; the offsets fit in `usize` because they
/// are indices into the string's bytes.
#[verifier::external_body]
fn char_starts(s: &str) -> (r: Vec<(usize, char)>)
    ensures
        r@.len() == s@.len(),
        forall|i: int|
            0 <= i < r@.len() ==> r@[i].1 == s@[i] && r@[i].0 == byte_offset(s@, i),
        forall|i: int| 0 <= i <= r@.len() ==> byte_offset(s@, i) <= usize::MAX,
{
    s.char_indices().collect()
}

/// The UTF-8 encoding length of a character.
fn utf8_width(c: char) -> (n: usize)
    ensures
        n == utf8_len(c),
{
    let u = c as u32;
    if u < 0x80 {
        1
    } else if u < 0x800 {
        2
    } else if u < 0x10000 {
        3
    } else {
        4
    }
}

/// The pair vector of a string: each character beside the byte index
/// just past it.
fn ends_vec(s: &str) -> (r: Vec<(usize, char)>)
    ensures
        r@ == char_ends_seq(s@),
        sorted_ends(char_ends_seq(s@)),
        forall|k: int|
            0 <= k < char_ends_seq(s@).len() ==> 0 < #[trigger] char_ends_seq(s@)[k].0,
{
    let starts = char_starts(s);
    let n = starts.len();
    let mut r: Vec<(usize, char)> = Vec::new();
    let mut i: usize = 0;
    while i < n
        invariant
            0 <= i <= n,
            n == starts@.len(),
            n == s@.len(),
            forall|k: int|
                0 <= k < n ==> starts@[k].1 == s@[k] && starts@[k].0 == byte_offset(s@, k),
            byte_offset(s@, n as int) <= usize::MAX,
            r@.len() == i,
            forall|k: int| 0 <= k < i ==> r@[k] == char_ends_seq(s@)[k],
        decreases n - i,
    {
        let c = starts[i].1;
        let end: usize = if i + 1 < n {
            starts[i + 1].0
        } else {
            proof {
                lemma_byte_offset_mono(s@, i as int, n as int);
                lemma_byte_offset_mono(s@, i + 1, n as int);
            }
            let w = utf8_width(c);
            starts[i].0 + w
        };
        proof {
            lemma_byte_offset_mono(s@, 0, i + 1);
            lemma_byte_offset_mono(s@, i + 1, n as int);
        }
        r.push((end, c));
        i = i + 1;
    }
    proof {
        assert(r@ =~= char_ends_seq(s@));
        lemma_char_ends_sorted(s@);
    }
    r
}

/// The characters of a string, each beside the byte index just past it.
///
/// For an empty string it yields nothing; for a single character of
/// UTF-8 width `w` starting at 0 it yields that character beside `w`.
pub struct CharEnds {
    pairs: Vec<(usize, char)>,
    pos: usize,
}

impl CharEnds {
    /// The full pair sequence this adapter walks.
    pub closed spec fn all_pairs(&self) -> Seq<(usize, char)> {
        self.pairs@
    }

    /// How many pairs were already yielded.
    pub closed spec fn cursor(&self) -> int {
        self.pos as int
    }

    /// The cursor lies within the pairs.
    pub open spec fn wf(&self) -> bool {
        0 <= self.cursor() <= self.all_pairs().len()
    }

    /// The adapter over a string, at its start.
    pub fn new(s: &str) -> (r: CharEnds)
        ensures
            r.all_pairs() == char_ends_seq(s@),
            r.cursor() == 0,
            r.wf(),
            sorted_ends(char_ends_seq(s@)),
            forall|k: int|
                0 <= k < char_ends_seq(s@).len() ==> 0 < #[trigger] char_ends_seq(s@)[k].0,
    {
        CharEnds { pairs: ends_vec(s), pos: 0 }
    }

    /// The next pair, or nothing when the string is exhausted.
    pub fn next(&mut self) -> (r: Option<(usize, char)>)
        requires
            old(self).wf(),
        ensures
            final(self).all_pairs() == old(self).all_pairs(),
            final(self).wf(),
            old(self).cursor() < old(self).all_pairs().len() ==> {
                &&& r == Some(old(self).all_pairs()[old(self).cursor()])
                &&& final(self).cursor() == old(self).cursor() + 1
            },
            old(self).cursor() == old(self).all_pairs().len() ==> {
                &&& r is None
                &&& final(self).cursor() == old(self).cursor()
            },
    {
        if self.pos < self.pairs.len() {
            let pair = self.pairs[self.pos];
            self.pos = self.pos + 1;
            Some(pair)
        } else {
            None
        }
    }
}

/// Shorthand for `CharEnds::new`.
pub fn char_ends(s: &str) -> (r: CharEnds)
    ensures
        r.all_pairs() == char_ends_seq(s@),
        r.cursor() == 0,
        sorted_ends(char_ends_seq(s@)),
        forall|k: int|
            0 <= k < char_ends_seq(s@).len() ==> 0 < #[trigger] char_ends_seq(s@)[k].0,
{
    CharEnds::new(s)
}

/// Checks whether the string begins with a match of the expression,
/// with `start` 0 and `is_first` asserted.
pub fn starts_with(expr: &Expr, s: &str) -> (m: Option<Match>)
    requires
        expr.wf(),
    ensures
        opt_match_view(m) == spec_starts_with(
            expr.pat(),
            expr.slots(),
            char_ends_seq(s@),
            0,
            true,
            0,
        ),
        sorted_ends(char_ends_seq(s@)),
        forall|k: int|
            0 <= k < char_ends_seq(s@).len() ==> 0 < #[trigger] char_ends_seq(s@)[k].0,
{
    let pairs = ends_vec(s);
    generic::starts_with(expr, 0, true, &pairs, 0)
}

/// Finds the first substring the expression matches.
pub fn find(expr: &Expr, s: &str) -> (m: Option<Match>)
    requires
        expr.wf(),
    ensures
        opt_match_view(m) == match spec_find(
            expr.pat(),
            expr.slots(),
            char_ends_seq(s@),
            0,
            true,
            0,
        ) {
            None => None,
            Some((mv, _)) => Some(mv),
        },
        sorted_ends(char_ends_seq(s@)),
        forall|k: int|
            0 <= k < char_ends_seq(s@).len() ==> 0 < #[trigger] char_ends_seq(s@)[k].0,
{
    let pairs = ends_vec(s);
    generic::find(expr, 0, true, &pairs, 0)
}

/// An iterator of successive adjacent matches: each match must begin
/// exactly where the previous one ended.
pub struct Repeat {
    expr: Expr,
    pairs: Vec<(usize, char)>,
    start: usize,
    first: bool,
    pos: usize,
}

impl Repeat {
    /// The pattern the iterator runs.
    pub closed spec fn pat(&self) -> Pattern {
        self.expr.pat()
    }

    /// The capture slot count of the expression.
    pub closed spec fn slots(&self) -> int {
        self.expr.slots()
    }

    /// The pair sequence of the text.
    pub closed spec fn input(&self) -> Seq<(usize, char)> {
        self.pairs@
    }

    /// The index the next attempt starts from.
    pub closed spec fn cursor_start(&self) -> int {
        self.start as int
    }

    /// The pair position the next attempt starts from.
    pub closed spec fn cursor_pos(&self) -> int {
        self.pos as int
    }

    /// Whether the next attempt asserts start of input: true before the
    /// first call of `next`, false from then on.
    pub closed spec fn is_first(&self) -> bool {
        self.first
    }

    /// What `Repeat::new` establishes and every `next` keeps.
    pub closed spec fn wf(&self) -> bool {
        self.expr.wf() && 0 <= self.cursor_pos() <= self.input().len()
    }

    /// An iterator over `s`, at its start.
    pub fn new(expr: Expr, s: &str) -> (r: Repeat)
        requires
            expr.wf(),
        ensures
            r.wf(),
            r.pat() == expr.pat(),
            r.slots() == expr.slots(),
            r.input() == char_ends_seq(s@),
            r.cursor_start() == 0,
            r.cursor_pos() == 0,
            r.is_first(),
            r.slots() >= 0,
            sorted_ends(char_ends_seq(s@)),
            forall|k: int|
                0 <= k < char_ends_seq(s@).len() ==> 0 < #[trigger] char_ends_seq(s@)[k].0,
    {
        Repeat { expr, pairs: ends_vec(s), start: 0, first: true, pos: 0 }
    }

    /// The match at the cursor, or nothing when the pattern does not
    /// match exactly there; after a match the cursor moves to its end
    /// and the start-of-input flag is cleared.  A miss changes nothing,
    /// so once `next` returns `None` it does so permanently.
    pub fn next(&mut self) -> (m: Option<Match>)
        requires
            old(self).wf(),
        ensures
            final(self).wf(),
            final(self).pat() == old(self).pat(),
            final(self).slots() == old(self).slots(),
            final(self).input() == old(self).input(),
            final(self).slots() >= 0,
            0 <= old(self).cursor_pos() <= old(self).input().len(),
            0 <= final(self).cursor_pos() <= final(self).input().len(),
            final(self).cursor_start() >= 0,
            opt_match_view(m) == spec_starts_with(
                old(self).pat(),
                old(self).slots(),
                old(self).input(),
                old(self).cursor_start() as usize,
                old(self).is_first(),
                old(self).cursor_pos(),
            ),
            m matches Some(found) ==> {
                &&& final(self).cursor_start() == found@.range.end
                &&& final(self).cursor_pos() == found@.rem
                &&& !final(self).is_first()
            },
            m is None ==> {
                &&& final(self).cursor_start() == old(self).cursor_start()
                &&& final(self).cursor_pos() == old(self).cursor_pos()
                &&& final(self).is_first() == old(self).is_first()
            },
            !old(self).is_first() ==> (m matches Some(found) ==> found@.advanced),
    {
        let is_first = self.first;
        proof {
            crate::generic::lemma_spec_starts_with_frame(
                self.expr.pat(),
                self.expr.slots(),
                self.pairs@,
                self.start,
                is_first,
                self.pos as int,
            );
        }
        match generic::starts_with(&self.expr, self.start, is_first, &self.pairs, self.pos) {
            Some(found) => {
                self.first = false;
                self.start = found.range.end;
                self.pos = found.iter_remainder;
                Some(found)
            },
            None => None,
        }
    }
}

/// Shorthand for `Repeat::new`.
pub fn repeat(expr: Expr, s: &str) -> (r: Repeat)
    requires
        expr.wf(),
    ensures
        r.wf(),
        r.pat() == expr.pat(),
        r.slots() == expr.slots(),
        r.input() == char_ends_seq(s@),
        r.cursor_start() == 0,
        r.cursor_pos() == 0,
        r.is_first(),
{
    Repeat::new(expr, s)
}

/// An iterator of successive non-overlapping finds: each scan begins
/// where the previous match ended.
pub struct FindIter {
    expr: Expr,
    pairs: Vec<(usize, char)>,
    start: usize,
    first: bool,
    pos: usize,
}

impl FindIter {
    /// The pattern the iterator runs.
    pub closed spec fn pat(&self) -> Pattern {
        self.expr.pat()
    }

    /// The capture slot count of the expression.
    pub closed spec fn slots(&self) -> int {
        self.expr.slots()
    }

    /// The pair sequence of the text.
    pub closed spec fn input(&self) -> Seq<(usize, char)> {
        self.pairs@
    }

    /// The index the next scan starts from.
    pub closed spec fn cursor_start(&self) -> int {
        self.start as int
    }

    /// The pair position the next scan starts from.
    pub closed spec fn cursor_pos(&self) -> int {
        self.pos as int
    }

    /// Whether the next scan asserts start of input: true before the
    /// first call of `next`, false from then on.
    pub closed spec fn is_first(&self) -> bool {
        self.first
    }

    /// What `FindIter::new` establishes and every `next` keeps.
    pub closed spec fn wf(&self) -> bool {
        self.expr.wf() && 0 <= self.cursor_pos() <= self.input().len()
    }

    /// An iterator over `s`, at its start.
    pub fn new(expr: Expr, s: &str) -> (r: FindIter)
        requires
            expr.wf(),
        ensures
            r.wf(),
            r.pat() == expr.pat(),
            r.slots() == expr.slots(),
            r.input() == char_ends_seq(s@),
            r.cursor_start() == 0,
            r.cursor_pos() == 0,
            r.is_first(),
            r.slots() >= 0,
            sorted_ends(char_ends_seq(s@)),
            forall|k: int|
                0 <= k < char_ends_seq(s@).len() ==> 0 < #[trigger] char_ends_seq(s@)[k].0,
    {
        FindIter { expr, pairs: ends_vec(s), start: 0, first: true, pos: 0 }
    }

    /// The next match at or after the cursor, or nothing when no further
    /// match exists; after a match the cursor moves to its end and the
    /// start-of-input flag is cleared, so every later yield reports the
    /// input as advanced.  A miss changes nothing, so once `next`
    /// returns `None` it does so permanently.
    pub fn next(&mut self) -> (m: Option<Match>)
        requires
            old(self).wf(),
        ensures
            final(self).wf(),
            final(self).pat() == old(self).pat(),
            final(self).slots() == old(self).slots(),
            final(self).input() == old(self).input(),
            final(self).slots() >= 0,
            0 <= old(self).cursor_pos() <= old(self).input().len(),
            0 <= final(self).cursor_pos() <= final(self).input().len(),
            final(self).cursor_start() >= 0,
            opt_match_view(m) == match spec_find(
                old(self).pat(),
                old(self).slots(),
                old(self).input(),
                old(self).cursor_start() as usize,
                old(self).is_first(),
                old(self).cursor_pos(),
            ) {
                None => None,
                Some((mv, _)) => Some(mv),
            },
            m matches Some(found) ==> {
                &&& final(self).cursor_start() == found@.range.end
                &&& final(self).cursor_pos() == found@.rem
                &&& !final(self).is_first()
            },
            m is None ==> {
                &&& final(self).cursor_start() == old(self).cursor_start()
                &&& final(self).cursor_pos() == old(self).cursor_pos()
                &&& final(self).is_first() == old(self).is_first()
            },
            !old(self).is_first() ==> (m matches Some(found) ==> found@.advanced),
    {
        let is_first = self.first;
        proof {
            lemma_spec_find_frame(
                self.expr.pat(),
                self.expr.slots(),
                self.pairs@,
                self.start,
                is_first,
                self.pos as int,
            );
        }
        match generic::find_from(&self.expr, self.start, is_first, &self.pairs, self.pos) {
            Some((found, _)) => {
                self.first = false;
                self.start = found.range.end;
                self.pos = found.iter_remainder;
                Some(found)
            },
            None => None,
        }
    }
}

/// Shorthand for `FindIter::new`.
pub fn find_iter(expr: Expr, s: &str) -> (r: FindIter)
    requires
        expr.wf(),
    ensures
        r.wf(),
        r.pat() == expr.pat(),
        r.slots() == expr.slots(),
        r.input() == char_ends_seq(s@),
        r.cursor_start() == 0,
        r.cursor_pos() == 0,
        r.is_first(),
{
    FindIter::new(expr, s)
}

/// Relies on `String::push`: appends one character to the string.
#[verifier::external_body]
fn push_char(s: &mut String, c: char)
    ensures
        final(s)@ == old(s)@.push(c),
{
    s.push(c);
}

/// The pair position replacement stands at before piece `i`: the start
/// of the text for `i == 0`, else the remainder position of the previous
/// piece.
pub open spec fn piece_cursor(pieces: Seq<(MatchV, int)>, i: int, pos0: int) -> int {
    if i <= 0 {
        pos0
    } else {
        pieces[i - 1].0.rem
    }
}

/// The matches replacement visits, oldest first, each beside the pair
/// index it starts at: repeated finds, each beginning where the previous
/// match ended, at most `max` of them.  Only the first scan may assert
/// start of input; every later one runs with `is_first` cleared.  A match
/// that does not advance the cursor is the last piece: a further scan
/// from the same place would return it again, so scanning stops there.
pub open spec fn replace_pieces(
    p: Pattern,
    n_slots: int,
    input: Seq<(usize, char)>,
    start: usize,
    is_first: bool,
    pos: int,
    max: int,
) -> Seq<(MatchV, int)>
    decreases max,
{
    if max <= 0 {
        Seq::empty()
    } else {
        match spec_find(p, n_slots, input, start, is_first, pos) {
            None => Seq::empty(),
            Some((m, ps)) => if pos < m.rem <= input.len() {
                seq![(m, ps)] + replace_pieces(p, n_slots, input, m.range.end, false, m.rem, max - 1)
            } else {
                seq![(m, ps)]
            },
        }
    }
}

/// The text the first `i` pieces produce: for each piece, the characters
/// between the previous piece's end and the match, then the replacement
/// written for the match.
pub open spec fn splice_prefix(
    s: Seq<char>,
    pieces: Seq<(MatchV, int)>,
    outs: Seq<Seq<char>>,
    i: int,
    pos0: int,
) -> Seq<char>
    decreases i,
{
    if i <= 0 {
        Seq::empty()
    } else {
        splice_prefix(s, pieces, outs, i - 1, pos0) + s.subrange(
            piece_cursor(pieces, i - 1, pos0),
            pieces[i - 1].1,
        ) + outs[i - 1]
    }
}

/// The whole replaced text: every piece's gap and replacement, then the
/// tail after the last piece.
pub open spec fn splice(
    s: Seq<char>,
    pieces: Seq<(MatchV, int)>,
    outs: Seq<Seq<char>>,
    pos0: int,
) -> Seq<char> {
    splice_prefix(s, pieces, outs, pieces.len() as int, pos0) + s.subrange(
        piece_cursor(pieces, pieces.len() as int, pos0),
        s.len() as int,
    )
}

/// The replacement written for piece `j` is an output the closure may
/// return for that piece's match and matched text.
pub open spec fn rep_output_ok<F: Fn(Match, String) -> String>(
    rep: F,
    s: Seq<char>,
    pieces: Seq<(MatchV, int)>,
    j: int,
    out: Seq<char>,
) -> bool {
    exists|mm: Match, tt: String, oo: String|
        mm@ == pieces[j].0 && tt@ == s.subrange(pieces[j].1, pieces[j].0.rem) && oo@ == out
            && call_ensures(rep, (mm, tt), oo)
}

/// The first `i` pieces of the splice read only the first `i` outputs.
proof fn lemma_splice_prefix_agrees(
    s: Seq<char>,
    pieces: Seq<(MatchV, int)>,
    outs1: Seq<Seq<char>>,
    outs2: Seq<Seq<char>>,
    i: int,
    pos0: int,
)
    requires
        forall|j: int| 0 <= j < i ==> outs1[j] == outs2[j],
    ensures
        splice_prefix(s, pieces, outs1, i, pos0) == splice_prefix(s, pieces, outs2, i, pos0),
    decreases i,
{
    if i > 0 {
        lemma_splice_prefix_agrees(s, pieces, outs1, outs2, i - 1, pos0);
    }
}

/// Replaces the first `limit` matched substrings — all of them when
/// `limit` is `None` — writing for each the closure's output in place of
/// the matched text, and keeping everything between matches.
fn find_iter_replace<F: Fn(Match, String) -> String>(
    expr: &Expr,
    limit: Option<usize>,
    s: &str,
    rep: F,
) -> (r: String)
    requires
        expr.wf(),
        forall|mm: Match, tt: String| call_requires(rep, (mm, tt)),
    ensures
        ({
            let input = char_ends_seq(s@);
            let max = match limit {
                None => input.len() + 1int,
                Some(l) => l as int,
            };
            let pieces = replace_pieces(expr.pat(), expr.slots(), input, 0, true, 0, max);
            exists|outs: Seq<Seq<char>>|
                {
                    &&& outs.len() == pieces.len()
                    &&& forall|j: int|
                        0 <= j < pieces.len() ==> rep_output_ok(
                            rep,
                            s@,
                            pieces,
                            j,
                            #[trigger] outs[j],
                        )
                    &&& r@ == splice(s@, pieces, outs, 0)
                }
        }),
{
    let pairs = ends_vec(s);
    let ghost input = pairs@;
    let ghost max0: int = match limit {
        None => input.len() + 1int,
        Some(l) => l as int,
    };
    let ghost pieces = replace_pieces(expr.pat(), expr.slots(), input, 0, true, 0, max0);
    let mut out = String::new();
    let mut cursor_pos: usize = 0;
    let mut cursor_start: usize = 0;
    let mut cur_first: bool = true;
    let mut taken: usize = 0;
    let total = pairs.len();
    let ghost mut outs: Seq<Seq<char>> = Seq::empty();
    proof {
        assert(s@.len() == input.len());
        assert(total == input.len());
    }
    loop
        invariant_except_break
            outs.len() == taken,
            pieces.skip(taken as int) == replace_pieces(
                expr.pat(),
                expr.slots(),
                input,
                cursor_start,
                cur_first,
                cursor_pos as int,
                max0 - taken,
            ),
            (match limit {
                None => max0 - taken > input.len() - cursor_pos && taken <= cursor_pos,
                Some(l) => taken <= l,
            }),
        invariant
            expr.wf(),
            pairs@ == input,
            input == char_ends_seq(s@),
            s@.len() == input.len(),
            cursor_pos <= pairs@.len(),
            max0 == (match limit {
                None => input.len() + 1int,
                Some(l) => l as int,
            }),
            pieces == replace_pieces(expr.pat(), expr.slots(), input, 0, true, 0, max0),
            outs.len() <= pieces.len(),
            forall|j: int|
                0 <= j < outs.len() ==> rep_output_ok(rep, s@, pieces, j, #[trigger] outs[j]),
            out@ == splice_prefix(s@, pieces, outs, outs.len() as int, 0),
            cursor_pos as int == piece_cursor(pieces, outs.len() as int, 0),
            total == input.len(),
            forall|mm: Match, tt: String| call_requires(rep, (mm, tt)),
        ensures
            outs.len() == pieces.len(),
            forall|j: int|
                0 <= j < outs.len() ==> rep_output_ok(rep, s@, pieces, j, #[trigger] outs[j]),
            out@ == splice_prefix(s@, pieces, outs, outs.len() as int, 0),
            cursor_pos as int == piece_cursor(pieces, outs.len() as int, 0),
            cursor_pos <= pairs@.len(),
            pairs@ == input,
        decreases input.len() - cursor_pos,
    {
        match limit {
            Some(l) => if taken >= l {
                proof {
                    assert(max0 - taken <= 0);
                    assert(pieces.skip(taken as int).len() == 0);
                }
                break;
            },
            None => {},
        }
        proof {
            assert(max0 - taken > 0);
        }
        let found_opt = generic::find_from(expr, cursor_start, cur_first, &pairs, cursor_pos);
        if found_opt.is_none() {
            proof {
                assert(pieces.skip(taken as int).len() == 0);
            }
            break;
        }
        let (found, ps) = found_opt.unwrap();
        proof {
            lemma_spec_find_frame(
                expr.pat(),
                expr.slots(),
                input,
                cursor_start,
                cur_first,
                cursor_pos as int,
            );
            assert(pieces.skip(taken as int)[0] == pieces[taken as int]);
            assert(pieces[taken as int] == (found@, ps as int));
            assert(pieces.skip(taken as int).len() >= 1);
            assert(taken < pieces.len());
        }
        let rem = found.iter_remainder;
        let range_end = found.range.end;
        let ghost piece: (MatchV, int) = (found@, ps as int);
        let mut k: usize = cursor_pos;
        while k < ps
            invariant
                cursor_pos <= k <= ps,
                ps <= pairs@.len(),
                pairs@ == input,
                input == char_ends_seq(s@),
                s@.len() == input.len(),
                out@ == splice_prefix(s@, pieces, outs, outs.len() as int, 0) + s@.subrange(
                    cursor_pos as int,
                    k as int,
                ),
            decreases ps - k,
        {
            proof {
                assert(s@.subrange(cursor_pos as int, k + 1) =~= s@.subrange(
                    cursor_pos as int,
                    k as int,
                ).push(s@[k as int]));
            }
            push_char(&mut out, pairs[k].1);
            k = k + 1;
        }
        let mut t = String::new();
        let mut k2: usize = ps;
        while k2 < rem
            invariant
                ps <= k2 <= rem,
                rem <= pairs@.len(),
                pairs@ == input,
                input == char_ends_seq(s@),
                s@.len() == input.len(),
                t@ == s@.subrange(ps as int, k2 as int),
            decreases rem - k2,
        {
            proof {
                assert(s@.subrange(ps as int, k2 + 1) =~= s@.subrange(ps as int, k2 as int).push(
                    s@[k2 as int],
                ));
            }
            push_char(&mut t, pairs[k2].1);
            k2 = k2 + 1;
        }
        let ghost mwit = found;
        let ghost twit = t;
        let o = rep(found, t);
        let ghost owit = o;
        out.append(o.as_str());
        proof {
            let outs_old = outs;
            outs = outs.push(o@);
            assert(outs.drop_last() =~= outs_old);
            assert(rep_output_ok(rep, s@, pieces, taken as int, o@)) by {
                assert(mwit@ == pieces[taken as int].0 && twit@ == s@.subrange(
                    pieces[taken as int].1,
                    pieces[taken as int].0.rem,
                ) && owit@ == o@ && call_ensures(rep, (mwit, twit), owit));
            }
            lemma_splice_prefix_agrees(s@, pieces, outs, outs_old, taken as int, 0);
            assert(splice_prefix(s@, pieces, outs, taken + 1, 0) == splice_prefix(
                s@,
                pieces,
                outs,
                taken as int,
                0,
            ) + s@.subrange(piece_cursor(pieces, taken as int, 0), pieces[taken as int].1)
                + outs[taken as int]);
            assert(out@ == splice_prefix(s@, pieces, outs_old, taken as int, 0) + s@.subrange(
                cursor_pos as int,
                ps as int,
            ) + o@);
            assert(out@ == splice_prefix(s@, pieces, outs, taken + 1, 0));
        }
        if rem <= cursor_pos {
            proof {
                assert(rem == cursor_pos);
                assert(pieces.skip(taken as int).len() == 1);
                assert(pieces.len() == taken + 1);
                assert(piece_cursor(pieces, outs.len() as int, 0) == pieces[taken as int].0.rem);
            }
            break;
        }
        proof {
            assert(taken < usize::MAX);
        }
        taken = taken + 1;
        proof {
            assert(pieces.skip(taken as int) =~= pieces.skip(taken - 1).skip(1));
            assert((seq![piece] + replace_pieces(
                expr.pat(),
                expr.slots(),
                input,
                range_end,
                false,
                rem as int,
                max0 - taken,
            )).skip(1) =~= replace_pieces(
                expr.pat(),
                expr.slots(),
                input,
                range_end,
                false,
                rem as int,
                max0 - taken,
            ));
        }
        cursor_start = range_end;
        cur_first = false;
        cursor_pos = rem;
    }
    let n = pairs.len();
    let ghost tail_from = cursor_pos as int;
    let mut k3: usize = cursor_pos;
    while k3 < n
        invariant
            tail_from <= k3 <= n,
            n == pairs@.len(),
            pairs@ == input,
            input == char_ends_seq(s@),
            s@.len() == input.len(),
            out@ == splice_prefix(s@, pieces, outs, outs.len() as int, 0) + s@.subrange(
                tail_from,
                k3 as int,
            ),
            cursor_pos as int == tail_from,
            outs.len() == pieces.len(),
            forall|j: int|
                0 <= j < outs.len() ==> rep_output_ok(rep, s@, pieces, j, #[trigger] outs[j]),
            tail_from == piece_cursor(pieces, pieces.len() as int, 0),
        decreases n - k3,
    {
        proof {
            assert(s@.subrange(tail_from, k3 + 1) =~= s@.subrange(tail_from, k3 as int).push(
                s@[k3 as int],
            ));
        }
        push_char(&mut out, pairs[k3].1);
        k3 = k3 + 1;
    }
    proof {
        assert(out@ == splice(s@, pieces, outs, 0));
    }
    out
}

/// Replaces every matched substring with the closure's output.
///
/// The closure receives each match and its matched text; the result is
/// the input's characters with each matched stretch replaced by what the
/// closure returned, everything else kept.  With no match the input
/// comes back unchanged.
pub fn replace<F: Fn(Match, String) -> String>(expr: &Expr, s: &str, rep: F) -> (r: String)
    requires
        expr.wf(),
        forall|mm: Match, tt: String| call_requires(rep, (mm, tt)),
    ensures
        ({
            let input = char_ends_seq(s@);
            let pieces = replace_pieces(
                expr.pat(),
                expr.slots(),
                input,
                0,
                true,
                0,
                input.len() + 1int,
            );
            exists|outs: Seq<Seq<char>>|
                {
                    &&& outs.len() == pieces.len()
                    &&& forall|j: int|
                        0 <= j < pieces.len() ==> rep_output_ok(
                            rep,
                            s@,
                            pieces,
                            j,
                            #[trigger] outs[j],
                        )
                    &&& r@ == splice(s@, pieces, outs, 0)
                }
        }),
{
    find_iter_replace(expr, None, s, rep)
}

/// Replaces the first `limit` matched substrings with the closure's
/// output; see `replace`.
pub fn replacen<F: Fn(Match, String) -> String>(
    expr: &Expr,
    limit: usize,
    s: &str,
    rep: F,
) -> (r: String)
    requires
        expr.wf(),
        forall|mm: Match, tt: String| call_requires(rep, (mm, tt)),
    ensures
        ({
            let input = char_ends_seq(s@);
            let pieces = replace_pieces(expr.pat(), expr.slots(), input, 0, true, 0, limit as int);
            exists|outs: Seq<Seq<char>>|
                {
                    &&& outs.len() == pieces.len()
                    &&& forall|j: int|
                        0 <= j < pieces.len() ==> rep_output_ok(
                            rep,
                            s@,
                            pieces,
                            j,
                            #[trigger] outs[j],
                        )
                    &&& r@ == splice(s@, pieces, outs, 0)
                }
        }),
{
    find_iter_replace(expr, Some(limit), s, rep)
}

} // verus!
