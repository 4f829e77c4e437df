//! Ready-made patterns: small matchers built on the pattern tree.
//!
//! Each constructor proves the tree it builds — a specification function
//! pins the exact shape — and that the tree has no structural fault, so
//! it returns a well-formed expression unconditionally.

use vstd::prelude::*;
use crate::class::CharClass;
use crate::expr::Expr;
use crate::pattern::{
    first_error,
    lemma_valid_all_node,
    lemma_valid_any_node,
    lemma_valid_capture_node,
    pattern_valid,
    Pattern,
    Position,
    RepeatBounds,
};

verus! {

/// `p` tests for exactly the character `c`.
pub open spec fn pins_lit(p: Pattern, c: char) -> bool {
    p matches Pattern::Test(cls) && cls matches CharClass::Is(w) && w == c
}

/// `p` tests for an ASCII decimal digit.
pub open spec fn pins_ascii_digit(p: Pattern) -> bool {
    p matches Pattern::Test(cls) && cls is AsciiDigit
}

/// `p` tests for a character in the inclusive range `lo..=hi`.
pub open spec fn pins_range(p: Pattern, lo: char, hi: char) -> bool {
    p matches Pattern::Test(cls) && cls matches CharClass::InRange(a, b) && a == lo && b == hi
}

/// `p` tests for one of the listed characters.
pub open spec fn pins_one_of(p: Pattern, ws: Seq<char>) -> bool {
    p matches Pattern::Test(cls) && cls matches CharClass::OneOf(v) && v@ == ws
}

/// `p` is a repetition, with bounds `b`, of a one-child sequence; the
/// inner test is read with `rep_inner_test`.
pub open spec fn is_repeat_all1(p: Pattern, b: RepeatBounds) -> bool {
    &&& p matches Pattern::Repeat(child, bb)
    &&& bb == b
    &&& *child matches Pattern::All(cs)
    &&& cs@.len() == 1
}

/// The single test inside a repetition accepted by `is_repeat_all1`.
pub open spec fn rep_inner_test(p: Pattern) -> Pattern {
    (*(p->Repeat_0))->All_0@[0]
}

/// A test for a single literal character.
fn lit(c: char) -> (p: Pattern)
    ensures
        pins_lit(p, c),
{
    Pattern::Test(CharClass::Is(c))
}

/// String of either one train car, or five, capturing the first and the
/// last one.
///
/// Capture slots: `TRAIN_CARS_FIRST_CAR` and `TRAIN_CARS_LAST_CAR`.
pub struct TrainCars;

/// The capture slot of the first car of `TrainCars`.
pub const TRAIN_CARS_FIRST_CAR: usize = 0;

/// The capture slot of the last car of `TrainCars`.
pub const TRAIN_CARS_LAST_CAR: usize = 1;

/// The train-car character.
pub open spec fn car_char() -> char {
    '\u{1F683}'
}

/// `p` is a one-child sequence holding an anchored one-car test.
pub open spec fn pins_anchored_car(p: Pattern, anchor: Position) -> bool {
    &&& p matches Pattern::All(cs)
    &&& cs@.len() == 1
    &&& cs@[0] matches Pattern::Position(child, a)
    &&& a == anchor
    &&& *child matches Pattern::All(inner)
    &&& inner@.len() == 1
    &&& pins_lit(inner@[0], car_char())
}

/// The exact shape of the train-car pattern: either a single car that is
/// both first and last, captured into both slots, or a first car, three
/// more cars, and a last car, with the first and last captured.
pub open spec fn train_cars_tree(p: Pattern) -> bool {
    &&& p matches Pattern::Any(br)
    &&& br@.len() == 2
    &&& (br@[0] matches Pattern::Capture(c0, s0) && s0@ == seq![
        TRAIN_CARS_FIRST_CAR,
        TRAIN_CARS_LAST_CAR,
    ] && pins_anchored_car(*c0, Position::FirstAndLast))
    &&& (br@[1] matches Pattern::All(cs) && cs@.len() == 3 && (cs@[0] matches Pattern::Capture(
        c1,
        s1,
    ) && s1@ == seq![TRAIN_CARS_FIRST_CAR] && pins_anchored_car(*c1, Position::First)) && (cs@[1]
        matches Pattern::Repeat(c2, b) && b == RepeatBounds::Exactly(3) && (*c2
        matches Pattern::All(inner) && inner@.len() == 1 && pins_lit(inner@[0], car_char()))) && (
    cs@[2] matches Pattern::Capture(c3, s3) && s3@ == seq![TRAIN_CARS_LAST_CAR]
        && pins_anchored_car(*c3, Position::Last)))
}

/// An anchored-car group has no structural fault.
proof fn lemma_anchored_car_valid(p: Pattern, n_slots: int)
    requires
        pins_anchored_car(p, Position::First) || pins_anchored_car(p, Position::Last)
            || pins_anchored_car(p, Position::FirstAndLast),
    ensures
        pattern_valid(p, n_slots),
{
    let pos = p->All_0@[0];
    let inner = *(pos->Position_0);
    assert(first_error(inner->All_0@[0], n_slots) is None);
    lemma_valid_all_node(inner, n_slots);
    assert(first_error(pos, n_slots) is None);
    lemma_valid_all_node(p, n_slots);
}

/// The pinned train-car tree has no structural fault.
proof fn lemma_train_cars_valid(p: Pattern)
    requires
        train_cars_tree(p),
    ensures
        pattern_valid(p, 2),
{
    let br = p->Any_0@;
    lemma_anchored_car_valid(*(br[0]->Capture_0), 2);
    lemma_valid_capture_node(br[0], 2);
    let cs = br[1]->All_0@;
    lemma_anchored_car_valid(*(cs[0]->Capture_0), 2);
    lemma_valid_capture_node(cs[0], 2);
    let rep_inner = *(cs[1]->Repeat_0);
    assert(first_error(rep_inner->All_0@[0], 2) is None);
    lemma_valid_all_node(rep_inner, 2);
    assert(first_error(cs[1], 2) is None);
    lemma_anchored_car_valid(*(cs[2]->Capture_0), 2);
    lemma_valid_capture_node(cs[2], 2);
    lemma_valid_all_node(br[1], 2);
    lemma_valid_any_node(p, 2);
}

impl TrainCars {
    /// The compiled pattern.
    pub fn expr() -> (e: Expr)
        ensures
            e.wf(),
            e.slots() == 2,
            train_cars_tree(e.pat()),
    {
        let car = '\u{1F683}';
        let single = Pattern::Capture(
            Box::new(
                Pattern::All(
                    vec![
                        Pattern::Position(
                            Box::new(Pattern::All(vec![lit(car)])),
                            Position::FirstAndLast,
                        ),
                    ],
                ),
            ),
            vec![TRAIN_CARS_FIRST_CAR, TRAIN_CARS_LAST_CAR],
        );
        let five = Pattern::All(
            vec![
                Pattern::Capture(
                    Box::new(
                        Pattern::All(
                            vec![
                                Pattern::Position(
                                    Box::new(Pattern::All(vec![lit(car)])),
                                    Position::First,
                                ),
                            ],
                        ),
                    ),
                    vec![TRAIN_CARS_FIRST_CAR],
                ),
                Pattern::Repeat(
                    Box::new(Pattern::All(vec![lit(car)])),
                    RepeatBounds::Exactly(3),
                ),
                Pattern::Capture(
                    Box::new(
                        Pattern::All(
                            vec![
                                Pattern::Position(
                                    Box::new(Pattern::All(vec![lit(car)])),
                                    Position::Last,
                                ),
                            ],
                        ),
                    ),
                    vec![TRAIN_CARS_LAST_CAR],
                ),
            ],
        );
        let tree = Pattern::Any(vec![single, five]);
        proof {
            let br = tree->Any_0@;
            assert(br[0]->Capture_1@ =~= seq![TRAIN_CARS_FIRST_CAR, TRAIN_CARS_LAST_CAR]);
            assert(br[1]->All_0@[0]->Capture_1@ =~= seq![TRAIN_CARS_FIRST_CAR]);
            assert(br[1]->All_0@[2]->Capture_1@ =~= seq![TRAIN_CARS_LAST_CAR]);
            assert(train_cars_tree(tree));
            lemma_train_cars_valid(tree);
        }
        Expr::new(tree, 2).unwrap()
    }
}

/// Internet Protocol v4 address.
pub struct IpV4;

/// The exact shape of one decimal byte: `25` then `0..=5`, or `2` then
/// `0..=4` and a digit, or `0` or `1` and two digits, or two digits.
pub open spec fn ipv4_byte_tree(p: Pattern) -> bool {
    &&& p matches Pattern::Any(br)
    &&& br@.len() == 4
    &&& (br@[0] matches Pattern::All(c0) && c0@.len() == 3 && pins_lit(c0@[0], '2') && pins_lit(
        c0@[1],
        '5',
    ) && pins_range(c0@[2], '0', '5'))
    &&& (br@[1] matches Pattern::All(c1) && c1@.len() == 3 && pins_lit(c1@[0], '2') && pins_range(
        c1@[1],
        '0',
        '4',
    ) && pins_ascii_digit(c1@[2]))
    &&& (br@[2] matches Pattern::All(c2) && c2@.len() == 3 && pins_one_of(c2@[0], seq!['0', '1'])
        && pins_ascii_digit(c2@[1]) && pins_ascii_digit(c2@[2]))
    &&& (br@[3] matches Pattern::All(c3) && c3@.len() == 2 && pins_ascii_digit(c3@[0])
        && pins_ascii_digit(c3@[1]))
}

/// The exact shape of the address pattern: three bytes each followed by
/// a dot, then a final byte.
pub open spec fn ipv4_tree(p: Pattern) -> bool {
    &&& p matches Pattern::All(cs)
    &&& cs@.len() == 2
    &&& (cs@[0] matches Pattern::Repeat(child, b) && b == RepeatBounds::Exactly(3) && (*child
        matches Pattern::All(inner) && inner@.len() == 2 && ipv4_byte_tree(inner@[0]) && pins_lit(
        inner@[1],
        '.',
    )))
    &&& ipv4_byte_tree(cs@[1])
}

/// A pinned byte alternative has no structural fault.
proof fn lemma_ipv4_byte_valid(p: Pattern, n_slots: int)
    requires
        ipv4_byte_tree(p),
    ensures
        pattern_valid(p, n_slots),
{
    let br = p->Any_0@;
    lemma_valid_all_node(br[0], n_slots);
    lemma_valid_all_node(br[1], n_slots);
    lemma_valid_all_node(br[2], n_slots);
    lemma_valid_all_node(br[3], n_slots);
    lemma_valid_any_node(p, n_slots);
}

/// One decimal byte, `0` to `255`, written without a sign.
fn ipv4_byte() -> (p: Pattern)
    ensures
        ipv4_byte_tree(p),
{
    Pattern::Any(
        vec![
            Pattern::All(
                vec![lit('2'), lit('5'), Pattern::Test(CharClass::InRange('0', '5'))],
            ),
            Pattern::All(
                vec![
                    lit('2'),
                    Pattern::Test(CharClass::InRange('0', '4')),
                    Pattern::Test(CharClass::AsciiDigit),
                ],
            ),
            Pattern::All(
                vec![
                    Pattern::Test(CharClass::OneOf(vec!['0', '1'])),
                    Pattern::Test(CharClass::AsciiDigit),
                    Pattern::Test(CharClass::AsciiDigit),
                ],
            ),
            Pattern::All(
                vec![Pattern::Test(CharClass::AsciiDigit), Pattern::Test(CharClass::AsciiDigit)],
            ),
        ],
    )
}

impl IpV4 {
    /// The compiled pattern.
    pub fn expr() -> (e: Expr)
        ensures
            e.wf(),
            e.slots() == 0,
            ipv4_tree(e.pat()),
    {
        let tree = Pattern::All(
            vec![
                Pattern::Repeat(
                    Box::new(Pattern::All(vec![ipv4_byte(), lit('.')])),
                    RepeatBounds::Exactly(3),
                ),
                ipv4_byte(),
            ],
        );
        proof {
            assert(ipv4_tree(tree));
            let cs = tree->All_0@;
            let dotted = *(cs[0]->Repeat_0);
            lemma_ipv4_byte_valid(dotted->All_0@[0], 0);
            lemma_valid_all_node(dotted, 0);
            assert(first_error(cs[0], 0) is None);
            lemma_ipv4_byte_valid(cs[1], 0);
            lemma_valid_all_node(tree, 0);
        }
        Expr::new(tree, 0).unwrap()
    }
}

/// Literal `u32` binary notation, like `0b110011010`.
pub struct BinaryU32;

/// The exact shape of the binary-literal pattern: `0`, `b`, then one to
/// 32 binary digits.
pub open spec fn binary_u32_tree(p: Pattern) -> bool {
    &&& p matches Pattern::All(cs)
    &&& cs@.len() == 3
    &&& pins_lit(cs@[0], '0')
    &&& pins_lit(cs@[1], 'b')
    &&& is_repeat_all1(cs@[2], RepeatBounds::Between(1, 33))
    &&& pins_one_of(rep_inner_test(cs@[2]), seq!['0', '1'])
}

impl BinaryU32 {
    /// The compiled pattern.
    pub fn expr() -> (e: Expr)
        ensures
            e.wf(),
            e.slots() == 0,
            binary_u32_tree(e.pat()),
    {
        let tree = Pattern::All(
            vec![
                lit('0'),
                lit('b'),
                Pattern::Repeat(
                    Box::new(
                        Pattern::All(vec![Pattern::Test(CharClass::OneOf(vec!['0', '1']))]),
                    ),
                    RepeatBounds::Between(1, 33),
                ),
            ],
        );
        proof {
            assert(binary_u32_tree(tree));
            let cs = tree->All_0@;
            let digits = *(cs[2]->Repeat_0);
            lemma_valid_all_node(digits, 0);
            assert(first_error(cs[2], 0) is None);
            lemma_valid_all_node(tree, 0);
        }
        Expr::new(tree, 0).unwrap()
    }
}

/// Uniform Resource Identifier.
///
/// Capture slots: `URI_SCHEMA`, `URI_PATH`, `URI_QUERY` and
/// `URI_FRAGMENT`.
pub struct Uri;

/// The capture slot of the schema of `Uri`.
pub const URI_SCHEMA: usize = 0;

/// The capture slot of the path of `Uri`.
pub const URI_PATH: usize = 1;

/// The capture slot of the query of `Uri`.
pub const URI_QUERY: usize = 2;

/// The capture slot of the fragment of `Uri`.
pub const URI_FRAGMENT: usize = 3;

/// `p` tests for an underscore or an ASCII letter or digit.
pub open spec fn pins_schema_char(p: Pattern) -> bool {
    &&& p matches Pattern::Test(cls)
    &&& cls matches CharClass::AnyOf(v)
    &&& v@.len() == 2
    &&& (v@[0] matches CharClass::Is(w) && w == '_')
    &&& v@[1] is AsciiAlnum
}

/// `p` tests for any character that is neither listed nor ASCII
/// whitespace.
pub open spec fn pins_excluding(p: Pattern, ws: Seq<char>) -> bool {
    &&& p matches Pattern::Test(cls)
    &&& cls matches CharClass::Not(neg)
    &&& *neg matches CharClass::AnyOf(v)
    &&& v@.len() == 2
    &&& (v@[0] matches CharClass::OneOf(chars) && chars@ == ws)
    &&& v@[1] is AsciiWhitespace
}

/// `p` tests for any character that is neither `#` nor ASCII whitespace.
pub open spec fn pins_query_char(p: Pattern) -> bool {
    &&& p matches Pattern::Test(cls)
    &&& cls matches CharClass::Not(neg)
    &&& *neg matches CharClass::AnyOf(v)
    &&& v@.len() == 2
    &&& (v@[0] matches CharClass::Is(w) && w == '#')
    &&& v@[1] is AsciiWhitespace
}

/// `p` tests for any character but ASCII whitespace.
pub open spec fn pins_fragment_char(p: Pattern) -> bool {
    &&& p matches Pattern::Test(cls)
    &&& cls matches CharClass::Not(neg)
    &&& *neg is AsciiWhitespace
}

/// `p` is an optional group — `?` or `#`, then a captured run of the
/// given kind — repeated at most once.
pub open spec fn pins_uri_tail(p: Pattern, mark: char, slot: usize) -> bool {
    &&& p matches Pattern::Repeat(child, b)
    &&& b == RepeatBounds::Between(0, 2)
    &&& *child matches Pattern::All(cs)
    &&& cs@.len() == 2
    &&& pins_lit(cs@[0], mark)
    &&& (cs@[1] matches Pattern::Capture(cap, slots) && slots@ == seq![slot] && (*cap
        matches Pattern::All(inner) && inner@.len() == 1 && is_repeat_all1(
        inner@[0],
        RepeatBounds::AtLeast(0),
    ) && rep_inner_test(inner@[0]) is Test))
}

/// The exact shape of the URI pattern: a captured schema, `://`, a
/// captured path, then an optional captured query after `?` and an
/// optional captured fragment after `#`.
pub open spec fn uri_tree(p: Pattern) -> bool {
    &&& p matches Pattern::All(cs)
    &&& cs@.len() == 7
    &&& (cs@[0] matches Pattern::Capture(c0, s0) && s0@ == seq![URI_SCHEMA] && (*c0
        matches Pattern::All(i0) && i0@.len() == 1 && is_repeat_all1(
        i0@[0],
        RepeatBounds::AtLeast(1),
    ) && pins_schema_char(rep_inner_test(i0@[0]))))
    &&& pins_lit(cs@[1], ':')
    &&& pins_lit(cs@[2], '/')
    &&& pins_lit(cs@[3], '/')
    &&& (cs@[4] matches Pattern::Capture(c4, s4) && s4@ == seq![URI_PATH] && (*c4
        matches Pattern::All(i4) && i4@.len() == 2 && pins_excluding(i4@[0], seq!['/', '?', '#'])
        && is_repeat_all1(i4@[1], RepeatBounds::AtLeast(1)) && pins_excluding(
        rep_inner_test(i4@[1]),
        seq!['?', '#'],
    )))
    &&& pins_uri_tail(cs@[5], '?', URI_QUERY) && pins_query_char(
        rep_inner_test((*(cs@[5]->Repeat_0))->All_0@[1]->Capture_0->All_0@[0]),
    )
    &&& pins_uri_tail(cs@[6], '#', URI_FRAGMENT) && pins_fragment_char(
        rep_inner_test((*(cs@[6]->Repeat_0))->All_0@[1]->Capture_0->All_0@[0]),
    )
}

/// A pinned optional tail group has no structural fault.
proof fn lemma_uri_tail_valid(p: Pattern, mark: char, slot: usize, n_slots: int)
    requires
        pins_uri_tail(p, mark, slot),
        slot < n_slots,
    ensures
        pattern_valid(p, n_slots),
{
    let cs = (*(p->Repeat_0))->All_0@;
    let run = (*(cs[1]->Capture_0))->All_0@[0];
    lemma_valid_all_node(*(run->Repeat_0), n_slots);
    assert(first_error(run, n_slots) is None);
    lemma_valid_all_node(*(cs[1]->Capture_0), n_slots);
    lemma_valid_capture_node(cs[1], n_slots);
    lemma_valid_all_node(*(p->Repeat_0), n_slots);
    assert(first_error(p, n_slots) is None);
}

/// The pinned URI tree has no structural fault.
proof fn lemma_uri_valid(p: Pattern)
    requires
        uri_tree(p),
    ensures
        pattern_valid(p, 4),
{
    let cs = p->All_0@;
    let schema_run = (*(cs[0]->Capture_0))->All_0@[0];
    lemma_valid_all_node(*(schema_run->Repeat_0), 4);
    assert(first_error(schema_run, 4) is None);
    lemma_valid_all_node(*(cs[0]->Capture_0), 4);
    lemma_valid_capture_node(cs[0], 4);
    let path_run = (*(cs[4]->Capture_0))->All_0@[1];
    lemma_valid_all_node(*(path_run->Repeat_0), 4);
    assert(first_error(path_run, 4) is None);
    lemma_valid_all_node(*(cs[4]->Capture_0), 4);
    lemma_valid_capture_node(cs[4], 4);
    lemma_uri_tail_valid(cs[5], '?', URI_QUERY, 4);
    lemma_uri_tail_valid(cs[6], '#', URI_FRAGMENT, 4);
    lemma_valid_all_node(p, 4);
}

impl Uri {
    /// The compiled pattern.
    pub fn expr() -> (e: Expr)
        ensures
            e.wf(),
            e.slots() == 4,
            uri_tree(e.pat()),
    {
        let schema_char = CharClass::AnyOf(vec![CharClass::Is('_'), CharClass::AsciiAlnum]);
        let path_first = CharClass::Not(
            Box::new(
                CharClass::AnyOf(
                    vec![CharClass::OneOf(vec!['/', '?', '#']), CharClass::AsciiWhitespace],
                ),
            ),
        );
        let path_rest = CharClass::Not(
            Box::new(
                CharClass::AnyOf(
                    vec![CharClass::OneOf(vec!['?', '#']), CharClass::AsciiWhitespace],
                ),
            ),
        );
        let query_char = CharClass::Not(
            Box::new(
                CharClass::AnyOf(vec![CharClass::Is('#'), CharClass::AsciiWhitespace]),
            ),
        );
        let fragment_char = CharClass::Not(Box::new(CharClass::AsciiWhitespace));
        let tree = Pattern::All(
            vec![
                Pattern::Capture(
                    Box::new(
                        Pattern::All(
                            vec![
                                Pattern::Repeat(
                                    Box::new(Pattern::All(vec![Pattern::Test(schema_char)])),
                                    RepeatBounds::AtLeast(1),
                                ),
                            ],
                        ),
                    ),
                    vec![URI_SCHEMA],
                ),
                lit(':'),
                lit('/'),
                lit('/'),
                Pattern::Capture(
                    Box::new(
                        Pattern::All(
                            vec![
                                Pattern::Test(path_first),
                                Pattern::Repeat(
                                    Box::new(Pattern::All(vec![Pattern::Test(path_rest)])),
                                    RepeatBounds::AtLeast(1),
                                ),
                            ],
                        ),
                    ),
                    vec![URI_PATH],
                ),
                Pattern::Repeat(
                    Box::new(
                        Pattern::All(
                            vec![
                                lit('?'),
                                Pattern::Capture(
                                    Box::new(
                                        Pattern::All(
                                            vec![
                                                Pattern::Repeat(
                                                    Box::new(
                                                        Pattern::All(
                                                            vec![Pattern::Test(query_char)],
                                                        ),
                                                    ),
                                                    RepeatBounds::AtLeast(0),
                                                ),
                                            ],
                                        ),
                                    ),
                                    vec![URI_QUERY],
                                ),
                            ],
                        ),
                    ),
                    RepeatBounds::Between(0, 2),
                ),
                Pattern::Repeat(
                    Box::new(
                        Pattern::All(
                            vec![
                                lit('#'),
                                Pattern::Capture(
                                    Box::new(
                                        Pattern::All(
                                            vec![
                                                Pattern::Repeat(
                                                    Box::new(
                                                        Pattern::All(
                                                            vec![Pattern::Test(fragment_char)],
                                                        ),
                                                    ),
                                                    RepeatBounds::AtLeast(0),
                                                ),
                                            ],
                                        ),
                                    ),
                                    vec![URI_FRAGMENT],
                                ),
                            ],
                        ),
                    ),
                    RepeatBounds::Between(0, 2),
                ),
            ],
        );
        proof {
            let cs = tree->All_0@;
            assert(cs[0]->Capture_1@ =~= seq![URI_SCHEMA]);
            assert(cs[4]->Capture_1@ =~= seq![URI_PATH]);
            assert((*(cs[5]->Repeat_0))->All_0@[1]->Capture_1@ =~= seq![URI_QUERY]);
            assert((*(cs[6]->Repeat_0))->All_0@[1]->Capture_1@ =~= seq![URI_FRAGMENT]);
            assert(uri_tree(tree));
            lemma_uri_valid(tree);
        }
        Expr::new(tree, 4).unwrap()
    }
}

/// Identifier such as `my_var32`: a letter or underscore, then letters,
/// digits and underscores.
pub struct Identifier;

/// `p` tests for an underscore or a Unicode alphabetic character.
pub open spec fn pins_ident_start(p: Pattern) -> bool {
    &&& p matches Pattern::Test(cls)
    &&& cls matches CharClass::AnyOf(v)
    &&& v@.len() == 2
    &&& (v@[0] matches CharClass::Is(w) && w == '_')
    &&& v@[1] is Alphabetic
}

/// `p` tests for an underscore or a Unicode alphanumeric character.
pub open spec fn pins_ident_cont(p: Pattern) -> bool {
    &&& p matches Pattern::Test(cls)
    &&& cls matches CharClass::AnyOf(v)
    &&& v@.len() == 2
    &&& (v@[0] matches CharClass::Is(w) && w == '_')
    &&& v@[1] is Alphanumeric
}

/// The exact shape of the identifier pattern: a start character, then
/// any number of continuation characters.
pub open spec fn identifier_tree(p: Pattern) -> bool {
    &&& p matches Pattern::All(cs)
    &&& cs@.len() == 2
    &&& pins_ident_start(cs@[0])
    &&& is_repeat_all1(cs@[1], RepeatBounds::AtLeast(0))
    &&& pins_ident_cont(rep_inner_test(cs@[1]))
}

impl Identifier {
    /// The compiled pattern.
    pub fn expr() -> (e: Expr)
        ensures
            e.wf(),
            e.slots() == 0,
            identifier_tree(e.pat()),
    {
        let tree = Pattern::All(
            vec![
                Pattern::Test(
                    CharClass::AnyOf(vec![CharClass::Is('_'), CharClass::Alphabetic]),
                ),
                Pattern::Repeat(
                    Box::new(
                        Pattern::All(
                            vec![
                                Pattern::Test(
                                    CharClass::AnyOf(
                                        vec![CharClass::Is('_'), CharClass::Alphanumeric],
                                    ),
                                ),
                            ],
                        ),
                    ),
                    RepeatBounds::AtLeast(0),
                ),
            ],
        );
        proof {
            assert(identifier_tree(tree));
            let cs = tree->All_0@;
            let cont = *(cs[1]->Repeat_0);
            lemma_valid_all_node(cont, 0);
            assert(first_error(cs[1], 0) is None);
            lemma_valid_all_node(tree, 0);
        }
        Expr::new(tree, 0).unwrap()
    }
}

} // verus!
