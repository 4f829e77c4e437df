//! A pattern-matching library built on an explicit pattern tree.
//!
//! A pattern is a tree of character tests, ordered sequences, ordered
//! alternatives, bounded greedy repetitions, named captures and positional
//! anchors.  The evaluator consumes a sequence of `(end_index, char)` pairs
//! and decides whether a prefix of it is accepted, returning the matched
//! index range, the captured sub-ranges, the remainder of the input and a
//! flag telling whether the input was advanced.
//!
//! The behaviour of every evaluator and driver is pinned to a single
//! specification function, so that matching is deterministic and the
//! backtracking, rollback and greediness rules are stated once and proved
//! of the executable code.
//!
//! Character tests are data — a closed algebra of character classes —
//! rather than arbitrary user predicates over an environment; that
//! restriction is what lets the meaning of a test, and with it of every
//! match, be a specification function.

pub mod capture;
pub mod class;
pub mod context;
pub mod engine;
pub mod examples;
pub mod expr;
pub mod generic;
pub mod laws;
pub mod pattern;
pub mod props;
pub mod string;
