//! The capture table: one optional range per declared capture slot.

use vstd::prelude::*;
use crate::pattern::Span;

verus! {

/// A flat table of capture slots.  Slot `k` holds the range last recorded
/// by a capture node that names `k`, or nothing if no such node succeeded
/// on this attempt.
pub struct Capture {
    slots: Vec<Option<Span>>,
}

impl View for Capture {
    type V = Seq<Option<Span>>;

    closed spec fn view(&self) -> Seq<Option<Span>> {
        self.slots@
    }
}

impl Capture {
    /// A table of `n` empty slots.
    pub fn new(n: usize) -> (c: Capture)
        ensures
            c@.len() == n,
            forall|i: int| 0 <= i < n ==> c@[i] is None,
    {
        let mut slots: Vec<Option<Span>> = Vec::new();
        let mut i: usize = 0;
        while i < n
            invariant
                i <= n,
                slots@.len() == i,
                forall|j: int| 0 <= j < i ==> slots@[j] is None,
            decreases n - i,
        {
            slots.push(None);
            i = i + 1;
        }
        Capture { slots }
    }

    /// The number of slots.
    pub fn len(&self) -> (n: usize)
        ensures
            n == self@.len(),
    {
        self.slots.len()
    }

    /// The range recorded in slot `k`.
    pub fn get(&self, k: usize) -> (r: Option<Span>)
        requires
            k < self@.len(),
        ensures
            r == self@[k as int],
    {
        self.slots[k]
    }

    /// Records `sp` in slot `k`.
    pub fn set(&mut self, k: usize, sp: Span)
        requires
            k < old(self)@.len(),
        ensures
            final(self)@ == old(self)@.update(k as int, Some(sp)),
    {
        self.slots[k] = Some(sp);
    }

    /// Empties every slot; done at the start of each top-level match
    /// attempt.
    pub fn clear(&mut self)
        ensures
            final(self)@.len() == old(self)@.len(),
            forall|i: int| 0 <= i < final(self)@.len() ==> final(self)@[i] is None,
    {
        let n = self.slots.len();
        let mut i: usize = 0;
        while i < n
            invariant
                i <= n,
                self@.len() == n,
                forall|j: int| 0 <= j < i ==> self@[j] is None,
            decreases n - i,
        {
            self.slots[i] = None;
            i = i + 1;
        }
    }

    /// An identical copy, taken at a backtrack point.
    pub fn cache(&self) -> (c: Capture)
        ensures
            c@ == self@,
    {
        let mut slots: Vec<Option<Span>> = Vec::new();
        let n = self.slots.len();
        let mut i: usize = 0;
        while i < n
            invariant
                i <= n,
                n == self@.len(),
                slots@.len() == i,
                forall|j: int| 0 <= j < i ==> slots@[j] == self@[j],
            decreases n - i,
        {
            slots.push(self.slots[i]);
            i = i + 1;
        }
        proof {
            assert(slots@ =~= self@);
        }
        Capture { slots }
    }
}

} // verus!
