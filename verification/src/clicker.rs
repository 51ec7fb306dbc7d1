use vstd::prelude::*;

verus! {

/// Whether any of the touches lies on the watched area.
pub open spec fn any_touch(hits: Seq<bool>) -> bool {
    exists|i: int| 0 <= i < hits.len() && hits[i]
}

/// A press fires when the area is touched now and was not touched the step before.
pub open spec fn fires(was_touched: bool, touched: bool) -> bool {
    !was_touched && touched
}

/// A finger held on the area fires once: after a step in which the area was
/// touched, a step in which it is touched again does not fire.
pub proof fn lemma_held_touch_fires_once(first: Seq<bool>, second: Seq<bool>)
    requires
        any_touch(first),
    ensures
        !fires(any_touch(first), any_touch(second)),
{
}

/// After a step without a touch on the area, a touch on it fires.
pub proof fn lemma_touch_after_release_fires(first: Seq<bool>, second: Seq<bool>)
    requires
        !any_touch(first),
        any_touch(second),
    ensures
        fires(any_touch(first), any_touch(second)),
{
}

/// The area counts as touched when any touch of the step lies on it, wherever
/// that touch stands among the others: a touch on it at any place makes the
/// step touch it, and without one the step does not.
pub proof fn lemma_touch_anywhere_counts(hits: Seq<bool>, i: int)
    ensures
        0 <= i < hits.len() && hits[i] ==> any_touch(hits),
        !any_touch(hits) ==> forall|j: int| 0 <= j < hits.len() ==> !hits[j],
        any_touch(hits) ==> exists|j: int| 0 <= j < hits.len() && hits[j],
{
}

/// Detects the moment a finger comes down on an area: holding the finger
/// there does not fire again until it has been lifted.
#[derive(Clone, Copy)]
pub struct Clicker {
    there_was_finger: bool,
}

impl Clicker {
    /// Whether the area was touched in the last step.
    pub closed spec fn was_touched(self) -> bool {
        self.there_was_finger
    }

    /// A clicker that has seen no touch yet.
    pub fn new() -> (res: Clicker)
        ensures
            !res.was_touched(),
    {
        Clicker { there_was_finger: false }
    }

    /// Takes, for each touch of this step, whether it lies on the area, and
    /// tells whether a press starts now.
    pub fn update(&mut self, hits: &[bool]) -> (res: bool)
        ensures
            res == fires(old(self).was_touched(), any_touch(hits@)),
            final(self).was_touched() == any_touch(hits@),
            final(self).was_touched() == (exists|i: int| 0 <= i < hits@.len() && hits@[i]),
            res == (!old(self).was_touched() && exists|i: int| 0 <= i < hits@.len() && hits@[i]),
    {
        let mut i: usize = 0;
        let mut touched = false;
        while i < hits.len()
            invariant
                i <= hits.len(),
                touched == (exists|j: int| 0 <= j < i && hits@[j]),
            decreases hits.len() - i,
        {
            if hits[i] {
                touched = true;
            }
            i = i + 1;
        }
        let ret = !self.there_was_finger && touched;
        self.there_was_finger = touched;
        ret
    }
}

} // verus!
