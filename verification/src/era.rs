//! Era-boundary synchronization: the harness observes the remote system's
//! reward epoch and blocks, by repeated polling, until it strictly passes a
//! baseline. Observed, never mutated; the eras handed back across one run
//! never repeat and never decrease.

use vstd::prelude::*;

verus! {

/// Every later element is strictly larger.
pub open spec fn strictly_increasing(s: Seq<u32>) -> bool {
    forall|i: int, j: int| 0 <= i < j < s.len() ==> s[i] < s[j]
}

/// The era clock: the last era it handed back (or the starting baseline),
/// and the record of every era it has handed back.
pub struct EraClock {
    pub baseline: u32,
    pub returned: Ghost<Seq<u32>>,
}

impl EraClock {
    /// The record is strictly increasing and the baseline is its last
    /// entry.
    pub open spec fn wf(self) -> bool {
        &&& strictly_increasing(self.returned@)
        &&& self.returned@.len() > 0 ==> self.returned@.last() == self.baseline
    }

    /// A clock that will wait for an era strictly past `baseline`.
    pub fn new(baseline: u32) -> (r: EraClock)
        ensures
            r.wf(),
            r.baseline == baseline,
            r.returned@ == Seq::<u32>::empty(),
    {
        EraClock { baseline, returned: Ghost(Seq::empty()) }
    }

    /// One polling step of the era wait: given the era the remote system
    /// reports now, the wait is over exactly where that era strictly
    /// passed the baseline. On success the era is handed back, recorded,
    /// and becomes the new baseline; otherwise the clock is unchanged and
    /// the caller polls again.
    pub fn observe(&mut self, current: u32) -> (r: Option<u32>)
        requires
            old(self).wf(),
        ensures
            final(self).wf(),
            r == if current > old(self).baseline {
                Some(current)
            } else {
                None::<u32>
            },
            r matches Some(e) ==> e == current && final(self).baseline == current
                && final(self).returned@ == old(self).returned@.push(current),
            r is None ==> *final(self) == *old(self),
    {
        if current > self.baseline {
            proof {
                let s = self.returned@;
                assert forall|i: int| 0 <= i < s.len() implies s[i] <= self.baseline by {
                    if i < s.len() - 1 {
                        assert(s[i] < s[s.len() - 1]);
                    }
                }
                assert(strictly_increasing(s.push(current)));
            }
            self.returned = Ghost(self.returned@.push(current));
            self.baseline = current;
            Some(current)
        } else {
            None
        }
    }
}

/// Across one run, the eras a well-formed clock has handed back are
/// strictly increasing, with no repeats.
pub proof fn lemma_returned_eras_strictly_increase(clock: &EraClock)
    requires
        clock.wf(),
    ensures
        strictly_increasing(clock.returned@),
        forall|i: int, j: int|
            0 <= i < j < clock.returned@.len() ==> clock.returned@[i] != clock.returned@[j],
{
}

} // verus!
