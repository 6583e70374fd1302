//! The decision core of the cooperative scheduler: a priority countdown per
//! task.  The host performs the work; this type only decides, once per tick,
//! which tasks are due and reloads their counters.

use vstd::prelude::*;

verus! {

/// The per-task countdown state.  A task with period `p` (its tick
/// interval, at least 1) is due every `p`-th tick.
pub struct Scheduler {
    periods: Vec<u32>,
    counters: Vec<u32>,
}

impl Scheduler {
    /// The tick interval of each task.
    pub closed spec fn spec_periods(self) -> Seq<u32> {
        self.periods@
    }

    /// The ticks left until each task is due.
    pub closed spec fn spec_counters(self) -> Seq<u32> {
        self.counters@
    }

    /// Well-formedness: one counter per period, each period positive, each
    /// counter between 1 and its period.
    pub closed spec fn wf(self) -> bool {
        &&& self.counters@.len() == self.periods@.len()
        &&& forall|i: int|
            0 <= i < self.periods@.len() ==> 1 <= #[trigger] self.counters@[i] <= self.periods@[i]
        &&& forall|i: int| 0 <= i < self.periods@.len() ==> #[trigger] self.periods@[i] >= 1
    }

    /// A scheduler for tasks with the given tick intervals; an interval of
    /// zero counts as one.  Every task is first due after its full interval.
    pub fn new(timings: &Vec<u32>) -> (s: Scheduler)
        ensures
            s.wf(),
            s.spec_periods().len() == timings@.len(),
            forall|i: int| 0 <= i < timings@.len() ==> #[trigger] s.spec_periods()[i] == (
            if timings@[i] >= 1 {
                timings@[i]
            } else {
                1u32
            }),
            s.spec_counters() == s.spec_periods(),
    {
        let mut periods: Vec<u32> = Vec::new();
        let mut i: usize = 0;
        while i < timings.len()
            invariant
                i <= timings@.len(),
                periods@.len() == i,
                forall|j: int| 0 <= j < i ==> #[trigger] periods@[j] == (if timings@[j] >= 1 {
                    timings@[j]
                } else {
                    1u32
                }),
            decreases timings@.len() - i,
        {
            let t = timings[i];
            periods.push(if t >= 1 {
                t
            } else {
                1
            });
            i = i + 1;
        }
        let counters = periods.clone();
        proof {
            assert(counters@ =~= periods@);
        }
        Scheduler { periods, counters }
    }

    /// One tick: every counter falls by one; a task whose counter reaches
    /// zero is due and has its counter reloaded with its period.
    pub fn tick(&mut self) -> (due: Vec<bool>)
        requires
            old(self).wf(),
        ensures
            final(self).wf(),
            final(self).spec_periods() == old(self).spec_periods(),
            due@.len() == old(self).spec_periods().len(),
            forall|i: int|
                0 <= i < due@.len() ==> #[trigger] due@[i] == (old(self).spec_counters()[i] == 1),
            forall|i: int|
                0 <= i < due@.len() ==> #[trigger] final(self).spec_counters()[i] == (
                if old(self).spec_counters()[i] == 1 {
                    old(self).spec_periods()[i]
                } else {
                    (old(self).spec_counters()[i] - 1) as u32
                }),
    {
        let mut due: Vec<bool> = Vec::new();
        let mut i: usize = 0;
        while i < self.counters.len()
            invariant
                self.periods@ == old(self).spec_periods(),
                self.counters@.len() == old(self).spec_counters().len(),
                old(self).wf(),
                i <= self.counters@.len(),
                due@.len() == i,
                forall|j: int|
                    i <= j < self.counters@.len() ==> #[trigger] self.counters@[j] == old(
                        self,
                    ).spec_counters()[j],
                forall|j: int|
                    0 <= j < i ==> #[trigger] due@[j] == (old(self).spec_counters()[j] == 1),
                forall|j: int|
                    0 <= j < i ==> #[trigger] self.counters@[j] == (if old(self).spec_counters()[j]
                        == 1 {
                        old(self).spec_periods()[j]
                    } else {
                        (old(self).spec_counters()[j] - 1) as u32
                    }),
            decreases self.counters@.len() - i,
        {
            let c = self.counters[i];
            if c == 1 {
                due.push(true);
                let p = self.periods[i];
                self.counters.set(i, p);
            } else {
                due.push(false);
                self.counters.set(i, c - 1);
            }
            i = i + 1;
        }
        due
    }
}

} // verus!
