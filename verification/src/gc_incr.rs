//! Incremental steps of the collector.

use vstd::prelude::*;
use crate::gc::Course;
use crate::gc::settled;
use crate::gc_marks::Marks;
use crate::global::FinalizerObject;
use crate::global::GcPhase;
use crate::global::GlobalState;
use crate::heap::GcRef;
use crate::state::LuaState;

verus! {

/// What the marking and sweeping of a step came to: the objects that were marked before
/// the atomic phase, if the step went through it, the phase it ended in, and whether it
/// ended a cycle.
pub struct StepReport {
    pub atomic: Option<Vec<GcRef>>,
    pub phase: GcPhase,
    pub paused: bool,
}

impl GlobalState {
    /// Ends an incremental step. In the atomic phase, what is marked so far and what the
    /// roots reach is alive; weak tables, finalizers and the books follow from that, as in
    /// a full collection. Returns what is alive, for the sweep, if the step went through
    /// that phase, and whether the collector rests now.
    pub fn incremental_step_to_state(&mut self, running: &LuaState, target: Option<GcPhase>, report: StepReport) -> (r: (
        Option<Marks>,
        bool,
    ))
        requires
            old(self).wf(),
            running.wf(old(self).heap.sizes()),
            report.atomic matches Some(marked) ==> forall|i: int|
                0 <= i < marked@.len() ==> old(self).heap.sizes().has(#[trigger] marked@[i]),
        ensures
            final(self).wf(),
            final(self).heap.sizes() == old(self).heap.sizes(),
            match report.atomic {
                None => r.0 is None && *final(self) == (GlobalState { gc_phase: final(self).gc_phase, ..*old(self) }),
                Some(marked) => r.0 is Some && exists|k: Course| #[trigger]
                    settled(
                        *old(self),
                        *running,
                        Set::empty(),
                        marked@,
                        old(self).finalizers.pending@,
                        k,
                    ) && k.c.alive == r.0->0@ && *final(self) == (GlobalState {
                        gc_phase: final(self).gc_phase,
                        ..k.b
                    }),
            },
            ({
                let due = final(self).finalizers.to_be_finalized@.len();
                let ends = target is None && report.phase == GcPhase::CallFin && due == 0;
                &&& r.1 == (report.paused || ends)
                &&& final(self).gc_phase == (if ends {
                    GcPhase::Pause
                } else {
                    report.phase
                })
            }),
    {
        let mut alive: Option<Marks> = None;
        if let Some(marked) = &report.atomic {
            let start: Marks = Marks::none(&self.heap);
            assert(start@ =~= Set::<GcRef>::empty());
            let fins: Vec<FinalizerObject> = crate::gc::copy_fins(&self.finalizers.pending);
            alive = Some(self.settle_all(running, &start, marked, &fins));
        }
        self.gc_phase = report.phase;
        let mut paused: bool = report.paused;
        if self.ends_cycle(target) {
            self.gc_phase = GcPhase::Pause;
            paused = true;
        }
        (alive, paused)
    }
}

} // verus!
