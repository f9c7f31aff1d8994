//! When the collector runs, and in which mode.

use vstd::prelude::*;
use crate::gc::Course;
use crate::gc::HeapCollectMode;
use crate::gc::Young;
use crate::gc::collected;
use crate::gc_marks::Marks;
use crate::global::GcKind;
use crate::global::GcPhase;
use crate::global::GlobalState;
use crate::global::ThreadRegistryEntry;
use crate::global::threads_ok;
use crate::heap::Heap;
use crate::intern::MIN_BUCKETS;
use crate::intern::law_back_to_minimum;
use crate::state::LuaState;
use crate::value::LuaValue;

verus! {

/// The smaller of a number and the largest one.
pub open spec fn capped(x: int) -> usize {
    if x > usize::MAX {
        usize::MAX
    } else {
        x as usize
    }
}

fn times(a: usize, b: usize) -> (r: usize)
    ensures
        r == capped(a * b),
{
    match a.checked_mul(b) {
        Some(r) => r,
        None => usize::MAX,
    }
}

fn plus(a: usize, b: usize) -> (r: usize)
    ensures
        r == capped(a + b),
{
    match a.checked_add(b) {
        Some(r) => r,
        None => usize::MAX,
    }
}

/// A number of bytes as a negative debt.
pub fn negative_debt(bytes: usize) -> (r: isize)
    ensures
        r == -(if bytes > isize::MAX {
            isize::MAX as int
        } else {
            bytes as int
        }),
{
    if bytes > isize::MAX as usize {
        -isize::MAX
    } else {
        -(bytes as isize)
    }
}

/// A debt that with the bytes in use stays within the largest number.
pub open spec fn bounded_debt(total: int, debt: int) -> int {
    if debt < total - isize::MAX {
        total - isize::MAX
    } else {
        debt
    }
}

/// What a minor collection lets the store grow by.
pub open spec fn minor_growth(g: GlobalState) -> usize {
    capped((g.spec_total_bytes() / 100) * g.genminormul)
}

/// Where the next minor collection is set.
pub open spec fn minor_debt_set(a: GlobalState, b: GlobalState) -> bool {
    let total = a.spec_total_bytes() as int;
    let growth = minor_growth(a) as int;
    b == (GlobalState {
        heap_threshold: capped(
            total + (if growth > 1 {
                growth
            } else {
                1
            }),
        ),
        gc_debt: bounded_debt(
            total,
            -(if growth > isize::MAX {
                isize::MAX as int
            } else {
                growth
            }),
        ) as isize,
        ..a
    })
}

/// How many bytes may be in use before the next cycle.
pub open spec fn pause_threshold(g: GlobalState) -> int {
    capped(
        (if g.gc_estimate > 1 {
            g.gc_estimate as int
        } else {
            1
        }) * (g.gcpause * 4),
    ) as int / 100
}

/// Where the next cycle is set, by the pause.
pub open spec fn pause_debt_set(a: GlobalState, b: GlobalState) -> bool {
    let total = a.spec_total_bytes() as int;
    let threshold = pause_threshold(a);
    b == (GlobalState {
        heap_threshold: if threshold > total {
            threshold as usize
        } else {
            capped(total + 1)
        },
        gc_debt: bounded_debt(
            total,
            if threshold > total {
                -(if threshold - total > isize::MAX {
                    isize::MAX as int
                } else {
                    threshold - total
                })
            } else {
                0
            },
        ) as isize,
        ..a
    })
}

impl GlobalState {
    /// Whether a finalizer is due.
    pub fn has_to_be_finalized(&self) -> (r: bool)
        ensures
            r == (self.finalizers.to_be_finalized@.len() > 0),
    {
        self.finalizers.to_be_finalized.len() > 0
    }

    /// Sets the debt, so that with the bytes in use it stays within the largest number.
    pub fn set_debt(&mut self, debt: isize)
        requires
            old(self).bytes_used <= isize::MAX,
        ensures
            *final(self) == (GlobalState {
                gc_debt: bounded_debt(old(self).spec_total_bytes() as int, debt as int) as isize,
                ..*old(self)
            }),
    {
        let tb: isize = self.total_bytes() as isize;
        let low: isize = tb - isize::MAX;
        self.gc_debt = if debt < low {
            low
        } else {
            debt
        };
    }

    /// Sets where the next minor collection starts.
    pub fn set_minor_debt(&mut self)
        requires
            old(self).bytes_used <= isize::MAX,
        ensures
            minor_debt_set(*old(self), *final(self)),
    {
        let total: usize = self.total_bytes();
        let growth: usize = times(total / 100, self.genminormul as usize);
        let least: usize = if growth > 1 {
            growth
        } else {
            1
        };
        self.heap_threshold = plus(total, least);
        self.set_debt(negative_debt(growth));
    }

    /// Sets where the next cycle starts, by the pause.
    pub fn set_pause_debt(&mut self)
        requires
            old(self).bytes_used <= isize::MAX,
        ensures
            pause_debt_set(*old(self), *final(self)),
    {
        let total: usize = self.total_bytes();
        let pause: i32 = self.gc_pause_param();
        let estimate: usize = if self.gc_estimate > 1 {
            self.gc_estimate
        } else {
            1
        };
        let threshold: usize = times(estimate, pause as usize) / 100;
        if threshold > total {
            self.heap_threshold = threshold;
            self.set_debt(negative_debt(threshold - total));
        } else {
            self.heap_threshold = plus(total, 1);
            self.set_debt(0);
        }
    }

    /// Goes to incremental mode.
    pub fn enter_incremental_mode(&mut self)
        ensures
            *final(self) == incremental(*old(self)),
    {
        self.gckind = GcKind::Incremental;
        self.lastatomic = 0;
    }

    /// Is in generational mode from now on, after a full collection: what is in use is
    /// what later growth is measured by.
    pub fn generational_entered(&mut self)
        requires
            old(self).bytes_used <= isize::MAX,
        ensures
            minor_debt_set(
                generational(*old(self)),
                *final(self),
            ),
    {
        let total: usize = self.total_bytes();
        self.gckind = GcKind::Generational;
        self.lastatomic = 0;
        self.gc_estimate = total;
        self.set_minor_debt();
    }
}

/// The number of live, collectable objects.
pub open spec fn object_count(h: Heap) -> int {
    h.strings.spec_count(h.strings.items@.len() as int) + h.tables.spec_count(h.tables.items@.len() as int)
        + h.userdata.spec_count(h.userdata.items@.len() as int) + h.lclosures.spec_count(
        h.lclosures.items@.len() as int,
    ) + h.cclosures.spec_count(h.cclosures.items@.len() as int) + h.protos.spec_count(h.protos.items@.len() as int)
        + h.upvals.spec_count(h.upvals.items@.len() as int) + h.threads.spec_count(h.threads.items@.len() as int)
}

impl Heap {
    /// The number of live, collectable objects, as far as it can be told.
    pub fn allgc_count(&self) -> (n: usize)
        requires
            self.wf(),
        ensures
            n == capped(object_count(*self)),
    {
        let a: usize = plus(self.strings.count(), self.tables.count());
        let b: usize = plus(a, self.userdata.count());
        let c: usize = plus(b, self.lclosures.count());
        let d: usize = plus(c, self.cclosures.count());
        let e: usize = plus(d, self.protos.count());
        let f: usize = plus(e, self.upvals.count());
        plus(f, self.threads.count())
    }
}

/// The shared state in incremental mode.
pub open spec fn incremental(g: GlobalState) -> GlobalState {
    GlobalState { gckind: GcKind::Incremental, lastatomic: 0, ..g }
}

/// The shared state in generational mode, with what is in use as what growth is measured
/// by.
pub open spec fn generational(g: GlobalState) -> GlobalState {
    GlobalState { gckind: GcKind::Generational, lastatomic: 0, gc_estimate: g.spec_total_bytes(), ..g }
}

/// A full collection of `a` leaves `b`.
pub open spec fn fully_collected(a: GlobalState, running: LuaState, b: GlobalState) -> bool {
    exists|k: Course| #[trigger]
        collected(a, running, Set::empty(), Seq::empty(), a.finalizers.pending@, k, b)
}

/// A full collection that leaves less than half as many short strings as a new table has
/// buckets brings the table back to that number.
pub proof fn law_table_back_to_minimum(a: GlobalState, running: LuaState, b: GlobalState)
    requires
        a.wf(),
        fully_collected(a, running, b),
        b.interned_lt.count * 2 < MIN_BUCKETS,
    ensures
        b.interned_lt.buckets@.len() == MIN_BUCKETS,
{
    let k = choose|k: Course| #[trigger]
        collected(a, running, Set::empty(), Seq::empty(), a.finalizers.pending@, k, b);
    law_back_to_minimum(a.heap.strs(), a.interned_lt, k.b.interned_lt);
}

/// What a generational step does.
#[derive(Debug, Clone, Copy, PartialEq, Eq, Structural)]
pub enum GenPlan {
    /// The last major collection was a bad one: a full collection that decides whether to
    /// go back to minor ones.
    AfterBad { lastatomic: usize },
    /// A major collection. The store has grown by more than `inc` over `base`.
    Major { base: usize, inc: usize },
    /// A minor collection.
    Minor { base: usize },
}

/// What growth is measured by.
pub open spec fn major_base(g: GlobalState) -> usize {
    if g.gc_estimate == 0 {
        g.spec_total_bytes()
    } else {
        g.gc_estimate
    }
}

/// The growth that makes a major collection due.
pub open spec fn major_inc(g: GlobalState) -> usize {
    capped((major_base(g) / 100) * (g.genmajormul * 4))
}

/// What a generational step does. A major collection is made only where it is allowed,
/// a collection is due, and the store has grown enough.
pub open spec fn gen_plan(g: GlobalState, allow_major: bool) -> GenPlan {
    if g.lastatomic != 0 {
        GenPlan::AfterBad { lastatomic: g.lastatomic }
    } else if allow_major && (g.gc_debt > 0 || g.collect_due) && g.spec_total_bytes() > capped(
        major_base(g) + major_inc(g),
    ) {
        GenPlan::Major { base: major_base(g), inc: major_inc(g) }
    } else {
        GenPlan::Minor { base: major_base(g) }
    }
}

impl GlobalState {
    /// Decides what a generational step does.
    pub fn plan_generational_step(&self, allow_major: bool) -> (r: GenPlan)
        ensures
            r == gen_plan(*self, allow_major),
    {
        if self.lastatomic != 0 {
            return GenPlan::AfterBad { lastatomic: self.lastatomic };
        }
        let base: usize = if self.gc_estimate == 0 {
            self.total_bytes()
        } else {
            self.gc_estimate
        };
        let mul: i32 = self.gc_genmajormul_param();
        let inc: usize = times(base / 100, mul as usize);
        if allow_major && (self.gc_debt > 0 || self.collect_due) && self.total_bytes() > plus(base, inc) {
            GenPlan::Major { base: base, inc: inc }
        } else {
            GenPlan::Minor { base: base }
        }
    }

    /// Collects in full.
    fn collect_full(&mut self, running: &LuaState)
        requires
            old(self).wf(),
            running.wf(old(self).heap.sizes()),
        ensures
            final(self).wf(),
            final(self).heap.sizes() == old(self).heap.sizes(),
            fully_collected(*old(self), *running, *final(self)),
    {
        let none: Young = Young { old: Marks::none(&self.heap), touched: Vec::new(), fins: Vec::new() };
        let _ = self.collect_via_heap_mode(running, HeapCollectMode::Full, &none);
    }

    /// Collects, in full if that is forced, otherwise if it is due. Returns whether a
    /// collection took place.
    pub fn collect_via_heap(&mut self, running: &LuaState, force: bool) -> (ran: bool)
        requires
            old(self).wf(),
            running.wf(old(self).heap.sizes()),
        ensures
            final(self).wf(),
            final(self).heap.sizes() == old(self).heap.sizes(),
            ran == (force || old(self).collect_due),
            if ran {
                fully_collected(*old(self), *running, *final(self))
            } else {
                *final(self) == *old(self)
            },
    {
        if !force && !self.collect_due {
            return false;
        }
        self.collect_full(running);
        true
    }

    /// The first half of a change to generational mode: a full collection. Returns how
    /// many objects are left. Once the bytes in use are known, [`Self::generational_entered`]
    /// is the second half.
    pub fn enter_generational_mode(&mut self, running: &LuaState) -> (numobjs: usize)
        requires
            old(self).wf(),
            running.wf(old(self).heap.sizes()),
        ensures
            final(self).wf(),
            final(self).heap.sizes() == old(self).heap.sizes(),
            numobjs == capped(object_count(final(self).heap)),
            fully_collected(*old(self), *running, *final(self)),
    {
        self.collect_full(running);
        self.heap.allgc_count()
    }

    /// The first half of a full collection in generational mode, which goes through
    /// incremental mode. [`Self::generational_entered`] is the second half.
    pub fn fullgen(&mut self, running: &LuaState) -> (numobjs: usize)
        requires
            old(self).wf(),
            running.wf(old(self).heap.sizes()),
        ensures
            final(self).wf(),
            final(self).heap.sizes() == old(self).heap.sizes(),
            numobjs == capped(object_count(final(self).heap)),
            fully_collected(incremental(*old(self)), *running, *final(self)),
    {
        self.enter_incremental_mode();
        self.enter_generational_mode(running)
    }

    /// The first half of a full collection after a bad major one.
    pub fn stepgenfull(&mut self, running: &LuaState) -> (numobjs: usize)
        requires
            old(self).wf(),
            running.wf(old(self).heap.sizes()),
        ensures
            final(self).wf(),
            final(self).heap.sizes() == old(self).heap.sizes(),
            numobjs == capped(object_count(final(self).heap)),
            fully_collected(
                if old(self).gckind == GcKind::Generational {
                    incremental(*old(self))
                } else {
                    *old(self)
                },
                *running,
                *final(self),
            ),
    {
        if self.gckind == GcKind::Generational {
            self.enter_incremental_mode();
        }
        self.enter_generational_mode(running)
    }

    /// Collects in full in whichever mode. Returns how many objects are left where the
    /// mode is generational, which is then to be entered again.
    pub fn full_collect(&mut self, running: &LuaState) -> (numobjs: Option<usize>)
        requires
            old(self).wf(),
            running.wf(old(self).heap.sizes()),
        ensures
            final(self).wf(),
            final(self).heap.sizes() == old(self).heap.sizes(),
            numobjs == (if old(self).spec_is_gen_mode() {
                Some(capped(object_count(final(self).heap)))
            } else {
                None
            }),
            fully_collected(
                if old(self).spec_is_gen_mode() {
                    incremental(*old(self))
                } else {
                    *old(self)
                },
                *running,
                *final(self),
            ),
    {
        if self.is_gen_mode() {
            Some(self.fullgen(running))
        } else {
            self.collect_full(running);
            None
        }
    }

    /// The first half of a generational step: decides what to do and collects. Returns
    /// that decision and how many objects are left. Once the bytes in use are known,
    /// [`Self::generational_step_done`] is the second half.
    pub fn generational_step_with_major(&mut self, running: &LuaState, young: &Young, allow_major: bool) -> (r: (
        GenPlan,
        usize,
    ))
        requires
            old(self).wf(),
            running.wf(old(self).heap.sizes()),
            young.wf(old(self).heap.sizes()),
        ensures
            final(self).wf(),
            final(self).heap.sizes() == old(self).heap.sizes(),
            r.0 == gen_plan(*old(self), allow_major),
            r.1 == capped(object_count(final(self).heap)),
            match r.0 {
                GenPlan::AfterBad { .. } => fully_collected(
                    if old(self).gckind == GcKind::Generational {
                        incremental(*old(self))
                    } else {
                        *old(self)
                    },
                    *running,
                    *final(self),
                ),
                GenPlan::Major { .. } => fully_collected(incremental(*old(self)), *running, *final(self)),
                GenPlan::Minor { .. } => exists|k: Course| #[trigger]
                    collected(*old(self), *running, young.old@, young.touched@, young.fins@, k, *final(self)),
            },
    {
        let plan: GenPlan = self.plan_generational_step(allow_major);
        match plan {
            GenPlan::AfterBad { .. } => (plan, self.stepgenfull(running)),
            GenPlan::Major { .. } => (plan, self.fullgen(running)),
            GenPlan::Minor { .. } => {
                let _ = self.collect_via_heap_mode(running, HeapCollectMode::Minor, young);
                (plan, self.heap.allgc_count())
            },
        }
    }

    /// Ends a major collection, given how many objects were left: the next one is minor
    /// where it freed at least half of the growth, otherwise it counts as a bad one.
    fn major_done(&mut self, base: usize, inc: usize, numobjs: usize)
        requires
            old(self).bytes_used <= isize::MAX,
        ensures
            if old(self).spec_total_bytes() < capped(base + inc / 2) {
                minor_debt_set(*old(self), *final(self))
            } else {
                pause_debt_set(
                    (GlobalState {
                        lastatomic: if numobjs > 1 {
                            numobjs
                        } else {
                            1
                        },
                        ..*old(self)
                    }),
                    *final(self),
                )
            },
    {
        if self.total_bytes() < plus(base, inc / 2) {
            self.set_minor_debt();
        } else {
            self.lastatomic = if numobjs > 1 {
                numobjs
            } else {
                1
            };
            self.set_pause_debt();
        }
    }

    /// Ends a minor collection.
    fn minor_done(&mut self, base: usize)
        requires
            old(self).bytes_used <= isize::MAX,
        ensures
            ({
                let m = GlobalState { gc_estimate: old(self).gc_estimate, ..*final(self) };
                minor_debt_set(*old(self), m) && final(self).gc_estimate == base
            }),
    {
        self.set_minor_debt();
        self.gc_estimate = base;
    }

    /// Ends a full collection after a bad major one. Where it left few enough objects,
    /// less than an eighth more than before, the mode is generational again; otherwise
    /// the collection was bad too. Returns whether the mode is generational.
    pub fn stepgenfull_done(&mut self, lastatomic: usize, numobjs: usize) -> (good: bool)
        requires
            old(self).bytes_used <= isize::MAX,
        ensures
            ({
                let newatomic: usize = if numobjs > 1 {
                    numobjs
                } else {
                    1
                };
                &&& good == (newatomic < capped(lastatomic + lastatomic / 8))
                &&& if good {
                    minor_debt_set(
                        generational(*old(self)),
                        *final(self),
                    )
                } else {
                    pause_debt_set(
                        (GlobalState {
                            gckind: GcKind::Incremental,
                            lastatomic: newatomic,
                            gc_estimate: old(self).spec_total_bytes(),
                            ..*old(self)
                        }),
                        *final(self),
                    )
                }
            }),
            final(self).spec_is_gen_mode(),
    {
        let newatomic: usize = if numobjs > 1 {
            numobjs
        } else {
            1
        };
        if newatomic < plus(lastatomic, lastatomic / 8) {
            self.generational_entered();
            true
        } else {
            let total: usize = self.total_bytes();
            self.gckind = GcKind::Incremental;
            self.lastatomic = newatomic;
            self.gc_estimate = total;
            self.set_pause_debt();
            false
        }
    }

    /// The second half of a generational step, once the bytes in use are known. After a
    /// major collection that freed less than half of the growth, the collector waits for
    /// the pause and remembers a bad collection.
    pub fn generational_step_done(&mut self, plan: GenPlan, numobjs: usize)
        requires
            old(self).bytes_used <= isize::MAX,
        ensures
            old(self).spec_is_gen_mode() || !(plan is Minor) ==> final(self).spec_is_gen_mode(),
            ({
                let g = *old(self);
                let left: usize = if numobjs > 1 {
                    numobjs
                } else {
                    1
                };
                match plan {
                    GenPlan::AfterBad { lastatomic } => if left < capped(lastatomic + lastatomic / 8) {
                        minor_debt_set(generational(g), *final(self))
                    } else {
                        pause_debt_set(
                            (GlobalState {
                                gckind: GcKind::Incremental,
                                lastatomic: left,
                                gc_estimate: g.spec_total_bytes(),
                                ..g
                            }),
                            *final(self),
                        )
                    },
                    GenPlan::Major { base, inc } => if g.spec_total_bytes() < capped(base + inc / 2) {
                        minor_debt_set(generational(g), *final(self))
                    } else {
                        pause_debt_set(
                            (GlobalState { lastatomic: left, ..generational(g) }),
                            *final(self),
                        )
                    },
                    GenPlan::Minor { base } => minor_debt_set(
                        g,
                        (GlobalState { gc_estimate: g.gc_estimate, ..*final(self) }),
                    ) && final(self).gc_estimate == base,
                }
            }),
    {
        match plan {
            GenPlan::AfterBad { lastatomic } => {
                let _ = self.stepgenfull_done(lastatomic, numobjs);
            },
            GenPlan::Major { base, inc } => {
                self.generational_entered();
                self.major_done(base, inc, numobjs);
            },
            GenPlan::Minor { base } => {
                self.minor_done(base);
            },
        }
    }
}

/// What a change of mode takes.
#[derive(Debug, Clone, Copy, PartialEq, Eq, Structural)]
pub enum ModeChange {
    /// Nothing is left to do.
    Done,
    /// A full collection, and then generational mode is entered.
    ToGenerational,
}

/// What a request for a step comes to.
#[derive(Debug, Clone, Copy, PartialEq, Eq, Structural)]
pub enum CheckStep {
    Nothing,
    /// A generational step.
    Generational,
    /// A collection, if it is due.
    Collect,
}

impl GlobalState {
    /// Changes the mode of the collector. Asking for the mode that it is in makes it
    /// forget a bad collection.
    pub fn change_mode(&mut self, mode: GcKind) -> (r: ModeChange)
        ensures
            if old(self).gckind == mode {
                r == ModeChange::Done && *final(self) == (GlobalState { lastatomic: 0, ..*old(self) })
            } else if mode == GcKind::Generational {
                r == ModeChange::ToGenerational && *final(self) == *old(self)
            } else {
                r == ModeChange::Done && *final(self) == (GlobalState {
                    gckind: GcKind::Incremental,
                    lastatomic: 0,
                    ..*old(self)
                })
            },
    {
        if self.gckind == mode {
            self.lastatomic = 0;
            return ModeChange::Done;
        }
        match mode {
            GcKind::Generational => ModeChange::ToGenerational,
            GcKind::Incremental => {
                self.enter_incremental_mode();
                ModeChange::Done
            },
        }
    }

    /// Decides what a request for a step comes to.
    pub fn check_step(&self) -> (r: CheckStep)
        ensures
            r == (if self.gcstp != 0 {
                CheckStep::Nothing
            } else if self.spec_is_gen_mode() {
                if self.collect_due || self.gc_debt > 0 {
                    CheckStep::Generational
                } else {
                    CheckStep::Nothing
                }
            } else {
                CheckStep::Collect
            }),
    {
        if !self.is_gc_running() {
            CheckStep::Nothing
        } else if self.is_gen_mode() {
            if self.collect_due || self.gc_debt > 0 {
                CheckStep::Generational
            } else {
                CheckStep::Nothing
            }
        } else {
            CheckStep::Collect
        }
    }

    /// The phase in which an incremental step stops at the latest: a given one, or before
    /// finalizers are called.
    pub fn stop_target(&self, target: Option<GcPhase>) -> (r: Option<GcPhase>)
        ensures
            r == (match target {
                Some(p) => Some(p),
                None => if self.gc_phase == GcPhase::CallFin {
                    None
                } else {
                    Some(GcPhase::CallFin)
                },
            }),
    {
        match target {
            Some(p) => Some(p),
            None => {
                if self.gc_phase == GcPhase::CallFin {
                    None
                } else {
                    Some(GcPhase::CallFin)
                }
            },
        }
    }

    /// Whether an incremental step ends the cycle: no finalizer is due when they would be
    /// called.
    pub fn ends_cycle(&self, target: Option<GcPhase>) -> (r: bool)
        ensures
            r == (target is None && self.gc_phase == GcPhase::CallFin && self.finalizers.to_be_finalized@.len() == 0),
    {
        target.is_none() && self.gc_phase == GcPhase::CallFin && !self.has_to_be_finalized()
    }
}

/// The thread without what its stack holds above `top`.
pub open spec fn tail_cleared(s: LuaState, t: LuaState) -> bool {
    &&& t == (LuaState { stack: t.stack, ..s })
    &&& t.stack@.len() == s.stack@.len()
    &&& forall|i: int|
        0 <= i < s.stack@.len() ==> #[trigger] t.stack@[i] == (if i < s.top.0 {
            s.stack@[i]
        } else {
            LuaValue::Nil
        })
}

/// A coroutine without what its stack holds above `top`, where its state is at hand.
pub open spec fn entry_cleared(a: ThreadRegistryEntry, b: ThreadRegistryEntry) -> bool {
    &&& b.id == a.id && b.value == a.value
    &&& match a.state {
        Some(s) => b.state matches Some(t) && tail_cleared(s, t),
        None => b.state is None,
    }
}

impl GlobalState {
    /// Clears the unused part of the stacks of the coroutines whose state is at hand.
    pub fn clear_dead_stack_tails(&mut self)
        requires
            old(self).wf(),
        ensures
            final(self).wf(),
            *final(self) == (GlobalState { threads: final(self).threads, ..*old(self) }),
            final(self).threads@.len() == old(self).threads@.len(),
            forall|i: int|
                0 <= i < old(self).threads@.len() ==> entry_cleared(
                    #[trigger] old(self).threads@[i],
                    final(self).threads@[i],
                ),
    {
        let ghost ts = self.threads@;
        let ghost z = self.heap.sizes();
        let mut i: usize = 0;
        while i < self.threads.len()
            invariant
                i <= self.threads@.len(),
                ts == old(self).threads@,
                z == old(self).heap.sizes(),
                old(self).wf(),
                self.threads@.len() == ts.len(),
                *self == (GlobalState { threads: self.threads, ..*old(self) }),
                forall|k: int| 0 <= k < i ==> entry_cleared(#[trigger] ts[k], self.threads@[k]),
                forall|k: int|
                    0 <= k < i ==> ((#[trigger] self.threads@[k]).state matches Some(s) ==> s.wf(z)),
                forall|k: int| i <= k < ts.len() ==> #[trigger] self.threads@[k] == ts[k],
            decreases self.threads@.len() - i,
        {
            assert(threads_ok(z, ts));
            let mut st: Option<LuaState> = None;
            std::mem::swap(&mut st, &mut self.threads[i].state);
            if let Some(mut s) = st {
                assert(ts[i as int].state->0.wf(z));
                s.clear_dead_stack_tail();
                self.threads[i].state = Some(s);
            }
            i = i + 1;
        }
        proof {
            let us = self.threads@;
            assert(threads_ok(z, us)) by {
                assert forall|j: int| 0 <= j < us.len() implies (#[trigger] us[j]).value.0 < z.threads && (
                us[j].state matches Some(x) ==> x.wf(z)) by {
                    assert(ts[j].value.0 < z.threads);
                    assert(entry_cleared(ts[j], us[j]));
                }
                assert forall|a: int, b: int| 0 <= a < b < us.len() implies (#[trigger] us[a]).id != (#[trigger] us[b]).id by {
                    assert(ts[a].id != ts[b].id);
                    assert(entry_cleared(ts[a], us[a]) && entry_cleared(ts[b], us[b]));
                }
            }
            assert forall|j: int| 0 <= j < us.len() implies (#[trigger] us[j]).id < self.next_thread_id by {
                assert(ts[j].id < old(self).next_thread_id);
                assert(entry_cleared(ts[j], us[j]));
            }
        }
    }
}

/// What a check for collection comes to.
#[derive(Debug, Clone, Copy, PartialEq, Eq, Structural)]
pub enum GcStep {
    Nothing,
    /// Finalizers that are due are run, after a step of the collector where `collect`
    /// says so.
    Run { collect: bool },
}

/// The unused parts of stacks are cleared.
pub open spec fn tails_cleared(s: LuaState, g: GlobalState, s2: LuaState, g2: GlobalState) -> bool {
    &&& tail_cleared(s, s2)
    &&& g2 == (GlobalState { threads: g2.threads, ..g })
    &&& g2.threads@.len() == g.threads@.len()
    &&& forall|i: int| 0 <= i < g.threads@.len() ==> entry_cleared(#[trigger] g.threads@[i], g2.threads@[i])
}

/// How a check for collection starts. Nothing happens while hooks are off, and nothing
/// while neither a check is wanted nor a finalizer due.
pub open spec fn step_begun(s: LuaState, g: GlobalState, r: GcStep, s2: LuaState, g2: GlobalState) -> bool {
    let fins = g.finalizers.to_be_finalized@.len() > 0;
    if !s.allowhook || !(s.gc_check_needed || fins) {
        r == GcStep::Nothing && s2 == s && g2 == g
    } else if g.gcstp != 0 || !(g.collect_due || fins) {
        r == GcStep::Nothing && s2 == (LuaState { gc_check_needed: false, ..s }) && g2 == g
    } else if g.collect_due {
        &&& r == (GcStep::Run { collect: true })
        &&& tails_cleared((LuaState { gc_check_needed: true, ..s }), g, s2, g2)
    } else {
        &&& r == (GcStep::Run { collect: false })
        &&& s2 == (LuaState { gc_check_needed: true, ..s }) && g2 == g
    }
}

impl LuaState {
    /// Decides whether to collect and to run finalizers at this point. Before a collection
    /// the unused parts of stacks are cleared.
    pub fn gc_check_step(&mut self, g: &mut GlobalState) -> (r: GcStep)
        requires
            old(g).wf(),
            old(self).wf(old(g).heap.sizes()),
        ensures
            final(g).wf(),
            final(self).wf(final(g).heap.sizes()),
            step_begun(*old(self), *old(g), r, *final(self), *final(g)),
    {
        if !self.allowhook {
            return GcStep::Nothing;
        }
        let fins: bool = g.has_to_be_finalized();
        if !self.gc_check_needed && !fins {
            return GcStep::Nothing;
        }
        if !g.is_gc_running() || !(g.collect_due || fins) {
            self.gc_check_needed = false;
            return GcStep::Nothing;
        }
        self.gc_check_needed = true;
        if g.collect_due {
            self.clear_dead_stack_tail();
            g.clear_dead_stack_tails();
        }
        GcStep::Run { collect: g.collect_due }
    }

    /// Ends such a step: it is worth another look while a collection is due or finalizers
    /// are left.
    pub fn gc_check_step_done(&mut self, g: &GlobalState)
        ensures
            *final(self) == (LuaState {
                gc_check_needed: g.collect_due || g.finalizers.to_be_finalized@.len() > 0,
                ..*old(self)
            }),
    {
        self.gc_check_needed = g.collect_due || g.has_to_be_finalized();
    }
}

impl LuaState {
    /// Clears the unused part of this thread's stack and of those of the coroutines whose
    /// state is at hand.
    pub fn gc_clear_dead_stack_tails(&mut self, g: &mut GlobalState)
        requires
            old(g).wf(),
            old(self).wf(old(g).heap.sizes()),
        ensures
            final(g).wf(),
            final(self).wf(final(g).heap.sizes()),
            tails_cleared(*old(self), *old(g), *final(self), *final(g)),
    {
        self.clear_dead_stack_tail();
        g.clear_dead_stack_tails();
    }

    /// The same, where a collection is due.
    pub fn gc_pre_collect_clear(&mut self, g: &mut GlobalState)
        requires
            old(g).wf(),
            old(self).wf(old(g).heap.sizes()),
        ensures
            final(g).wf(),
            final(self).wf(final(g).heap.sizes()),
            if old(g).collect_due {
                tails_cleared(*old(self), *old(g), *final(self), *final(g))
            } else {
                *final(self) == *old(self) && *final(g) == *old(g)
            },
    {
        if g.collect_due {
            self.gc_clear_dead_stack_tails(g);
        }
    }

    /// Decides on a step of the collector away from its checks, as comes before a coroutine
    /// is made or all extra arguments are copied: where a collection is due the unused parts
    /// of stacks are cleared, and the answer says what step is to be made.
    pub fn direct_check_step(&mut self, g: &mut GlobalState) -> (r: CheckStep)
        requires
            old(g).wf(),
            old(self).wf(old(g).heap.sizes()),
        ensures
            final(g).wf(),
            final(self).wf(final(g).heap.sizes()),
            if old(g).collect_due {
                tails_cleared(*old(self), *old(g), *final(self), *final(g))
            } else {
                *final(self) == *old(self) && *final(g) == *old(g)
            },
            r == (if old(g).gcstp != 0 {
                CheckStep::Nothing
            } else if old(g).spec_is_gen_mode() {
                if old(g).collect_due || old(g).gc_debt > 0 {
                    CheckStep::Generational
                } else {
                    CheckStep::Nothing
                }
            } else {
                CheckStep::Collect
            }),
    {
        self.gc_pre_collect_clear(g);
        g.check_step()
    }

    /// Decides whether to collect and to run finalizers here, as [`Self::gc_check_step`]
    /// does.
    pub fn gc_cond_step(&mut self, g: &mut GlobalState) -> (r: GcStep)
        requires
            old(g).wf(),
            old(self).wf(old(g).heap.sizes()),
        ensures
            final(g).wf(),
            final(self).wf(final(g).heap.sizes()),
            step_begun(*old(self), *old(g), r, *final(self), *final(g)),
    {
        self.gc_check_step(g)
    }
}

/// The pause of the collector is a percentage: the next cycle starts when as many bytes are in
/// use as that part of the estimate says, where that is more than are in use now.
pub proof fn law_pause(a: GlobalState, b: GlobalState)
    requires
        pause_debt_set(a, b),
        a.bytes_used > 0,
        a.gc_estimate > 0,
        a.gc_estimate * (a.gcpause * 4) <= isize::MAX,
        a.bytes_used <= isize::MAX,
    ensures
        ({
            let goal = a.gc_estimate * (a.gcpause * 4) / 100;
            &&& goal > a.bytes_used ==> b.heap_threshold == goal && b.gc_debt == a.bytes_used - goal
            &&& goal <= a.bytes_used ==> b.heap_threshold == a.bytes_used + 1 && b.gc_debt == 0
        }),
        b == (GlobalState { heap_threshold: b.heap_threshold, gc_debt: b.gc_debt, ..a }),
{
}

/// A minor collection lets the store grow by a percentage of what is in use, and by something.
pub proof fn law_minor_growth(a: GlobalState, b: GlobalState)
    requires
        minor_debt_set(a, b),
        a.bytes_used > 0,
        a.bytes_used / 100 * a.genminormul <= isize::MAX - a.bytes_used,
        a.bytes_used < isize::MAX,
    ensures
        ({
            let growth = a.bytes_used / 100 * a.genminormul;
            &&& growth >= 1 ==> b.heap_threshold == a.bytes_used + growth
            &&& growth == 0 ==> b.heap_threshold == a.bytes_used + 1
            &&& b.gc_debt == -growth
        }),
{
    assert(a.bytes_used / 100 * a.genminormul >= 0) by (nonlinear_arith)
        requires
            a.bytes_used >= 0,
            a.genminormul >= 0,
    ;
}

/// In generational mode a major collection is made where it is allowed, one is due and the
/// store has grown by more than its percentage over what it was after the last one; a bad one
/// is followed up first, and otherwise a minor collection is made.
pub proof fn law_gen_plan(g: GlobalState, allow_major: bool)
    requires
        g.gc_estimate > 0,
        g.gc_estimate / 100 * (g.genmajormul * 4) + g.gc_estimate <= usize::MAX,
        g.bytes_used > 0,
    ensures
        ({
            let limit = g.gc_estimate + g.gc_estimate / 100 * (g.genmajormul * 4);
            &&& g.lastatomic != 0 ==> gen_plan(g, allow_major) is AfterBad
            &&& g.lastatomic == 0 && (!allow_major || g.bytes_used <= limit || g.gc_debt <= 0 && !g.collect_due)
                ==> gen_plan(g, allow_major) is Minor
            &&& g.lastatomic == 0 && allow_major && g.bytes_used > limit && (g.gc_debt > 0 || g.collect_due) ==> gen_plan(
                g,
                allow_major,
            ) is Major
        }),
{
}

/// A check for collection runs the collector where one is due and it is not stopped, and never
/// while hooks are off. What stacks hold above `top` is cleared before, and nothing below.
pub proof fn law_step_begun(s: LuaState, g: GlobalState, r: GcStep, s2: LuaState, g2: GlobalState, i: int)
    requires
        step_begun(s, g, r, s2, g2),
        s.gc_check_needed,
    ensures
        s.allowhook && g.gcstp == 0 && g.collect_due ==> r == (GcStep::Run { collect: true }),
        !s.allowhook || g.gcstp != 0 ==> r == GcStep::Nothing && g2 == g && s2.stack == s.stack,
        0 <= i < s.top.0 && s.top.0 <= s.stack@.len() ==> s2.stack@[i] == s.stack@[i],
        r == (GcStep::Run { collect: true }) && s.top.0 <= i < s.stack@.len() ==> s2.stack@[i] == LuaValue::Nil,
{
}

} // verus!
