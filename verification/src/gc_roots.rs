//! Where the collector starts: what threads and the shared state hold.

use vstd::prelude::*;
use crate::callinfo::CallInfo;
use crate::gc_marks::in_values;
use crate::gc_marks::list_ref;
use crate::gc_marks::list_upvals;
use crate::gc_marks::list_value;
use crate::gc_marks::list_values;
use crate::gc_marks::listed;
use crate::global::FinalizerObject;
use crate::global::GlobalState;
use crate::heap::GcRef;
use crate::heap::Heap;
use crate::heap::LocalVar;
use crate::heap::LuaProto;
use crate::heap::value_ref;
use crate::roots::ExternalRootSlot;
use crate::state::LuaState;
use crate::value::LuaClosure;
use crate::value::LuaValue;
use crate::value::ProtoId;
use crate::value::StrId;
use crate::value::TableId;
use crate::value::UpValId;

verus! {

/// How many of the variables from the `i`-th on are active at an instruction.
/// Variables are listed in the order in which they start.
pub open spec fn active_locals(vars: Seq<LocalVar>, i: int, pc: int) -> nat
    decreases vars.len() - i,
{
    if i < 0 || i >= vars.len() || vars[i].startpc > pc {
        0
    } else {
        active_locals(vars, i + 1, pc) + (if pc < vars[i].endpc {
            1nat
        } else {
            0nat
        })
    }
}

/// How many local variables of a function are active at an instruction.
pub fn count_locals(p: &LuaProto, pc: i32) -> (n: usize)
    ensures
        n == active_locals(p.locvars@, 0, pc as int),
        n <= p.locvars@.len(),
{
    let mut i: usize = 0;
    let mut n: usize = 0;
    while i < p.locvars.len() && p.locvars[i].startpc <= pc
        invariant
            i <= p.locvars@.len(),
            n <= i,
            n + active_locals(p.locvars@, i as int, pc as int) == active_locals(p.locvars@, 0, pc as int),
        decreases p.locvars@.len() - i,
    {
        if pc < p.locvars[i].endpc {
            n = n + 1;
        }
        i = i + 1;
    }
    n
}

/// Where the slots of a frame that are in use end: at `top` for the current frame, at
/// the next frame's function for the others.
pub open spec fn frame_end(s: LuaState, k: int) -> int {
    if k == s.ci.0 {
        s.top.0 as int
    } else {
        match s.call_info@[k].next {
            Some(n) => s.call_info@[n.0 as int].func.0 as int,
            None => s.top.0 as int,
        }
    }
}

/// The instruction that a frame is in, for its local variables.
pub open spec fn frame_pc(c: CallInfo) -> int {
    if c.u.savedpc == 0 {
        0
    } else {
        c.u.savedpc - 1
    }
}

/// How many registers of a frame hold local variables that are active.
pub open spec fn frame_locals(s: LuaState, h: Heap, k: int) -> nat {
    let c = s.call_info@[k];
    match s.at(c.func.0 as int) {
        LuaValue::Function(LuaClosure::Lua(cl)) => if c.spec_is_lua() {
            active_locals(
                h.protos.items@[h.lclosures.items@[cl.0 as int].proto.0 as int].locvars@,
                0,
                frame_pc(c),
            )
        } else {
            0
        },
        _ => 0,
    }
}

/// Whether a slot belongs to a frame and is in use. Active local variables count even
/// above `top` in the thread that runs.
pub open spec fn slot_in_frame(s: LuaState, h: Heap, cur: u64, k: int, j: int) -> bool {
    let f = s.call_info@[k].func.0 as int;
    ||| f <= j < frame_end(s, k)
    ||| s.cached_thread_id == cur && f + 1 <= j < f + 1 + frame_locals(s, h, k)
}

/// Whether a thread holds an object: in a slot of one of its frames that is in use, or
/// as an open variable.
pub open spec fn thread_holds(s: LuaState, h: Heap, cur: u64, c: GcRef) -> bool {
    ||| exists|k: int, j: int|
        #![trigger slot_in_frame(s, h, cur, k, j)]
        0 <= k <= s.ci.0 && 0 <= j < s.stack@.len() && slot_in_frame(s, h, cur, k, j) && value_ref(s.stack@[j])
            == Some(c)
    ||| exists|i: int| 0 <= i < s.openupval@.len() && c == GcRef::UpVal(#[trigger] s.openupval@[i])
}

/// What a thread holds exists.
pub proof fn lemma_thread_holds_ok(s: LuaState, h: Heap, cur: u64, c: GcRef)
    requires
        s.wf(h.sizes()),
        thread_holds(s, h, cur, c),
    ensures
        h.sizes().has(c),
{
    if exists|k: int, j: int|
        #![trigger slot_in_frame(s, h, cur, k, j)]
        0 <= k <= s.ci.0 && 0 <= j < s.stack@.len() && slot_in_frame(s, h, cur, k, j) && value_ref(s.stack@[j])
            == Some(c) {
        let (k, j) = choose|k: int, j: int|
            #![trigger slot_in_frame(s, h, cur, k, j)]
            0 <= k <= s.ci.0 && 0 <= j < s.stack@.len() && slot_in_frame(s, h, cur, k, j) && value_ref(
                s.stack@[j],
            ) == Some(c);
        assert(h.sizes().ok(s.stack@[j]));
    }
}

/// Lists the objects in some slots of a stack.
fn list_slots(out: &mut Vec<GcRef>, stack: &Vec<LuaValue>, lo: usize, hi: usize)
    ensures
        listed(
            old(out)@,
            final(out)@,
            |c: GcRef| exists|j: int| lo <= j < hi && j < stack@.len() && value_ref(#[trigger] stack@[j]) == Some(c),
        ),
{
    let mut i: usize = lo;
    while i < hi && i < stack.len()
        invariant
            lo <= i,
            i == lo || i <= hi && i <= stack@.len(),
            listed(
                old(out)@,
                out@,
                |c: GcRef|
                    exists|j: int| lo <= j < i && j < stack@.len() && value_ref(#[trigger] stack@[j]) == Some(c),
            ),
        decreases stack@.len() - i,
    {
        let ghost before = out@;
        list_value(out, &stack[i]);
        proof {
            assert forall|c: GcRef| #[trigger] out@.contains(c) <==> old(out)@.contains(c) || exists|j: int|
                lo <= j < i + 1 && j < stack@.len() && value_ref(#[trigger] stack@[j]) == Some(c) by {
                assert(out@.contains(c) <==> before.contains(c) || value_ref(stack@[i as int]) == Some(c));
            }
        }
        i = i + 1;
    }
}

/// The number of slots below a frame's first register that hold active local
/// variables.
fn locals_of_frame(s: &LuaState, h: &Heap, k: usize) -> (n: usize)
    requires
        h.wf(),
        s.wf(h.sizes()),
        k < s.call_info@.len(),
    ensures
        n == frame_locals(*s, *h, k as int),
{
    let func: usize = s.call_info[k].func.0 as usize;
    if !s.call_info[k].is_lua() || func >= s.stack.len() {
        return 0;
    }
    assert(h.sizes().ok(s.stack@[func as int]));
    match s.stack[func] {
        LuaValue::Function(LuaClosure::Lua(cl)) => {
            assert(h.sizes().ok_lclosure(h.lclosures.items@[cl.0 as int]));
            let p: ProtoId = h.lclosures.items[cl.0].proto;
            let saved: u32 = s.call_info[k].u.savedpc;
            let pc: u32 = if saved == 0 {
                0
            } else {
                saved - 1
            };
            count_active(&h.protos.items[p.0], pc)
        },
        _ => 0,
    }
}

fn count_active(p: &LuaProto, pc: u32) -> (n: usize)
    ensures
        n == active_locals(p.locvars@, 0, pc as int),
{
    if pc > i32::MAX as u32 {
        proof {
            lemma_late(p.locvars@, 0, pc as int);
        }
        return 0;
    }
    count_locals(p, pc as i32)
}

/// No variable is active past every variable.
proof fn lemma_late(vars: Seq<LocalVar>, i: int, pc: int)
    requires
        pc > i32::MAX,
    ensures
        active_locals(vars, i, pc) == 0,
    decreases vars.len() - i,
{
    if 0 <= i < vars.len() {
        lemma_late(vars, i + 1, pc);
    }
}

/// Lists what one frame of a thread holds.
fn list_frame(out: &mut Vec<GcRef>, s: &LuaState, h: &Heap, cur: u64, k: usize)
    requires
        h.wf(),
        s.wf(h.sizes()),
        k <= s.ci.0,
    ensures
        listed(
            old(out)@,
            final(out)@,
            |c: GcRef|
                exists|j: int|
                    #![trigger slot_in_frame(*s, *h, cur, k as int, j)]
                    0 <= j < s.stack@.len() && slot_in_frame(*s, *h, cur, k as int, j) && value_ref(s.stack@[j])
                        == Some(c),
        ),
{
    let func: usize = s.call_info[k].func.0 as usize;
    let end: usize = if k == s.ci.0 as usize {
        s.top.0 as usize
    } else {
        match s.call_info[k].next {
            Some(n) => s.call_info[n.0 as usize].func.0 as usize,
            None => s.top.0 as usize,
        }
    };
    list_slots(out, &s.stack, func, end);
    let ghost mid = out@;
    let mut n: usize = 0;
    if s.cached_thread_id == cur {
        n = locals_of_frame(s, h, k);
        let room: usize = s.stack.len();
        let hi: usize = if func >= room || n > room - func - 1 {
            room
        } else {
            func + 1 + n
        };
        list_slots(out, &s.stack, if func < room {
            func + 1
        } else {
            room
        }, hi);
    }
    proof {
        let kk = k as int;
        assert forall|c: GcRef| #[trigger] out@.contains(c) <==> old(out)@.contains(c) || exists|j: int|
            #![trigger slot_in_frame(*s, *h, cur, kk, j)]
            0 <= j < s.stack@.len() && slot_in_frame(*s, *h, cur, kk, j) && value_ref(s.stack@[j]) == Some(c) by {
            if out@.contains(c) && !old(out)@.contains(c) {
                if mid.contains(c) {
                    let j = choose|j: int|
                        func <= j < end && j < s.stack@.len() && value_ref(#[trigger] s.stack@[j]) == Some(c);
                    assert(slot_in_frame(*s, *h, cur, kk, j));
                } else {
                    let j = choose|j: int|
                        func + 1 <= j < func + 1 + n && j < s.stack@.len() && value_ref(#[trigger] s.stack@[j])
                            == Some(c);
                    assert(slot_in_frame(*s, *h, cur, kk, j));
                }
            }
            if exists|j: int|
                #![trigger slot_in_frame(*s, *h, cur, kk, j)]
                0 <= j < s.stack@.len() && slot_in_frame(*s, *h, cur, kk, j) && value_ref(s.stack@[j]) == Some(c) {
                let j = choose|j: int|
                    #![trigger slot_in_frame(*s, *h, cur, kk, j)]
                    0 <= j < s.stack@.len() && slot_in_frame(*s, *h, cur, kk, j) && value_ref(s.stack@[j]) == Some(
                        c,
                    );
                assert(value_ref(s.stack@[j]) == Some(c));
                if func <= j < end {
                    assert(mid.contains(c));
                } else {
                    assert(func + 1 <= j < func + 1 + n);
                }
            }
        }
    }
}

/// Lists what a thread holds.
pub fn list_thread(out: &mut Vec<GcRef>, s: &LuaState, h: &Heap, cur: u64)
    requires
        h.wf(),
        s.wf(h.sizes()),
    ensures
        listed(old(out)@, final(out)@, |c: GcRef| thread_holds(*s, *h, cur, c)),
{
    let last: usize = s.ci.0 as usize;
    let mut k: usize = 0;
    while k <= last
        invariant
            last == s.ci.0,
            k <= last + 1,
            last < s.call_info@.len(),
            h.wf(),
            s.wf(h.sizes()),
            listed(
                old(out)@,
                out@,
                |c: GcRef|
                    exists|i: int, j: int|
                        #![trigger slot_in_frame(*s, *h, cur, i, j)]
                        0 <= i < k && 0 <= j < s.stack@.len() && slot_in_frame(*s, *h, cur, i, j) && value_ref(
                            s.stack@[j],
                        ) == Some(c),
            ),
        decreases last + 1 - k,
    {
        let ghost before = out@;
        list_frame(out, s, h, cur, k);
        proof {
            let kk = k as int;
            assert forall|c: GcRef| #[trigger] out@.contains(c) <==> old(out)@.contains(c) || exists|i: int, j: int|
                #![trigger slot_in_frame(*s, *h, cur, i, j)]
                0 <= i < kk + 1 && 0 <= j < s.stack@.len() && slot_in_frame(*s, *h, cur, i, j) && value_ref(
                    s.stack@[j],
                ) == Some(c) by {
                assert(out@.contains(c) <==> before.contains(c) || exists|j: int|
                    #![trigger slot_in_frame(*s, *h, cur, kk, j)]
                    0 <= j < s.stack@.len() && slot_in_frame(*s, *h, cur, kk, j) && value_ref(s.stack@[j]) == Some(
                        c,
                    ));
            }
        }
        k = k + 1;
    }
    let ghost mid = out@;
    list_upvals(out, &s.openupval);
    proof {
        assert forall|c: GcRef| #[trigger] out@.contains(c) <==> old(out)@.contains(c) || thread_holds(*s, *h, cur, c)
            by {
            assert(out@.contains(c) <==> mid.contains(c) || exists|i: int|
                0 <= i < s.openupval@.len() && c == GcRef::UpVal(#[trigger] s.openupval@[i]));
            assert(mid.contains(c) <==> old(out)@.contains(c) || exists|i: int, j: int|
                #![trigger slot_in_frame(*s, *h, cur, i, j)]
                0 <= i < s.ci.0 + 1 && 0 <= j < s.stack@.len() && slot_in_frame(*s, *h, cur, i, j) && value_ref(
                    s.stack@[j],
                ) == Some(c));
        }
    }
}

/// Whether one of the values of a map is an object.
pub open spec fn in_pairs<K>(ps: Seq<(K, LuaValue)>, c: GcRef) -> bool {
    exists|i: int| 0 <= i < ps.len() && value_ref((#[trigger] ps[i]).1) == Some(c)
}

/// Whether a value held from outside is an object.
pub open spec fn in_slots(ss: Seq<ExternalRootSlot>, c: GcRef) -> bool {
    exists|i: int|
        #![trigger ss[i]]
        0 <= i < ss.len() && ss[i].value is Some && value_ref(ss[i].value->0) == Some(c)
}

/// Whether one of these strings is an object.
pub open spec fn in_strs(ss: Seq<StrId>, c: GcRef) -> bool {
    exists|i: int| 0 <= i < ss.len() && c == GcRef::Str(#[trigger] ss[i])
}

/// Whether one of these metatables is an object.
pub open spec fn in_metas(ts: Seq<Option<TableId>>, c: GcRef) -> bool {
    exists|i: int| 0 <= i < ts.len() && #[trigger] ts[i] is Some && c == GcRef::Table(ts[i]->0)
}

/// Whether one of these objects with finalizers is an object.
pub open spec fn in_fins(fs: Seq<FinalizerObject>, c: GcRef) -> bool {
    exists|i: int| 0 <= i < fs.len() && value_ref((#[trigger] fs[i]).spec_value()) == Some(c)
}

/// Whether one of these stacks holds an object.
pub open spec fn in_stacks(vs: Seq<Vec<LuaValue>>, c: GcRef) -> bool {
    exists|i: int| 0 <= i < vs.len() && in_values((#[trigger] vs[i])@, c)
}

/// Whether one of these captured variables is an object.
pub open spec fn in_upvals(us: Seq<UpValId>, c: GcRef) -> bool {
    exists|i: int| 0 <= i < us.len() && c == GcRef::UpVal(#[trigger] us[i])
}

/// Whether one of these lists of captured variables has an object.
pub open spec fn in_upval_lists(vs: Seq<Vec<UpValId>>, c: GcRef) -> bool {
    exists|i: int| 0 <= i < vs.len() && in_upvals((#[trigger] vs[i])@, c)
}

/// Whether an object is the handle of the coroutine that runs.
pub open spec fn is_current(g: GlobalState, c: GcRef) -> bool {
    g.current_thread_id != g.main_thread_id && (g.thread_at(g.current_thread_id) matches Some(i) && c
        == GcRef::Thread(g.threads@[i].value))
}

/// Whether the shared state holds an object, whatever else is alive. Objects whose
/// finalizer is due are held; those that merely have one are not. Neither are
/// coroutines, by being registered alone, nor interned strings.
pub open spec fn global_holds(g: GlobalState, c: GcRef) -> bool {
    ||| value_ref(g.l_registry) == Some(c) || value_ref(g.globals) == Some(c) || value_ref(g.loaded) == Some(c)
    ||| c == GcRef::Thread(g.main_thread_value) || is_current(g, c)
    ||| c == GcRef::Str(g.memerrmsg) || in_strs(g.tmname@, c) || in_strs(g.strcache@, c) || in_metas(g.mt@, c)
    ||| in_slots(g.external_roots.slots@, c)
    ||| in_pairs(g.cross_thread_upvals@, c) || in_pairs(g.thread_globals@, c) || in_pairs(g.closure_envs@, c)
    ||| in_fins(g.finalizers.to_be_finalized@, c)
    ||| in_stacks(g.suspended_parent_stacks@, c) || in_upval_lists(g.suspended_parent_open_upvals@, c)
}

fn list_pairs<K>(out: &mut Vec<GcRef>, ps: &Vec<(K, LuaValue)>)
    ensures
        listed(old(out)@, final(out)@, |c: GcRef| in_pairs(ps@, c)),
{
    let mut i: usize = 0;
    while i < ps.len()
        invariant
            i <= ps@.len(),
            listed(
                old(out)@,
                out@,
                |c: GcRef| exists|j: int| 0 <= j < i && value_ref((#[trigger] ps@[j]).1) == Some(c),
            ),
        decreases ps@.len() - i,
    {
        let ghost before = out@;
        list_value(out, &ps[i].1);
        proof {
            assert forall|c: GcRef| #[trigger] out@.contains(c) <==> old(out)@.contains(c) || exists|j: int|
                0 <= j < i + 1 && value_ref((#[trigger] ps@[j]).1) == Some(c) by {
                assert(out@.contains(c) <==> before.contains(c) || value_ref(ps@[i as int].1) == Some(c));
            }
        }
        i = i + 1;
    }
}

fn list_external(out: &mut Vec<GcRef>, ss: &Vec<ExternalRootSlot>)
    ensures
        listed(old(out)@, final(out)@, |c: GcRef| in_slots(ss@, c)),
{
    let mut i: usize = 0;
    while i < ss.len()
        invariant
            i <= ss@.len(),
            listed(
                old(out)@,
                out@,
                |c: GcRef|
                    exists|j: int|
                        #![trigger ss@[j]]
                        0 <= j < i && ss@[j].value is Some && value_ref(ss@[j].value->0) == Some(c),
            ),
        decreases ss@.len() - i,
    {
        let ghost before = out@;
        if let Some(v) = ss[i].value {
            list_value(out, &v);
        }
        proof {
            assert forall|c: GcRef| #[trigger] out@.contains(c) <==> old(out)@.contains(c) || exists|j: int|
                #![trigger ss@[j]]
                0 <= j < i + 1 && ss@[j].value is Some && value_ref(ss@[j].value->0) == Some(c) by {
                assert(out@.contains(c) <==> before.contains(c) || ss@[i as int].value is Some && value_ref(
                    ss@[i as int].value->0,
                ) == Some(c));
            }
        }
        i = i + 1;
    }
}

fn list_strs(out: &mut Vec<GcRef>, ss: &Vec<StrId>)
    ensures
        listed(old(out)@, final(out)@, |c: GcRef| in_strs(ss@, c)),
{
    let mut i: usize = 0;
    while i < ss.len()
        invariant
            i <= ss@.len(),
            listed(old(out)@, out@, |c: GcRef| exists|j: int| 0 <= j < i && c == GcRef::Str(#[trigger] ss@[j])),
        decreases ss@.len() - i,
    {
        let ghost before = out@;
        list_ref(out, GcRef::Str(ss[i]));
        proof {
            assert forall|c: GcRef| #[trigger] out@.contains(c) <==> old(out)@.contains(c) || exists|j: int|
                0 <= j < i + 1 && c == GcRef::Str(#[trigger] ss@[j]) by {
                assert(out@.contains(c) <==> before.contains(c) || c == GcRef::Str(ss@[i as int]));
            }
        }
        i = i + 1;
    }
}

fn list_metas(out: &mut Vec<GcRef>, ts: &Vec<Option<TableId>>)
    ensures
        listed(old(out)@, final(out)@, |c: GcRef| in_metas(ts@, c)),
{
    let mut i: usize = 0;
    while i < ts.len()
        invariant
            i <= ts@.len(),
            listed(
                old(out)@,
                out@,
                |c: GcRef| exists|j: int| 0 <= j < i && #[trigger] ts@[j] is Some && c == GcRef::Table(ts@[j]->0),
            ),
        decreases ts@.len() - i,
    {
        let ghost before = out@;
        if let Some(t) = ts[i] {
            list_ref(out, GcRef::Table(t));
        }
        proof {
            assert forall|c: GcRef| #[trigger] out@.contains(c) <==> old(out)@.contains(c) || exists|j: int|
                0 <= j < i + 1 && #[trigger] ts@[j] is Some && c == GcRef::Table(ts@[j]->0) by {
                assert(out@.contains(c) <==> before.contains(c) || ts@[i as int] is Some && c == GcRef::Table(
                    ts@[i as int]->0,
                ));
            }
        }
        i = i + 1;
    }
}

fn list_fins(out: &mut Vec<GcRef>, fs: &Vec<FinalizerObject>)
    ensures
        listed(old(out)@, final(out)@, |c: GcRef| in_fins(fs@, c)),
{
    let mut i: usize = 0;
    while i < fs.len()
        invariant
            i <= fs@.len(),
            listed(
                old(out)@,
                out@,
                |c: GcRef| exists|j: int| 0 <= j < i && value_ref((#[trigger] fs@[j]).spec_value()) == Some(c),
            ),
        decreases fs@.len() - i,
    {
        let ghost before = out@;
        let v: LuaValue = fs[i].as_lua_value();
        list_value(out, &v);
        proof {
            assert forall|c: GcRef| #[trigger] out@.contains(c) <==> old(out)@.contains(c) || exists|j: int|
                0 <= j < i + 1 && value_ref((#[trigger] fs@[j]).spec_value()) == Some(c) by {
                assert(out@.contains(c) <==> before.contains(c) || value_ref(fs@[i as int].spec_value()) == Some(c));
            }
        }
        i = i + 1;
    }
}

fn list_stacks(out: &mut Vec<GcRef>, vs: &Vec<Vec<LuaValue>>)
    ensures
        listed(old(out)@, final(out)@, |c: GcRef| in_stacks(vs@, c)),
{
    let mut i: usize = 0;
    while i < vs.len()
        invariant
            i <= vs@.len(),
            listed(old(out)@, out@, |c: GcRef| exists|j: int| 0 <= j < i && in_values((#[trigger] vs@[j])@, c)),
        decreases vs@.len() - i,
    {
        let ghost before = out@;
        list_values(out, &vs[i]);
        proof {
            assert forall|c: GcRef| #[trigger] out@.contains(c) <==> old(out)@.contains(c) || exists|j: int|
                0 <= j < i + 1 && in_values((#[trigger] vs@[j])@, c) by {
                assert(out@.contains(c) <==> before.contains(c) || in_values(vs@[i as int]@, c));
            }
        }
        i = i + 1;
    }
}

fn list_upval_lists(out: &mut Vec<GcRef>, vs: &Vec<Vec<UpValId>>)
    ensures
        listed(old(out)@, final(out)@, |c: GcRef| in_upval_lists(vs@, c)),
{
    let mut i: usize = 0;
    while i < vs.len()
        invariant
            i <= vs@.len(),
            listed(old(out)@, out@, |c: GcRef| exists|j: int| 0 <= j < i && in_upvals((#[trigger] vs@[j])@, c)),
        decreases vs@.len() - i,
    {
        let ghost before = out@;
        list_upvals(out, &vs[i]);
        proof {
            assert forall|c: GcRef| #[trigger] out@.contains(c) <==> old(out)@.contains(c) || exists|j: int|
                0 <= j < i + 1 && in_upvals((#[trigger] vs@[j])@, c) by {
                assert(out@.contains(c) <==> before.contains(c) || in_upvals(vs@[i as int]@, c));
            }
        }
        i = i + 1;
    }
}

impl GlobalState {
    /// Lists what the shared state holds.
    #[verifier::rlimit(40)]
    pub fn list_roots(&self, out: &mut Vec<GcRef>)
        requires
            self.wf(),
        ensures
            listed(old(out)@, final(out)@, |c: GcRef| global_holds(*self, c)),
    {
        list_value(out, &self.l_registry);
        list_external(out, &self.external_roots.slots);
        list_pairs(out, &self.cross_thread_upvals);
        list_value(out, &self.globals);
        list_value(out, &self.loaded);
        list_ref(out, GcRef::Thread(self.main_thread_value));
        if self.current_thread_id != self.main_thread_id {
            if let Some(i) = self.find_thread(self.current_thread_id) {
                list_ref(out, GcRef::Thread(self.threads[i].value));
            }
        }
        list_metas(out, &self.mt);
        list_strs(out, &self.tmname);
        list_ref(out, GcRef::Str(self.memerrmsg));
        list_strs(out, &self.strcache);
        list_fins(out, &self.finalizers.to_be_finalized);
        list_stacks(out, &self.suspended_parent_stacks);
        list_upval_lists(out, &self.suspended_parent_open_upvals);
        list_pairs(out, &self.thread_globals);
        list_pairs(out, &self.closure_envs);
    }
}

/// What the shared state holds exists.
pub proof fn lemma_global_holds_ok(g: GlobalState, c: GcRef)
    requires
        g.wf(),
        global_holds(g, c),
    ensures
        g.heap.sizes().has(c),
{
    let z = g.heap.sizes();
    assert(g.refs_ok(z));
    if in_pairs(g.cross_thread_upvals@, c) {
        let i = choose|i: int|
            0 <= i < g.cross_thread_upvals@.len() && value_ref((#[trigger] g.cross_thread_upvals@[i]).1) == Some(c);
        assert(z.ok(g.cross_thread_upvals@[i].1));
    }
    if in_pairs(g.thread_globals@, c) {
        let i = choose|i: int|
            0 <= i < g.thread_globals@.len() && value_ref((#[trigger] g.thread_globals@[i]).1) == Some(c);
        assert(z.ok(g.thread_globals@[i].1));
    }
    if in_pairs(g.closure_envs@, c) {
        let i = choose|i: int|
            0 <= i < g.closure_envs@.len() && value_ref((#[trigger] g.closure_envs@[i]).1) == Some(c);
        assert(z.ok(g.closure_envs@[i].1));
    }
    if in_fins(g.finalizers.to_be_finalized@, c) {
        let i = choose|i: int|
            0 <= i < g.finalizers.to_be_finalized@.len() && value_ref(
                (#[trigger] g.finalizers.to_be_finalized@[i]).spec_value(),
            ) == Some(c);
        assert(z.ok(g.finalizers.to_be_finalized@[i].spec_value()));
    }
    if in_stacks(g.suspended_parent_stacks@, c) {
        let i = choose|i: int|
            0 <= i < g.suspended_parent_stacks@.len() && in_values(
                (#[trigger] g.suspended_parent_stacks@[i])@,
                c,
            );
        assert(z.ok_all(g.suspended_parent_stacks@[i]@));
    }
    if in_upval_lists(g.suspended_parent_open_upvals@, c) {
        let i = choose|i: int|
            0 <= i < g.suspended_parent_open_upvals@.len() && in_upvals(
                (#[trigger] g.suspended_parent_open_upvals@[i])@,
                c,
            );
        assert(crate::global::upvals_ok(z, g.suspended_parent_open_upvals@[i]@));
    }
    if is_current(g, c) {
        let i = g.thread_at(g.current_thread_id)->0;
        assert(g.threads@[i].value.0 < z.threads);
    }
}

} // verus!
