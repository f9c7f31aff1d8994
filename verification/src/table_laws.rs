//! What the instructions on tables and loops are for, stated over the bits of their words, the
//! slots of the stack and the fields of tables.

use vstd::prelude::*;
use crate::exec::After;
use crate::exec::Step;
use crate::exec_laws::Ran;
use crate::exec_laws::lemma_abc;
use crate::exec_laws::lemma_abx;
use crate::exec_laws::lemma_slots_kept;
use crate::exec_laws::word_abc;
use crate::exec_laws::word_abx;
use crate::forloop::ForNumerals;
use crate::forloop::ForStart;
use crate::forloop::law_for_count;
use crate::forloop::spec_for_bound;
use crate::forloop::spec_for_start;
use crate::global::GlobalState;
use crate::heap::UpVal;
use crate::meta::IndexChain;
use crate::meta::NewIndexChain;
use crate::opcode::OpCode;
use crate::tagmethods::TagMethod;
use crate::tagmethods::handler;
use crate::value::LuaError;
use crate::value::LuaValue;
use crate::value::TableId;

verus! {

/// The value of a captured variable of the function that a frame runs, where it is closed or
/// open on the stack of the frame's own thread.
pub open spec fn upvalue(x: Ran, n: int) -> LuaValue {
    match x.g.heap.upvals.items@[x.g.heap.lclosures.items@[x.f.cl.0 as int].upvals@[n].0 as int] {
        UpVal::Closed(v) => v,
        UpVal::Open { thread, idx } => x.s.stack@[idx.0 as int],
    }
}

/// Whether a captured variable is closed, or open on the stack of the frame's own thread.
pub open spec fn near(x: Ran, n: int) -> bool {
    x.g.heap.upvals.items@[x.g.heap.lclosures.items@[x.f.cl.0 as int].upvals@[n].0 as int] matches UpVal::Open {
        thread,
        ..
    } ==> thread == x.s.cached_thread_id
}

/// What a read reads from, by the number of the opcode.
pub open spec fn read_from(x: Ran, op: int, b: int) -> LuaValue {
    if op == 11 {
        upvalue(x, b)
    } else {
        x.r(b)
    }
}

/// The key of a read, by the number of the opcode.
pub open spec fn read_key(x: Ran, op: int, k: int, c: int) -> LuaValue {
    if op == 12 || op == 20 && k == 0 {
        x.r(c)
    } else if op == 13 {
        LuaValue::Int(c as i64)
    } else {
        x.k(c)
    }
}

/// The opcode of a read or write, by its number.
pub open spec fn field_opcode(op: int) -> OpCode {
    if op == 11 {
        OpCode::GetTabUp
    } else if op == 12 {
        OpCode::GetTable
    } else if op == 13 {
        OpCode::GetI
    } else if op == 14 {
        OpCode::GetField
    } else if op == 15 {
        OpCode::SetTabUp
    } else if op == 16 {
        OpCode::SetTable
    } else if op == 17 {
        OpCode::SetI
    } else if op == 18 {
        OpCode::SetField
    } else {
        OpCode::Self_
    }
}

/// Reading a field that the table has puts its value in register A, whatever handlers there
/// are, and changes nothing else. What is read from is register B, or captured variable B; the
/// key is register C, constant C, or the number C.
#[verifier::rlimit(60)]
#[verifier::spinoff_prover]
pub proof fn law_read_own_field(x: Ran, op: int, a: int, k: int, b: int, c: int, t: TableId)
    requires
        x.ok(),
        word_abc(x.i, op, a, k, b, c),
        11 <= op <= 14,
        op == 11 ==> near(x, b),
        read_from(x, op, b) == LuaValue::Table(t),
        x.g.heap.tget(t, read_key(x, op, k, c)) != LuaValue::Nil,
    ensures
        x.sets(a, x.g.heap.tget(t, read_key(x, op, k, c))),
        x.next(x.f.pc + 1),
{
    lemma_abc(x.i, field_opcode(op), a, k, b, c);
}

/// A method call reads the method from the object in register B into register A, and passes
/// the object on in the register above.
#[verifier::rlimit(60)]
#[verifier::spinoff_prover]
pub proof fn law_read_method(x: Ran, a: int, k: int, b: int, c: int, t: TableId)
    requires
        x.ok(),
        word_abc(x.i, 20, a, k, b, c),
        x.r(b) == LuaValue::Table(t),
        x.g.heap.tget(t, read_key(x, 20, k, c)) != LuaValue::Nil,
    ensures
        x.h == x.g,
        x.t.stack@ == x.s.stack@.update(x.f.base.0 + a + 1, LuaValue::Table(t)).update(
            x.f.base.0 + a,
            x.g.heap.tget(t, read_key(x, 20, k, c)),
        ),
        x.next(x.f.pc + 1),
{
    lemma_abc(x.i, OpCode::Self_, a, k, b, c);
}

/// Reading a field that a table without a metatable lacks gives `nil`.
#[verifier::rlimit(60)]
#[verifier::spinoff_prover]
pub proof fn law_read_missing(x: Ran, op: int, a: int, k: int, b: int, c: int, t: TableId)
    requires
        x.ok(),
        word_abc(x.i, op, a, k, b, c),
        11 <= op <= 14,
        op == 11 ==> near(x, b),
        read_from(x, op, b) == LuaValue::Table(t),
        x.g.heap.tget(t, read_key(x, op, k, c)) == LuaValue::Nil,
        x.g.heap.tables.items@[t.0 as int].metatable is None,
    ensures
        x.writes(a, LuaValue::Nil),
        x.next(x.f.pc + 1),
{
    lemma_abc(x.i, field_opcode(op), a, k, b, c);
    lemma_set_at(x, a, LuaValue::Nil);
}

/// A register that was set wherever it is looked at was written.
proof fn lemma_set_at(x: Ran, a: int, v: LuaValue)
    ensures
        x.h == x.g && x.t.stack@.len() >= x.s.stack@.len() && 0 <= x.f.base.0 + a < x.s.stack@.len() && (forall|i: int|
            #[trigger] x.t.at(i) == (if i == x.f.base.0 + a {
                v
            } else {
                x.s.at(i)
            })) ==> x.writes(a, v),
{
    if x.t.stack@.len() >= x.s.stack@.len() && 0 <= x.f.base.0 + a < x.s.stack@.len() && (forall|i: int| #[trigger]
        x.t.at(i) == (if i == x.f.base.0 + a {
            v
        } else {
            x.s.at(i)
        })) {
        assert(x.t.at(x.f.base.0 + a) == v);
        assert forall|j: int| 0 <= j < x.s.stack@.len() && j != x.f.base.0 + a implies #[trigger] x.t.stack@[j]
            == x.s.stack@[j] by {
            assert(x.t.at(j) == x.s.at(j));
        }
    }
}

/// What a write writes to, by the number of the opcode.
pub open spec fn write_to(x: Ran, op: int, a: int) -> LuaValue {
    if op == 15 {
        upvalue(x, a)
    } else {
        x.r(a)
    }
}

/// The key of a write, by the number of the opcode.
pub open spec fn write_key(x: Ran, op: int, b: int) -> LuaValue {
    if op == 16 {
        x.r(b)
    } else if op == 17 {
        LuaValue::Int(b as i64)
    } else {
        x.k(b)
    }
}

/// Whether two keys, neither of them a float, are different. Strings are by their bytes.
pub open spec fn other_key(g: GlobalState, q: LuaValue, key: LuaValue) -> bool {
    match (q, key) {
        (LuaValue::Float(_), _) => false,
        (LuaValue::Str(a), LuaValue::Str(b)) => g.heap.strings.items@[a.0 as int].bytes@
            != g.heap.strings.items@[b.0 as int].bytes@,
        _ => q != key,
    }
}

/// Writing a field stores register C, or constant C where `k` is set, under the key in the
/// table in register A or captured variable A, where the table has the field or no metatable.
/// It is read back from there, whatever else is under other keys stays, and so does every
/// other table.
#[verifier::rlimit(80)]
#[verifier::spinoff_prover]
pub proof fn law_write_field(x: Ran, op: int, a: int, k: int, b: int, c: int, t: TableId, q: LuaValue, u: TableId)
    requires
        x.ok(),
        word_abc(x.i, op, a, k, b, c),
        15 <= op <= 18,
        op == 15 ==> near(x, a),
        write_to(x, op, a) == LuaValue::Table(t),
        ({
            let key = write_key(x, op, b);
            &&& x.g.heap.tget(t, key) != LuaValue::Nil || x.g.heap.tables.items@[t.0 as int].metatable is None
            &&& key != LuaValue::Nil && !(key is Float)
        }),
    ensures
        ({
            let key = write_key(x, op, b);
            let val = if k == 1 {
                x.k(c)
            } else {
                x.r(c)
            };
            &&& x.next(x.f.pc + 1)
            &&& x.h.heap.tget(t, key) == val
            &&& other_key(x.g, q, key) ==> x.h.heap.tget(t, q) == x.g.heap.tget(t, q)
            &&& u != t && u.0 < x.g.heap.tables.items@.len() ==> x.h.heap.tables.items@[u.0 as int]
                == x.g.heap.tables.items@[u.0 as int]
            &&& x.h.heap.tables.items@[t.0 as int].metatable == x.g.heap.tables.items@[t.0 as int].metatable
            &&& x.keeps_slots()
        }),
{
    lemma_abc(x.i, field_opcode(op), a, k, b, c);
    lemma_slots_kept(x.s, x.t);
    reveal(crate::table::entries_from);
}

/// A new table is empty, has no metatable, is none that there was, and goes to register A. The
/// tables that there were stay as they are.
#[verifier::rlimit(60)]
#[verifier::spinoff_prover]
pub proof fn law_new_table(x: Ran, a: int, k: int, b: int, c: int, q: LuaValue, u: int)
    requires
        x.ok(),
        word_abc(x.i, 19, a, k, b, c),
    ensures
        x.t.stack@[x.f.base.0 + a] matches LuaValue::Table(t) && t.0 == x.g.heap.tables.items@.len() && x.h.heap.tget(t, q)
            == LuaValue::Nil && x.h.heap.tables.items@[t.0 as int].metatable is None,
        0 <= u < x.g.heap.tables.items@.len() ==> x.h.heap.tables.items@[u] == x.g.heap.tables.items@[u],
        forall|j: int|
            0 <= j < x.s.stack@.len() && j != x.f.base.0 + a ==> #[trigger] x.t.stack@[j] == x.s.stack@[j],
        x.at(x.f.pc + 2),
{
    lemma_abc(x.i, OpCode::NewTable, a, k, b, c);
}

/// Filling a table stores the values above register A under consecutive integers: as many as B
/// says, or all up to `top` where B is zero, from the one after C on. Other keys keep theirs.
#[verifier::rlimit(60)]
#[verifier::spinoff_prover]
pub proof fn law_set_list(x: Ran, a: int, b: int, c: int, t: TableId, n: int)
    requires
        x.ok(),
        word_abc(x.i, 78, a, 0, b, c),
        x.r(a) == LuaValue::Table(t),
        i64::MIN <= n <= i64::MAX,
    ensures
        ({
            let count = if b == 0 {
                x.s.top.0 - (x.f.base.0 + a + 1)
            } else {
                b
            };
            &&& x.next(x.f.pc + 1)
            &&& x.h.heap.tget(t, LuaValue::Int(n as i64)) == (if c < n <= c + count {
                x.r(a + n - c)
            } else {
                x.g.heap.tget(t, LuaValue::Int(n as i64))
            })
        }),
{
    lemma_abc(x.i, OpCode::SetList, a, 0, b, c);
}

/// The length of a string is the number of its bytes, and that of a table that no handler is
/// asked about is a number whose key has a value while the next one has none.
#[verifier::rlimit(60)]
#[verifier::spinoff_prover]
pub proof fn law_length(x: Ran, a: int, k: int, b: int, c: int)
    requires
        x.ok(),
        word_abc(x.i, 52, a, k, b, c),
    ensures
        x.r(b) matches LuaValue::Str(s) ==> x.g.heap.strings.items@[s.0 as int].bytes@.len() <= i64::MAX ==> x.writes(
            a,
            LuaValue::Int(x.g.heap.strings.items@[s.0 as int].bytes@.len() as i64),
        ) && x.next(x.f.pc + 1),
        x.r(b) matches LuaValue::Table(t) ==> x.g.heap.tables.items@[t.0 as int].metatable is None ==> (
        x.t.stack@[x.f.base.0 + a] matches LuaValue::Int(n) && n >= 0 && (n > 0 ==> x.g.heap.tget(t, LuaValue::Int(n))
            != LuaValue::Nil) && (n < i64::MAX ==> x.g.heap.tget(t, LuaValue::Int((n + 1) as i64)) == LuaValue::Nil))
            && x.next(x.f.pc + 1),
{
    lemma_abc(x.i, OpCode::Len, a, k, b, c);
    if let LuaValue::Str(s) = x.r(b) {
        lemma_set_at(x, a, LuaValue::Int(x.g.heap.strings.items@[s.0 as int].bytes@.len() as i64));
    }
    if let LuaValue::Table(t) = x.r(b) {
        if x.g.heap.tables.items@[t.0 as int].metatable is None {
            let n = choose|n: i64|
                {
                    &&& #[trigger] crate::exec_tables::is_len(x.g, x.r(b), n)
                    &&& crate::exec_regs::protected_set(x.s, x.f, x.f.pc + 1, a, LuaValue::Int(n), x.t)
                };
            assert(x.t.at(x.f.base.0 + a) == LuaValue::Int(n));
        }
    }
}

/// The end of a numeric loop over integers: while some iterations are left, the index goes on
/// by the step, both where it is kept and where the body sees it, one iteration less is left,
/// and the body runs again. Otherwise the loop is over, and nothing changes.
#[verifier::rlimit(60)]
#[verifier::spinoff_prover]
pub proof fn law_for_loop(x: Ran, a: int, bx: int, index: i64, left: i64, step: i64)
    requires
        x.ok(),
        word_abx(x.i, 73, a, bx),
        x.r(a) == LuaValue::Int(index),
        x.r(a + 1) == LuaValue::Int(left),
        x.r(a + 2) == LuaValue::Int(step),
        left >= 0,
        i64::MIN <= index + step <= i64::MAX,
    ensures
        left > 0 ==> {
            let next = LuaValue::Int((index + step) as i64);
            &&& x.t.stack@ == x.s.stack@.update(x.f.base.0 + a, next).update(
                x.f.base.0 + a + 1,
                LuaValue::Int((left - 1) as i64),
            ).update(x.f.base.0 + a + 3, next)
            &&& x.next(x.f.pc + 1 - bx)
        },
        left == 0 ==> x.t.stack@ == x.s.stack@ && x.next(x.f.pc + 1),
{
    lemma_abx(x.i, OpCode::ForLoop, a, bx);
    if left > 0 {
        let next = LuaValue::Int((index + step) as i64);
        assert(x.t.stack@ =~= x.s.stack@.update(x.f.base.0 + a, next).update(
            x.f.base.0 + a + 1,
            LuaValue::Int((left - 1) as i64),
        ).update(x.f.base.0 + a + 3, next));
    }
}

/// The start of a numeric loop asks for its operands from register A on, and is left over the
/// body and the instruction at its end.
#[verifier::rlimit(40)]
#[verifier::spinoff_prover]
pub proof fn law_for_prep(x: Ran, a: int, bx: int)
    requires
        x.ok(),
        word_abx(x.i, 74, a, bx),
    ensures
        x.res matches Ok(Step::ForPrep { ra, jump }) && ra.0 == x.f.base.0 + a && jump == bx + 1,
        x.at(x.f.pc + 1),
        x.keeps_slots(),
{
    lemma_abx(x.i, OpCode::ForPrep, a, bx);
    lemma_slots_kept(x.s, x.t);
}

/// A numeric loop over integers starts with its first operand, unless that is past the limit
/// already, and runs as long as the index is not past it: after the first iteration as often
/// as the count says, and once more would be past the limit.
pub proof fn law_for_start(init: i64, limit: i64, step: i64, n: ForNumerals)
    requires
        step != 0,
    ensures
        ({
            let start = spec_for_start(LuaValue::Int(init), LuaValue::Int(limit), LuaValue::Int(step), n);
            let past = if step > 0 {
                init > limit
            } else {
                init < limit
            };
            match start {
                Some(ForStart::Skip { control }) => past && control == Some(init),
                Some(ForStart::Ints { init: from, count, step: by }) => {
                    &&& !past && from == init && by == step
                    &&& step > 0 ==> init + count * step <= limit < init + (count + 1) * step
                    &&& step < 0 ==> init + count * step >= limit > init + (count + 1) * step
                },
                _ => false,
            }
        }),
{
    let lim = LuaValue::Int(limit);
    assert(crate::arith::coerced(lim, n.limit) == lim);
    assert(spec_for_bound(lim, step) == Some(limit));
    let past = if step > 0 {
        init > limit
    } else {
        init < limit
    };
    if !past {
        let count = crate::forloop::spec_for_count(init as int, limit as int, step as int);
        law_for_count(init, limit, step, 0);
        law_for_count(init, limit, step, count);
        law_for_count(init, limit, step, count + 1);
    }
}

/// A step of zero starts no loop.
pub proof fn law_for_zero_step(init: i64, limit: LuaValue, n: ForNumerals)
    ensures
        spec_for_start(LuaValue::Int(init), limit, LuaValue::Int(0), n) is None,
{
}

/// Each round of a generic loop calls the iterator in register A with its state and the last
/// control value, all three copied above the loop's variables. As many results are wanted as C
/// says, in their place.
#[verifier::rlimit(40)]
#[verifier::spinoff_prover]
pub proof fn law_iterator_call(x: Ran, a: int, k: int, b: int, c: int)
    requires
        x.ok(),
        word_abc(x.i, 76, a, k, b, c),
    ensures
        x.res matches Ok(Step::Call { request, then: After::Iterate }) && request.func.0 == x.f.base.0 + a + 4
            && request.nresults == c,
        x.t.stack@[x.f.base.0 + a + 4] == x.r(a),
        x.t.stack@[x.f.base.0 + a + 5] == x.r(a + 1),
        x.t.stack@[x.f.base.0 + a + 6] == x.r(a + 2),
        forall|j: int|
            0 <= j < x.s.stack@.len() && !(x.f.base.0 + a + 4 <= j <= x.f.base.0 + a + 6) ==> #[trigger] x.t.stack@[j]
                == x.s.stack@[j],
        x.t.top.0 == x.f.base.0 + a + 7,
        x.at(x.f.pc + 1),
{
    lemma_abc(x.i, OpCode::TForCall, a, k, b, c);
}

/// A generic loop goes on while the first result of its iterator is not `nil`: it becomes the
/// control value, and the body runs again. At `nil` the loop is over, and nothing changes.
#[verifier::rlimit(40)]
#[verifier::spinoff_prover]
pub proof fn law_iterate(x: Ran, a: int, bx: int)
    requires
        x.ok(),
        word_abx(x.i, 77, a, bx),
    ensures
        x.r(a + 4) != LuaValue::Nil ==> x.sets(a + 2, x.r(a + 4)) && x.next(x.f.pc + 1 - bx),
        x.r(a + 4) == LuaValue::Nil ==> x.t == x.s && x.next(x.f.pc + 1),
{
    lemma_abx(x.i, OpCode::TForLoop, a, bx);
}

/// A read that a handler answers: it is called above the frame with itself, what is indexed and
/// the key, and its result goes to the register of the read.
#[verifier::rlimit(60)]
#[verifier::spinoff_prover]
pub proof fn law_read_handed_over(x: Ran, op: int, a: int, k: int, b: int, c: int, f: LuaValue, t: LuaValue)
    requires
        x.ok(),
        word_abc(x.i, op, a, k, b, c),
        11 <= op <= 14,
        op == 11 ==> near(x, b),
        x.g.get_plan(read_from(x, op, b), read_key(x, op, k, c)) == (IndexChain::Call { f: f, t: t }),
        x.s.call_info@[x.f.ci.0 as int].top.0 + 3 <= 0x7fff_ffff,
    ensures
        ({
            let top = x.s.call_info@[x.f.ci.0 as int].top.0 as int;
            &&& x.res matches Ok(Step::Call { request, then: After::Store(to) }) && request.func.0 == top
                && request.nresults == 1 && to.0 == x.f.base.0 + a
            &&& x.t.stack@[top] == f
            &&& x.t.stack@[top + 1] == t
            &&& x.t.stack@[top + 2] == read_key(x, op, k, c)
            &&& x.t.top.0 == top + 3
        }),
        x.t.call_info@[x.f.ci.0 as int].u.savedpc == x.f.pc + 1,
        x.at(x.f.pc + 1),
{
    lemma_abc(x.i, field_opcode(op), a, k, b, c);
    let vs = seq![f, t, read_key(x, op, k, c)];
    assert(vs[0] == f && vs[1] == t && vs[2] == read_key(x, op, k, c));
}

/// A write that a handler takes: it is called above the frame with itself, what is indexed, the
/// key and the value, and owes no result.
#[verifier::rlimit(60)]
#[verifier::spinoff_prover]
pub proof fn law_write_handed_over(x: Ran, op: int, a: int, k: int, b: int, c: int, f: LuaValue, t: LuaValue)
    requires
        x.ok(),
        word_abc(x.i, op, a, k, b, c),
        15 <= op <= 18,
        op == 15 ==> near(x, a),
        x.g.set_plan(write_to(x, op, a), write_key(x, op, b)) == (NewIndexChain::Call { f: f, t: t }),
        x.s.call_info@[x.f.ci.0 as int].top.0 + 4 <= 0x7fff_ffff,
    ensures
        ({
            let top = x.s.call_info@[x.f.ci.0 as int].top.0 as int;
            let val = if k == 1 {
                x.k(c)
            } else {
                x.r(c)
            };
            &&& x.res matches Ok(Step::Call { request, then: After::Nothing }) && request.func.0 == top
                && request.nresults == 0
            &&& x.t.stack@[top] == f
            &&& x.t.stack@[top + 1] == t
            &&& x.t.stack@[top + 2] == write_key(x, op, b)
            &&& x.t.stack@[top + 3] == val
            &&& x.t.top.0 == top + 4
        }),
        x.t.call_info@[x.f.ci.0 as int].u.savedpc == x.f.pc + 1,
        x.at(x.f.pc + 1),
{
    lemma_abc(x.i, field_opcode(op), a, k, b, c);
    let val = if k == 1 {
        x.k(c)
    } else {
        x.r(c)
    };
    let vs = seq![f, t, write_key(x, op, b), val];
    assert(vs[0] == f && vs[1] == t && vs[2] == write_key(x, op, b) && vs[3] == val);
}

/// A length that a handler gives: it is called with the value twice, and its result goes to the
/// register. A value that is neither a string nor a table and has no handler has no length.
#[verifier::rlimit(60)]
#[verifier::spinoff_prover]
pub proof fn law_length_handed_over(x: Ran, a: int, k: int, b: int, c: int)
    requires
        x.ok(),
        word_abc(x.i, 52, a, k, b, c),
        !(x.r(b) is Str) && !(x.r(b) is Table),
        x.s.call_info@[x.f.ci.0 as int].top.0 + 3 <= 0x7fff_ffff,
    ensures
        ({
            let top = x.s.call_info@[x.f.ci.0 as int].top.0 as int;
            let h = handler(x.g, x.r(b), TagMethod::Len);
            &&& h == LuaValue::Nil ==> (x.res matches Err(LuaError::TypeError { value, .. }) && value == x.r(b))
            &&& h != LuaValue::Nil ==> (x.res matches Ok(Step::Call { request, then: After::Store(to) }) && request.func.0
                == top && request.nresults == 1 && to.0 == x.f.base.0 + a) && x.t.stack@[top] == h && x.t.stack@[top + 1]
                == x.r(b) && x.t.stack@[top + 2] == x.r(b) && x.t.top.0 == top + 3
        }),
        x.t.call_info@[x.f.ci.0 as int].u.savedpc == x.f.pc + 1,
{
    lemma_abc(x.i, OpCode::Len, a, k, b, c);
    let h = handler(x.g, x.r(b), TagMethod::Len);
    let vs = seq![h, x.r(b), x.r(b)];
    assert(vs[0] == h && vs[1] == x.r(b) && vs[2] == x.r(b));
}

} // verus!
