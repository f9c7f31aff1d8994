//! What arithmetic and comparison are for, stated over integers and the order of bytes.

use vstd::prelude::*;
use vstd::arithmetic::power2::pow2;
use crate::arith::floor_div;
use crate::arith::floor_mod;
use crate::arith::law_floor_div_mod;
use crate::arith::spec_shiftl;
use crate::arith::unsigned64;
use crate::arith::wrap64;
use crate::exec::FloatOp;
use crate::exec::Step;
use crate::exec_laws::Ran;
use crate::exec_laws::has_value;
use crate::exec_laws::lemma_abc;
use crate::exec_laws::lemma_ax;
use crate::exec_laws::lemma_exact_float;
use crate::exec_laws::lemma_slots_kept;
use crate::exec_laws::word_abc;
use crate::exec_laws::word_ax;
use crate::opcode::OpCode;
use crate::value::LuaValue;

verus! {

/// The first operand of an operation on two numbers: register B, but for a shift of a number
/// in the instruction.
pub open spec fn left(x: Ran, op: int, b: int, c: int) -> LuaValue {
    if op == 33 {
        LuaValue::Int((c - 127) as i64)
    } else {
        x.r(b)
    }
}

/// The second one: register C, constant C, or a number in the instruction.
pub open spec fn right(x: Ran, op: int, b: int, c: int) -> LuaValue {
    if op == 33 {
        x.r(b)
    } else if op == 21 || op == 32 {
        LuaValue::Int((c - 127) as i64)
    } else if 22 <= op <= 31 {
        x.k(c)
    } else {
        x.r(c)
    }
}

/// The opcode with a number, for operations on two numbers.
pub open spec fn arith_opcode(op: int) -> OpCode {
    if op == 21 {
        OpCode::AddI
    } else if op == 22 {
        OpCode::AddK
    } else if op == 23 {
        OpCode::SubK
    } else if op == 24 {
        OpCode::MulK
    } else if op == 25 {
        OpCode::ModK
    } else if op == 26 {
        OpCode::PowK
    } else if op == 27 {
        OpCode::DivK
    } else if op == 28 {
        OpCode::IDivK
    } else if op == 29 {
        OpCode::BAndK
    } else if op == 30 {
        OpCode::BOrK
    } else if op == 31 {
        OpCode::BXOrK
    } else if op == 32 {
        OpCode::ShrI
    } else if op == 33 {
        OpCode::ShlI
    } else if op == 34 {
        OpCode::Add
    } else if op == 35 {
        OpCode::Sub
    } else if op == 36 {
        OpCode::Mul
    } else if op == 37 {
        OpCode::Mod
    } else if op == 38 {
        OpCode::Pow
    } else if op == 39 {
        OpCode::Div
    } else if op == 40 {
        OpCode::IDiv
    } else if op == 41 {
        OpCode::BAnd
    } else if op == 42 {
        OpCode::BOr
    } else if op == 43 {
        OpCode::BXOr
    } else if op == 44 {
        OpCode::Shl
    } else {
        OpCode::Shr
    }
}

/// The integer that an operation left in register A, with nothing else to do but to pass over
/// the fallback.
pub open spec fn gives(x: Ran, a: int, v: int) -> bool {
    &&& i64::MIN <= v <= i64::MAX
    &&& x.writes(a, LuaValue::Int(v as i64))
    &&& x.next(x.f.pc + 2)
}

/// Every number has one remainder among the integers of 64 bits.
proof fn lemma_wrap(n: int)
    ensures
        i64::MIN <= wrap64(n) <= i64::MAX,
        (wrap64(n) - n) % 0x1_0000_0000_0000_0000 == 0,
        i64::MIN <= n <= i64::MAX ==> wrap64(n) == n,
{
}

/// Addition, subtraction and multiplication of integers are those of the whole numbers, modulo
/// 2^64: register A gets an integer that differs from the exact result by a multiple of that.
#[verifier::rlimit(60)]
#[verifier::spinoff_prover]
pub proof fn law_add_sub_mul(x: Ran, op: int, a: int, k: int, b: int, c: int, m: i64, n: i64) -> (v: int)
    requires
        x.ok(),
        word_abc(x.i, op, a, k, b, c),
        op == 21 || op == 22 || op == 34 || op == 23 || op == 35 || op == 24 || op == 36,
        left(x, op, b, c) == LuaValue::Int(m),
        right(x, op, b, c) == LuaValue::Int(n),
    ensures
        gives(x, a, v),
        op == 21 || op == 22 || op == 34 ==> (v - (m + n)) % 0x1_0000_0000_0000_0000 == 0,
        op == 23 || op == 35 ==> (v - (m - n)) % 0x1_0000_0000_0000_0000 == 0,
        op == 24 || op == 36 ==> (v - m * n) % 0x1_0000_0000_0000_0000 == 0,
{
    lemma_abc(x.i, arith_opcode(op), a, k, b, c);
    let e = if op == 21 || op == 22 || op == 34 {
        m + n
    } else if op == 23 || op == 35 {
        m - n
    } else {
        m * n
    };
    lemma_wrap(e);
    wrap64(e)
}

/// Division and modulus of integers belong together: the modulus lies between zero and the
/// divisor, and what is left of the dividend is the divisor times the quotient. Only the
/// quotient of the least integer by -1 is out of range, and wraps. Zero divides nothing.
#[verifier::rlimit(60)]
#[verifier::spinoff_prover]
pub proof fn law_div_mod(x: Ran, y: Ran, op: int, a: int, k: int, b: int, c: int, m: i64, n: i64) -> (qr: (int, int))
    requires
        x.ok() && y.ok(),
        op == 25 || op == 37,
        word_abc(x.i, op + 3, a, k, b, c),
        word_abc(y.i, op, a, k, b, c),
        left(x, op, b, c) == LuaValue::Int(m) && left(y, op, b, c) == LuaValue::Int(m),
        right(x, op, b, c) == LuaValue::Int(n) && right(y, op, b, c) == LuaValue::Int(n),
    ensures
        n != 0 ==> gives(x, a, qr.0) && gives(y, a, qr.1),
        n > 0 ==> 0 <= qr.1 < n,
        n < 0 ==> n < qr.1 <= 0,
        n != 0 && !(m == i64::MIN && n == -1) ==> m == n * qr.0 + qr.1,
        m == i64::MIN && n == -1 ==> qr.0 == m && qr.1 == 0,
        n == 0 ==> x.res is Err && y.res is Err,
{
    lemma_abc(x.i, arith_opcode(op + 3), a, k, b, c);
    lemma_abc(y.i, arith_opcode(op), a, k, b, c);
    if n != 0 {
        let q = floor_div(m as int, n as int);
        let r = floor_mod(m as int, n as int);
        law_floor_div_mod(m as int, n as int);
        lemma_wrap(q);
        if !(m == i64::MIN && n == -1) {
            assert(i64::MIN <= q <= i64::MAX) by (nonlinear_arith)
                requires
                    i64::MIN <= m <= i64::MAX,
                    m == n * q + r,
                    n > 0 ==> 0 <= r < n,
                    n < 0 ==> n < r <= 0,
                    n != 0,
                    !(m == i64::MIN && n == -1),
            ;
        } else {
            assert(q == -(m as int)) by (nonlinear_arith)
                requires
                    m == n * q + r,
                    n == -1,
                    n < r <= 0,
            ;
        }
        lemma_protected_set(x, a, wrap64(q));
        lemma_protected_set(y, a, r);
        (wrap64(q), r)
    } else {
        (0, 0)
    }
}

/// A register that was set wherever it is looked at was written.
proof fn lemma_protected_set(x: Ran, a: int, v: int)
    ensures
        x.h == x.g && x.t.stack@.len() >= x.s.stack@.len() && 0 <= x.f.base.0 + a < x.s.stack@.len() && (forall|i: int|
            #[trigger] x.t.at(i) == (if i == x.f.base.0 + a {
                LuaValue::Int(v as i64)
            } else {
                x.s.at(i)
            })) ==> x.writes(a, LuaValue::Int(v as i64)),
{
    if x.t.stack@.len() >= x.s.stack@.len() && 0 <= x.f.base.0 + a < x.s.stack@.len() && (forall|i: int| #[trigger]
        x.t.at(i) == (if i == x.f.base.0 + a {
            LuaValue::Int(v as i64)
        } else {
            x.s.at(i)
        })) {
        assert(x.t.at(x.f.base.0 + a) == LuaValue::Int(v as i64));
        assert forall|j: int| 0 <= j < x.s.stack@.len() && j != x.f.base.0 + a implies #[trigger] x.t.stack@[j]
            == x.s.stack@[j] by {
            assert(x.t.at(j) == x.s.at(j));
        }
    }
}

/// The bitwise operations on integers, and the shifts: to the left by `n` is multiplication by
/// 2^n modulo 2^64, to the right is division of the unsigned number, a negative count shifts
/// the other way, and 64 or more leave nothing.
#[verifier::rlimit(60)]
#[verifier::spinoff_prover]
pub proof fn law_bits(x: Ran, op: int, a: int, k: int, b: int, c: int, m: i64, n: i64) -> (v: int)
    requires
        x.ok(),
        word_abc(x.i, op, a, k, b, c),
        29 <= op <= 33 || 41 <= op <= 45,
        left(x, op, b, c) == LuaValue::Int(m),
        right(x, op, b, c) == LuaValue::Int(n),
    ensures
        gives(x, a, v),
        op == 29 || op == 41 ==> v == m & n,
        op == 30 || op == 42 ==> v == m | n,
        op == 31 || op == 43 ==> v == m ^ n,
        ({
            let by = if op == 32 || op == 45 {
                -n
            } else {
                n as int
            };
            let u = if m < 0 {
                m + 0x1_0000_0000_0000_0000
            } else {
                m as int
            };
            let w = if v < 0 {
                v + 0x1_0000_0000_0000_0000
            } else {
                v
            };
            op == 32 || op == 33 || op == 44 || op == 45 ==> {
                &&& 0 <= by < 64 ==> w == (u * pow2(by as nat)) % 0x1_0000_0000_0000_0000
                &&& -64 < by < 0 ==> w == u / (pow2((-by) as nat) as int)
                &&& by <= -64 || by >= 64 ==> w == 0
            }
        }),
{
    lemma_abc(x.i, arith_opcode(op), a, k, b, c);
    if op == 29 || op == 41 {
        (m & n) as int
    } else if op == 30 || op == 42 {
        (m | n) as int
    } else if op == 31 || op == 43 {
        (m ^ n) as int
    } else {
        let by = if op == 32 || op == 45 {
            wrap64(-n)
        } else {
            n as int
        };
        lemma_wrap(-n);
        crate::arith::law_shiftl(m as int, by);
        lemma_shift(m as int, by);
        spec_shiftl(m as int, by)
    }
}

/// A shift of a number is a shift of the unsigned number with the same bits.
proof fn lemma_shift(m: int, by: int)
    requires
        i64::MIN <= m <= i64::MAX,
    ensures
        i64::MIN <= spec_shiftl(m, by) <= i64::MAX,
        0 <= by ==> unsigned64(spec_shiftl(m, by)) == (unsigned64(m) * pow2(by as nat)) % 0x1_0000_0000_0000_0000,
        by < 0 ==> unsigned64(spec_shiftl(m, by)) == unsigned64(m) / (pow2((-by) as nat) as int),
{
    let two = 0x1_0000_0000_0000_0000int;
    lemma_wrap(m * pow2(by as nat));
    lemma_wrap(unsigned64(m) / (pow2((-by) as nat) as int));
    if by >= 0 {
        let p = pow2(by as nat) as int;
        vstd::arithmetic::div_mod::lemma_mul_mod_noop_left(m, p, two);
        vstd::arithmetic::div_mod::lemma_small_mod((m * p % two) as nat, two as nat);
    } else {
        let p = pow2((-by) as nat) as int;
        vstd::arithmetic::power2::lemma_pow2_pos((-by) as nat);
        let q = unsigned64(m) / p;
        assert(0 <= q <= unsigned64(m)) by (nonlinear_arith)
            requires
                q == unsigned64(m) / p,
                p >= 1,
                unsigned64(m) >= 0,
        ;
    }
}

/// Negation of an integer is that of the whole number, modulo 2^64, and a number with its
/// complement and one make nothing.
#[verifier::rlimit(40)]
#[verifier::spinoff_prover]
pub proof fn law_unary(x: Ran, a: int, k: int, b: int, c: int, m: i64) -> (v: int)
    requires
        x.ok(),
        word_abc(x.i, 49, a, k, b, c) || word_abc(x.i, 50, a, k, b, c),
        x.r(b) == LuaValue::Int(m),
    ensures
        x.sets(a, LuaValue::Int(v as i64)) && x.next(x.f.pc + 1),
        i64::MIN <= v <= i64::MAX,
        word_abc(x.i, 49, a, k, b, c) ==> (v + m) % 0x1_0000_0000_0000_0000 == 0,
        word_abc(x.i, 50, a, k, b, c) ==> v + m + 1 == 0,
{
    if word_abc(x.i, 49, a, k, b, c) {
        lemma_abc(x.i, OpCode::Unm, a, k, b, c);
        lemma_wrap(-m);
        wrap64(-m)
    } else {
        lemma_abc(x.i, OpCode::BNot, a, k, b, c);
        assert(!m == -m - 1) by (bit_vector);
        (!m) as int
    }
}

/// An operation with a double is asked for on the doubles of its operands, in their order, and
/// so are division and power of integers. The result goes to register A.
#[verifier::rlimit(60)]
#[verifier::spinoff_prover]
pub proof fn law_float_ops(x: Ran, op: int, a: int, k: int, b: int, c: int, p: u64, q: u64)
    requires
        x.ok(),
        word_abc(x.i, op, a, k, b, c),
        21 <= op <= 28 || 34 <= op <= 40,
        as_double(left(x, op, b, c), p),
        as_double(right(x, op, b, c), q),
        left(x, op, b, c) is Float || right(x, op, b, c) is Float || op == 26 || op == 27 || op == 38 || op == 39,
    ensures
        x.res matches Ok(Step::Float { op: f, x: y1, y: y2, ra }) && ra.0 == x.f.base.0 + a && y1 == p && (f
            == FloatOp::Mul && (op == 26 || op == 38) ==> y2 == p && crate::float::spec_flt_eq(
            q,
            0x4000_0000_0000_0000,
        )) && (!(f == FloatOp::Mul && (op == 26 || op == 38)) ==> y2 == q) && (op == 21 || op == 22 || op == 34 ==> f
            == FloatOp::Add) && (op == 23 || op == 35 ==> f == FloatOp::Sub) && (op == 24 || op == 36 ==> f
            == FloatOp::Mul) && (op == 25 || op == 37 ==> f == FloatOp::FloorMod) && (op == 27 || op == 39 ==> f
            == FloatOp::Div) && (op == 28 || op == 40 ==> f == FloatOp::FloorDiv) && (op == 26 || op == 38 ==> f
            == FloatOp::Pow || f == FloatOp::Mul),
        x.at(x.f.pc + 2),
        x.keeps_slots(),
{
    lemma_abc(x.i, arith_opcode(op), a, k, b, c);
    lemma_slots_kept(x.s, x.t);
    lemma_as_double(left(x, op, b, c), p);
    lemma_as_double(right(x, op, b, c), q);
}

/// Whether a double stands for a number: it is that number, or has the value of a small
/// integer.
pub open spec fn as_double(v: LuaValue, d: u64) -> bool {
    match v {
        LuaValue::Float(b) => b == d,
        LuaValue::Int(n) => -0x0020_0000_0000_0000 < n < 0x0020_0000_0000_0000 && has_value(d, n as int),
        _ => false,
    }
}

proof fn lemma_as_double(v: LuaValue, d: u64)
    requires
        as_double(v, d),
    ensures
        crate::arith::spec_number_value(v) == Some(d),
{
    if let LuaValue::Int(n) = v {
        lemma_exact_float(n, d);
    }
}

/// Where an operand is no number, nothing is computed: the fallback that follows is run.
#[verifier::rlimit(60)]
#[verifier::spinoff_prover]
pub proof fn law_not_numbers(x: Ran, op: int, a: int, k: int, b: int, c: int)
    requires
        x.ok(),
        word_abc(x.i, op, a, k, b, c),
        21 <= op <= 45,
        ({
            let l = left(x, op, b, c);
            let r = right(x, op, b, c);
            !(l is Int || l is Float) || !(r is Int || r is Float)
        }),
    ensures
        x.next(x.f.pc + 1),
        x.keeps_slots(),
        x.h == x.g,
{
    lemma_abc(x.i, arith_opcode(op), a, k, b, c);
    lemma_slots_kept(x.s, x.t);
}

/// A jump goes over as many instructions as its word says, either way.
#[verifier::rlimit(40)]
#[verifier::spinoff_prover]
pub proof fn law_jump(x: Ran, ax: int)
    requires
        x.ok(),
        word_ax(x.i, 56, ax),
    ensures
        x.next(x.f.pc + 1 + ax - 0xff_ffff),
        x.t == x.s && x.h == x.g,
{
    lemma_ax(x.i, OpCode::Jmp, ax);
}

/// Where a test goes: to the jump that follows and along it where its outcome is the one that
/// `k` names, and past that jump otherwise.
pub open spec fn branches(x: Ran, cond: bool, k: int) -> bool {
    x.next(
        if cond == (k == 1) {
            x.f.pc + 2 + x.code(x.f.pc + 1).0 / 0x80 - 0xff_ffff
        } else {
            x.f.pc + 2
        },
    ) && x.keeps_slots() && x.h == x.g
}

/// The comparisons of integers are those of the whole numbers: of two registers, and of a
/// register and a number in the instruction.
#[verifier::rlimit(80)]
#[verifier::spinoff_prover]
pub proof fn law_compare_ints(x: Ran, op: int, a: int, k: int, b: int, c: int, m: i64, n: i64)
    requires
        x.ok(),
        word_abc(x.i, op, a, k, b, c),
        57 <= op <= 59 && x.r(b) == LuaValue::Int(n) || op == 60 && x.k(b) == LuaValue::Int(n) || 61 <= op <= 65 && n == b
            - 127,
        x.r(a) == LuaValue::Int(m),
    ensures
        op == 57 || op == 60 || op == 61 ==> branches(x, m == n, k),
        op == 58 || op == 62 ==> branches(x, m < n, k),
        op == 59 || op == 63 ==> branches(x, m <= n, k),
        op == 64 ==> branches(x, m > n, k),
        op == 65 ==> branches(x, m >= n, k),
{
    lemma_abc(x.i, test_opcode(op), a, k, b, c);
    lemma_slots_kept(x.s, x.t);
    let u = crate::float::flt_unit();
    vstd::arithmetic::power2::lemma_pow2_pos(1074);
    assert((m < n) == (m * u < n * u)) by (nonlinear_arith)
        requires
            u > 0,
    ;
    assert((m <= n) == (m * u <= n * u)) by (nonlinear_arith)
        requires
            u > 0,
    ;
}

/// The opcode with a number, for tests.
pub open spec fn test_opcode(op: int) -> OpCode {
    if op == 57 {
        OpCode::Eq
    } else if op == 58 {
        OpCode::Lt
    } else if op == 59 {
        OpCode::Le
    } else if op == 60 {
        OpCode::EqK
    } else if op == 61 {
        OpCode::EqI
    } else if op == 62 {
        OpCode::LtI
    } else if op == 63 {
        OpCode::LeI
    } else if op == 64 {
        OpCode::GtI
    } else {
        OpCode::GeI
    }
}

/// A test of truth takes `nil` and `false` for false and all else for true. The one that
/// copies its operand does so where it takes the jump.
#[verifier::rlimit(40)]
#[verifier::spinoff_prover]
pub proof fn law_truth(x: Ran, a: int, k: int, b: int, c: int)
    requires
        x.ok(),
    ensures
        word_abc(x.i, 66, a, k, b, c) ==> branches(
            x,
            x.r(a) != LuaValue::Nil && x.r(a) != LuaValue::Bool(false),
            k,
        ) && x.t == x.s,
        word_abc(x.i, 67, a, k, b, c) ==> ({
            let cond = x.r(b) != LuaValue::Nil && x.r(b) != LuaValue::Bool(false);
            if cond == (k == 1) {
                x.sets(a, x.r(b)) && x.next(x.f.pc + 2 + x.code(x.f.pc + 1).0 / 0x80 - 0xff_ffff)
            } else {
                x.t == x.s && x.next(x.f.pc + 2)
            }
        }),
{
    if word_abc(x.i, 66, a, k, b, c) {
        lemma_abc(x.i, OpCode::Test, a, k, b, c);
    } else if word_abc(x.i, 67, a, k, b, c) {
        lemma_abc(x.i, OpCode::TestSet, a, k, b, c);
    }
}

} // verus!
