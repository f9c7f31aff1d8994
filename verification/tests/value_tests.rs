use lua_vm::arith::{
    idiv, imod, int_fits_float, intop_add, intop_mul, intop_shl, intop_shr, intop_sub, le_float_int, le_int_float,
    le_num, lt_float_int, lt_int_float, lt_num, shiftl, to_integer, to_integer_ns, to_signed, to_unsigned, tonumber,
};
use lua_vm::boot::new_state;
use lua_vm::compare::{less_equal_raw, less_than_raw, raw_equal};
use lua_vm::exec_jumps::OrderOutcome;
use lua_vm::float::{flt_eq, flt_is_nan, flt_le, flt_lt, flt_negate, flt_to_integer, int_to_float, F2Imod};
use lua_vm::forloop::{float_for_continues, for_start, forlimit, ForNumerals, ForStart};
use lua_vm::global::GlobalState;
use lua_vm::heap::Heap;
use lua_vm::meta::{EqOutcome, GetOutcome, LenOutcome, SetOutcome};
use lua_vm::opcode::{Instruction, InstructionExt, OpCode};
use lua_vm::state::LuaState;
use lua_vm::string::{bytes_eq, hash_bytes, str_cmp, trim_whitespace, LuaString};
use lua_vm::table::{KeyError, LuaTable};
use lua_vm::tagmethods::{tagmethod_from_index, TagMethod};
use lua_vm::tmcalls::BinOutcome;
use lua_vm::value::{ForPart, LuaClosure, LuaError, LuaType, LuaValue, LuaVersion, StrId, TableId, TypeOp};
use std::cmp::Ordering;

fn float(x: f64) -> LuaValue {
    LuaValue::Float(x.to_bits())
}

fn fresh() -> (LuaState, GlobalState) {
    new_state(1_700_000_000).expect("state should initialize")
}

fn message<T>(r: Result<T, LuaError>) -> Vec<u8> {
    match r {
        Err(LuaError::RuntimeMsg(m)) => m,
        _ => panic!("an error with a message is due"),
    }
}

#[test]
fn integers_wrap_around() {
    assert_eq!(intop_add(i64::MAX, 1), i64::MIN);
    assert_eq!(intop_sub(i64::MIN, 1), i64::MAX);
    assert_eq!(intop_mul(i64::MAX, 2), -2);
    assert_eq!(intop_mul(i64::MIN, -1), i64::MIN);
}

#[test]
fn bit_patterns_and_integers_stand_for_each_other() {
    for x in [0, 1, -1, i64::MAX, i64::MIN, 42] {
        assert_eq!(to_unsigned(x), x as u64);
        assert_eq!(to_signed(to_unsigned(x)), x);
    }
    for y in [0, 1, u64::MAX, 1 << 63] {
        assert_eq!(to_unsigned(to_signed(y)), y);
    }
}

#[test]
fn shifts_fill_with_zeros_and_turn_by_sign() {
    assert_eq!(intop_shl(1, 63), i64::MIN);
    assert_eq!(intop_shr(-1, 1), i64::MAX);
    assert_eq!(shiftl(1, 3), 8);
    assert_eq!(shiftl(8, -3), 1);
    assert_eq!(shiftl(-1, -63), 1);
    assert_eq!(shiftl(-1, 64), 0);
    assert_eq!(shiftl(-1, -64), 0);
    assert_eq!(shiftl(5, i64::MIN), 0);
    assert_eq!(shiftl(5, 0), 5);
}

#[test]
fn division_rounds_down_and_the_remainder_has_the_sign_of_the_divisor() {
    for m in -7i64..8 {
        for n in [-3i64, -2, -1, 1, 2, 3] {
            let q = idiv(m, n).ok().expect("a quotient");
            let r = imod(m, n).ok().expect("a remainder");
            assert_eq!(q * n + r, m);
            assert!(if n > 0 { 0 <= r && r < n } else { n < r && r <= 0 });
        }
    }
    assert_eq!(idiv(-7, 2).ok(), Some(-4));
    assert_eq!(imod(-7, 2).ok(), Some(1));
    assert_eq!(imod(7, -2).ok(), Some(-1));
    assert_eq!(idiv(i64::MIN, -1).ok(), Some(i64::MIN));
    assert_eq!(imod(i64::MIN, -1).ok(), Some(0));
    assert_eq!(message(idiv(1, 0)), b"attempt to divide by zero".to_vec());
    assert_eq!(message(imod(1, 0)), b"attempt to perform 'n%0'".to_vec());
}

#[test]
fn doubles_compare_by_value() {
    let bits = |x: f64| x.to_bits();
    let all = [f64::NEG_INFINITY, -1.5, -0.0, 0.0, 5e-324, 1.0, 1e300, f64::INFINITY, f64::NAN];
    for a in all {
        for b in all {
            assert_eq!(flt_lt(bits(a), bits(b)), a < b);
            assert_eq!(flt_le(bits(a), bits(b)), a <= b);
            assert_eq!(flt_eq(bits(a), bits(b)), a == b);
        }
        assert_eq!(flt_is_nan(bits(a)), a.is_nan());
        assert_eq!(flt_negate(bits(a)), bits(-a));
        assert_eq!(flt_negate(flt_negate(bits(a))), bits(a));
    }
}

#[test]
fn doubles_become_integers_by_the_mode() {
    let f = |x: f64, mode: F2Imod| flt_to_integer(x.to_bits(), mode);
    assert_eq!(f(3.0, F2Imod::Eq), Some(3));
    assert_eq!(f(3.5, F2Imod::Eq), None);
    assert_eq!(f(3.5, F2Imod::Floor), Some(3));
    assert_eq!(f(3.5, F2Imod::Ceil), Some(4));
    assert_eq!(f(-3.5, F2Imod::Floor), Some(-4));
    assert_eq!(f(-3.5, F2Imod::Ceil), Some(-3));
    assert_eq!(f(-0.0, F2Imod::Eq), Some(0));
    assert_eq!(f(9223372036854775808.0, F2Imod::Floor), None);
    assert_eq!(f(-9223372036854775808.0, F2Imod::Eq), Some(i64::MIN));
    assert_eq!(f(f64::NAN, F2Imod::Floor), None);
    assert_eq!(f(f64::INFINITY, F2Imod::Ceil), None);
    assert_eq!(f(1e-300, F2Imod::Ceil), Some(1));
}

#[test]
fn integers_become_the_nearest_double() {
    for i in [
        0,
        1,
        -1,
        (1 << 53) + 1,
        (1 << 53) + 3,
        -(1 << 53) - 1,
        i64::MAX,
        i64::MIN,
        i64::MAX - 512,
        123456789012345678,
    ] {
        assert_eq!(int_to_float(i), (i as f64).to_bits(), "{}", i);
    }
    assert!(int_fits_float(1 << 53));
    assert!(int_fits_float(-(1 << 53)));
    assert!(!int_fits_float((1 << 53) + 1));
}

#[test]
fn mixed_comparisons_are_exact() {
    let big = (1i64 << 53) + 1;
    let near = (1u64 << 53) as f64;
    assert!(!lt_int_float(big, near.to_bits()));
    assert!(lt_float_int(near.to_bits(), big));
    assert!(!le_int_float(big, near.to_bits()));
    assert!(le_float_int(near.to_bits(), big));
    assert!(lt_int_float(i64::MAX, 9223372036854775808.0f64.to_bits()));
    assert!(!le_float_int(9223372036854775808.0f64.to_bits(), i64::MAX));
    assert!(!lt_int_float(0, f64::NAN.to_bits()));
    assert!(!le_float_int(f64::NAN.to_bits(), 0));
    assert!(lt_num(&LuaValue::Int(1), &float(1.5)));
    assert!(le_num(&float(2.0), &LuaValue::Int(2)));
    assert!(!lt_num(&float(2.0), &LuaValue::Int(2)));
}

#[test]
fn values_become_integers_only_where_they_are_one() {
    assert_eq!(to_integer_ns(&float(2.0), F2Imod::Eq), Some(2));
    assert_eq!(to_integer_ns(&LuaValue::Bool(true), F2Imod::Eq), None);
    let s = LuaValue::Str(StrId(0));
    assert_eq!(to_integer(&s, Some(LuaValue::Int(16)), F2Imod::Eq), Some(16));
    assert_eq!(to_integer(&s, None, F2Imod::Eq), None);
    assert_eq!(tonumber(&LuaValue::Int(2), None), Some(2.0f64.to_bits()));
    assert_eq!(tonumber(&LuaValue::Nil, None), None);
    assert_eq!(s.to_integer_with_strconv(Some(float(4.0))), Some(4));
    assert_eq!(s.to_integer_no_strconv(), None);
    assert_eq!(s.to_number_with_strconv(Some(LuaValue::Int(7))), Some(7.0f64.to_bits()));
    assert_eq!(s.to_number_no_strconv(), None);
}

#[test]
fn a_loop_counts_its_passes() {
    let none = || ForNumerals { init: None, limit: None, step: None };
    let int = LuaValue::Int;
    let start = |i: i64, l: LuaValue, s: i64| for_start(&int(i), &l, &int(s), none()).ok();
    assert_eq!(start(1, int(10), 3), Some(ForStart::Ints { init: 1, count: 3, step: 3 }));
    assert_eq!(start(10, int(1), -4), Some(ForStart::Ints { init: 10, count: 2, step: -4 }));
    assert_eq!(start(1, float(3.9), 1), Some(ForStart::Ints { init: 1, count: 2, step: 1 }));
    assert_eq!(
        start(i64::MIN, int(i64::MAX), 1),
        Some(ForStart::Ints { init: i64::MIN, count: u64::MAX, step: 1 }),
    );
    assert_eq!(start(1, float(f64::INFINITY), i64::MAX), Some(ForStart::Ints { init: 1, count: 0, step: i64::MAX }));
    assert!(matches!(start(1, int(0), 1), Some(ForStart::Skip { .. })));
    assert!(matches!(start(1, float(f64::NAN), 1), Some(ForStart::Skip { .. })));
    assert_eq!(message(for_start(&int(1), &int(2), &int(0), none())), b"'for' step is zero".to_vec());
    match for_start(&int(1), &LuaValue::Nil, &int(1), none()) {
        Err(LuaError::ForError { value, part }) => {
            assert_eq!(value, LuaValue::Nil);
            assert_eq!(part, ForPart::Limit);
        }
        _ => panic!("an error is due"),
    }
    match for_start(&float(1.0), &int(1), &LuaValue::Bool(true), none()) {
        Err(LuaError::ForError { part, .. }) => assert_eq!(part, ForPart::Step),
        _ => panic!("an error is due"),
    }
    match for_start(&LuaValue::Nil, &int(1), &int(1), none()) {
        Err(LuaError::ForError { part, .. }) => assert_eq!(part, ForPart::Init),
        _ => panic!("an error is due"),
    }
    assert_eq!(
        for_start(&float(1.0), &int(2), &float(0.5), none()).ok(),
        Some(ForStart::Floats { init: 1.0f64.to_bits(), limit: 2.0f64.to_bits(), step: 0.5f64.to_bits() }),
    );
    assert_eq!(forlimit(1, &float(2.7), None, 1).ok(), Some((false, 2)));
    assert_eq!(forlimit(1, &float(-2.7), None, -1).ok(), Some((false, -2)));
    assert!(float_for_continues(2.0f64.to_bits(), 2.0f64.to_bits(), 0.5f64.to_bits()));
    assert!(!float_for_continues(2.5f64.to_bits(), 2.0f64.to_bits(), 0.5f64.to_bits()));
    assert!(float_for_continues(2.5f64.to_bits(), 2.0f64.to_bits(), (-0.5f64).to_bits()));
}

#[test]
fn strings_have_an_order() {
    assert_eq!(str_cmp(b"abc", b"abd"), Ordering::Less);
    assert_eq!(str_cmp(b"abc", b"ab"), Ordering::Greater);
    assert_eq!(str_cmp(b"a\0b", b"a\0b"), Ordering::Equal);
    assert_eq!(str_cmp(b"", b"\0"), Ordering::Less);
    assert_eq!(str_cmp(b"\xff", b"a"), Ordering::Greater);
    assert!(bytes_eq(b"x", b"x"));
    assert!(!bytes_eq(b"x", b"xx"));
    assert_eq!(trim_whitespace(b" \t10\r\n "), b"10".to_vec());
    assert_eq!(trim_whitespace(b"  "), b"".to_vec());
}

#[test]
fn string_hashes() {
    assert_eq!(hash_bytes(b"", 7), 7);
    // One byte: h ^ ((h << 5) + (h >> 2) + 97), starting from the seed mixed with the length.
    let h: u32 = 7 ^ 1;
    assert_eq!(hash_bytes(b"a", 7), h ^ ((h << 5).wrapping_add(h >> 2).wrapping_add(97)));
    let s = LuaString::from_slice(b"abc");
    assert_eq!(s.bytes, b"abc".to_vec());
    assert!(s.is_short());
    assert!(LuaString::from_slice(&[b'x'; 40]).is_short());
    assert!(!LuaString::from_slice(&[b'x'; 41]).is_short());
}

#[test]
fn tables_read_what_was_written() {
    let strs: Vec<LuaString> = vec![LuaString::from_slice(b"a"), LuaString::from_slice(b"b")];
    let mut t = LuaTable::new();
    let (a, b) = (LuaValue::Str(StrId(0)), LuaValue::Str(StrId(1)));
    assert!(t.try_raw_set(&strs, a, LuaValue::Int(1)).is_ok());
    assert!(t.try_raw_set(&strs, b, LuaValue::Int(2)).is_ok());
    assert!(t.try_raw_set(&strs, float(3.0), LuaValue::Int(3)).is_ok());
    assert_eq!(t.get(&strs, &a), LuaValue::Int(1));
    assert_eq!(t.get_short_str(&strs, StrId(1)), LuaValue::Int(2));
    assert_eq!(t.get_int(&strs, 3), LuaValue::Int(3));
    assert_eq!(t.get(&strs, &float(3.5)), LuaValue::Nil);
    assert_eq!(t.get(&strs, &LuaValue::Nil), LuaValue::Nil);
    assert!(t.try_raw_set(&strs, a, LuaValue::Nil).is_ok());
    assert_eq!(t.get(&strs, &a), LuaValue::Nil);
    assert_eq!(t.get(&strs, &b), LuaValue::Int(2));
    assert_eq!(t.try_raw_set(&strs, LuaValue::Nil, b), Err(KeyError::Nil));
    assert_eq!(t.try_raw_set(&strs, float(f64::NAN), b), Err(KeyError::Nan));
    assert_eq!(t.getn(&strs), 0);
    for i in 1..4 {
        assert!(t.try_raw_set(&strs, LuaValue::Int(i), a).is_ok());
    }
    assert_eq!(t.getn(&strs), 3);
}

#[test]
fn instructions_have_fields() {
    let i = Instruction(34 | 5 << 7 | 1 << 15 | 6 << 16 | 7 << 24);
    assert_eq!(i.opcode(), OpCode::Add);
    assert_eq!((i.arg_a(), i.arg_b(), i.arg_c()), (5, 6, 7));
    assert_eq!(i.arg_k(), 1);
    assert!(i.test_k());
    assert_eq!(Instruction(1 | (65535 + 12) << 15).arg_s_bx(), 12);
    assert_eq!(Instruction(1 | (65535 - 12) << 15).arg_s_bx(), -12);
    assert_eq!(Instruction(56 | (16777215 - 3) << 7).arg_s_j(), -3);
    assert_eq!(Instruction(82 | 99 << 7).arg_ax(), 99);
    assert_eq!(OpCode::from_index(0), OpCode::Move);
    assert_eq!(OpCode::from_index(82), OpCode::ExtraArg);
}

#[test]
fn events_have_numbers_and_names() {
    assert_eq!(tagmethod_from_index(0), TagMethod::Index);
    assert_eq!(TagMethod::from_u8(6), TagMethod::Add);
    assert_eq!(tagmethod_from_index(24), TagMethod::Close);
    let (_s, g) = fresh();
    for (tm, name) in [
        (TagMethod::Index, "__index"),
        (TagMethod::Eq, "__eq"),
        (TagMethod::Add, "__add"),
        (TagMethod::Concat, "__concat"),
        (TagMethod::Close, "__close"),
    ] {
        let id = g.tm_name(tm).expect("a name");
        assert_eq!(g.heap.strings.items[id.0].bytes, name.as_bytes().to_vec());
    }
}

struct World {
    s: LuaState,
    g: GlobalState,
}

impl World {
    fn new() -> World {
        let (s, g) = fresh();
        World { s, g }
    }

    fn text(&mut self, b: &str) -> LuaValue {
        LuaValue::Str(self.s.intern_str(&mut self.g, b.as_bytes()))
    }

    fn table(&mut self) -> TableId {
        self.s.new_table(&mut self.g)
    }

    fn put(&mut self, t: TableId, k: LuaValue, v: LuaValue) {
        self.g.heap.set(t, k, v).expect("a proper key");
    }

    fn with(&mut self, event: &str, v: LuaValue) -> TableId {
        let (t, m) = (self.table(), self.table());
        let k = self.text(event);
        self.put(m, k, v);
        self.g.heap.tables.items[t.0].metatable = Some(m);
        t
    }
}

fn native(n: usize) -> LuaValue {
    LuaValue::Function(LuaClosure::LightC(n))
}

#[test]
fn equality_by_value_and_by_identity() {
    let mut w = World::new();
    let (t, u) = (LuaValue::Table(w.table()), LuaValue::Table(w.table()));
    let s = w.text("same");
    let h: &Heap = &w.g.heap;
    assert!(raw_equal(h, &LuaValue::Int(1), &float(1.0)));
    assert!(!raw_equal(h, &LuaValue::Int(1), &float(1.5)));
    assert!(!raw_equal(h, &float(f64::NAN), &float(f64::NAN)));
    assert!(raw_equal(h, &t, &t));
    assert!(!raw_equal(h, &t, &u));
    assert!(raw_equal(h, &s, &s));
    assert!(!raw_equal(h, &LuaValue::Nil, &LuaValue::Bool(false)));
    assert_eq!(less_than_raw(h, &LuaValue::Int(1), &LuaValue::Int(2)), Some(true));
    assert_eq!(less_equal_raw(h, &s, &s), Some(true));
    assert_eq!(less_than_raw(h, &s, &LuaValue::Int(2)), None);
}

#[test]
fn long_strings_are_equal_by_contents() {
    let mut w = World::new();
    let long = "x".repeat(50);
    let (a, b) = (w.text(&long), w.text(&long));
    assert_ne!(a, b);
    assert!(raw_equal(&w.g.heap, &a, &b));
    let t = w.table();
    w.put(t, a, LuaValue::Int(1));
    assert_eq!(w.g.heap.get(t, &b), LuaValue::Int(1));
}

#[test]
fn reads_follow_the_index_chain() {
    let mut w = World::new();
    let k = w.text("k");
    let base = w.table();
    w.put(base, k, LuaValue::Int(5));
    let mid = w.with("__index", LuaValue::Table(base));
    let top = w.with("__index", LuaValue::Table(mid));
    assert_eq!(
        w.g.table_get_with_tm(LuaValue::Table(top), k, None).ok(),
        Some(GetOutcome::Value(LuaValue::Int(5))),
    );
    let f = w.with("__index", native(3));
    match w.g.table_get_with_tm(LuaValue::Table(f), k, None) {
        Ok(GetOutcome::Call(c)) => {
            assert_eq!((c.f, c.p1, c.p2), (native(3), LuaValue::Table(f), k));
        }
        _ => panic!("a call is due"),
    }
    match w.g.table_get_with_tm(LuaValue::Bool(true), k, None) {
        Err(LuaError::TypeError { value, op, .. }) => {
            assert_eq!((value, op), (LuaValue::Bool(true), TypeOp::Index));
        }
        _ => panic!("an error is due"),
    }
    let round = w.table();
    let name = w.text("__index");
    w.put(round, name, LuaValue::Table(round));
    w.g.heap.tables.items[round.0].metatable = Some(round);
    assert_eq!(
        message(w.g.table_get_with_tm(LuaValue::Table(round), k, None)),
        b"'__index' chain too long; possible loop".to_vec(),
    );
}

#[test]
fn writes_follow_the_newindex_chain() {
    let mut w = World::new();
    let k = w.text("k");
    let store = w.table();
    let t = w.with("__newindex", LuaValue::Table(store));
    assert_eq!(
        w.g.table_set_with_tm(LuaValue::Table(t), k, LuaValue::Int(1), None, None).ok(),
        Some(SetOutcome::Done),
    );
    assert_eq!(w.g.heap.get(t, &k), LuaValue::Nil);
    assert_eq!(w.g.heap.get(store, &k), LuaValue::Int(1));
    w.put(t, k, LuaValue::Int(0));
    assert!(w.g.table_set_with_tm(LuaValue::Table(t), k, LuaValue::Int(2), None, None).is_ok());
    assert_eq!(w.g.heap.get(t, &k), LuaValue::Int(2));
    let plain = w.table();
    assert!(matches!(
        w.g.table_set_with_tm(LuaValue::Table(plain), LuaValue::Nil, k, None, None),
        Err(LuaError::NilKey),
    ));
    assert!(matches!(
        w.g.table_set_with_tm(LuaValue::Table(plain), float(f64::NAN), k, None, None),
        Err(LuaError::NanKey),
    ));
    match w.g.table_set_with_tm(LuaValue::Nil, k, k, None, Some(2)) {
        Err(LuaError::UpvalueTypeError { upvalue, op, .. }) => assert_eq!((upvalue, op), (2, TypeOp::Index)),
        _ => panic!("an error is due"),
    }
}

#[test]
fn lengths_and_equality_ask_metamethods() {
    let mut w = World::new();
    let t = w.with("__len", native(1));
    assert!(matches!(w.g.obj_len(LuaValue::Table(t)), Ok(LenOutcome::Call(c)) if c.f == native(1)));
    w.g.lua_version = LuaVersion::V51;
    assert_eq!(w.g.obj_len(LuaValue::Table(t)).ok(), Some(LenOutcome::Value(0)));
    w.g.lua_version = LuaVersion::V54;
    let s = w.text("four");
    assert_eq!(w.g.obj_len(s).ok(), Some(LenOutcome::Value(4)));
    match w.g.obj_len(LuaValue::Int(1)) {
        Err(LuaError::TypeError { op, .. }) => assert_eq!(op, TypeOp::GetLength),
        _ => panic!("an error is due"),
    }
    let a = w.with("__eq", native(2));
    let b = w.table();
    assert!(matches!(
        w.g.equal_obj(LuaValue::Table(b), LuaValue::Table(a)),
        EqOutcome::Call(c) if c.f == native(2),
    ));
    assert_eq!(w.g.equal_obj(LuaValue::Table(b), LuaValue::Table(b)), EqOutcome::Known(true));
    w.g.lua_version = LuaVersion::V51;
    assert_eq!(w.g.equal_obj(LuaValue::Table(b), LuaValue::Table(a)), EqOutcome::Known(false));
}

#[test]
fn wrong_operands_have_their_errors() {
    let mut w = World::new();
    let (int, t) = (LuaValue::Int(1), LuaValue::Table(w.table()));
    match w.g.try_bin_tm(t, None, None, int, None, None, TagMethod::Add) {
        Err(LuaError::TypeError { value, op, .. }) => assert_eq!((value, op), (t, TypeOp::PerformArithmetic)),
        _ => panic!("an error is due"),
    }
    match w.g.try_bin_tm(t, None, None, int, None, None, TagMethod::BAnd) {
        Err(LuaError::TypeError { value, op, .. }) => assert_eq!((value, op), (t, TypeOp::PerformBitwise)),
        _ => panic!("an error is due"),
    }
    assert!(matches!(
        w.g.try_bin_tm(float(1.5), None, None, int, None, None, TagMethod::BAnd),
        Err(LuaError::ToIntError { .. }),
    ));
    let m = LuaValue::Table(w.with("__add", native(9)));
    assert!(matches!(
        w.g.try_bin_tm(int, None, None, m, None, None, TagMethod::Add),
        Ok(BinOutcome::Call(c)) if c.f == native(9) && c.p1 == int && c.p2 == m,
    ));
}

#[test]
fn values_have_types_and_names() {
    let mut w = World::new();
    assert_eq!(LuaValue::Nil.base_type(), LuaType::Nil);
    assert_eq!(float(0.5).base_type(), LuaType::Number);
    assert!(LuaValue::Nil.is_falsy());
    assert!(LuaValue::Bool(false).is_falsy());
    assert!(!LuaValue::Int(0).is_falsy());
    assert_eq!(w.g.obj_type_name(&LuaValue::LightUserData(1)), b"light userdata".to_vec());
    let m = w.text("Point");
    let t = w.with("__name", m);
    assert_eq!(w.g.obj_type_name(&LuaValue::Table(t)), b"Point".to_vec());
    w.g.lua_version = LuaVersion::V52;
    assert_eq!(w.g.obj_type_name(&LuaValue::Table(t)), b"table".to_vec());
}

#[test]
fn comparisons_fall_back_to_handlers() {
    let mut w = World::new();
    let t = LuaValue::Table(w.with("__lt", native(1)));
    let u = LuaValue::Table(w.table());
    assert_eq!(w.s.less_than(&w.g, LuaValue::Int(1), float(1.5)).ok(), Some(OrderOutcome::Known(true)));
    assert_eq!(w.s.less_equal(&w.g, float(f64::NAN), float(f64::NAN)).ok(), Some(OrderOutcome::Known(false)));
    match w.s.less_than(&w.g, t, u) {
        Ok(OrderOutcome::Call(c)) => {
            assert!(!c.negate);
            assert_eq!((c.call.f, c.call.p1, c.call.p2), (native(1), t, u));
        }
        _ => panic!("a call is due"),
    }
    match w.s.less_equal(&w.g, u, t) {
        Ok(OrderOutcome::Call(c)) => {
            assert!(c.negate);
            assert_eq!((c.call.f, c.call.p1, c.call.p2), (native(1), t, u));
        }
        _ => panic!("a call is due"),
    }
    w.g.lua_version = LuaVersion::V55;
    match w.s.less_equal(&w.g, u, t) {
        Err(LuaError::OrderError { left, right }) => assert_eq!((left, right), (u, t)),
        _ => panic!("an error is due"),
    }
}
