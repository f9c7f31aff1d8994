use lua_vm::boot::new_state;
use lua_vm::callinfo::CIST_LEQ;
use lua_vm::exec::{After, FloatOp, Frame, Step};
use lua_vm::exec_step::RunStop;
use lua_vm::forloop::ForNumerals;
use lua_vm::gc_barrier::Barrier;
use lua_vm::global::GlobalState;
use lua_vm::heap::{GcRef, UpvalDesc};
use lua_vm::opcode::Instruction;
use lua_vm::state::LuaState;
use lua_vm::tagmethods::TagMethod;
use lua_vm::value::{LClosureId, LuaClosure, LuaError, LuaValue, LuaVersion, ProtoId, StackIdx, TypeOp};

const MOVE: u32 = 0;
const LOADI: u32 = 1;
const LOADF: u32 = 2;
const LOADK: u32 = 3;
const LOADKX: u32 = 4;
const LOADFALSE: u32 = 5;
const LFALSESKIP: u32 = 6;
const LOADTRUE: u32 = 7;
const LOADNIL: u32 = 8;
const GETUPVAL: u32 = 9;
const SETUPVAL: u32 = 10;
const GETTABUP: u32 = 11;
const GETTABLE: u32 = 12;
const GETI: u32 = 13;
const GETFIELD: u32 = 14;
const SETTABUP: u32 = 15;
const SETTABLE: u32 = 16;
const SETI: u32 = 17;
const SETFIELD: u32 = 18;
const NEWTABLE: u32 = 19;
const SELF: u32 = 20;
const ADDI: u32 = 21;
const ADDK: u32 = 22;
const SUBK: u32 = 23;
const MULK: u32 = 24;
const MODK: u32 = 25;
const POWK: u32 = 26;
const DIVK: u32 = 27;
const IDIVK: u32 = 28;
const BANDK: u32 = 29;
const BORK: u32 = 30;
const BXORK: u32 = 31;
const SHRI: u32 = 32;
const SHLI: u32 = 33;
const ADD: u32 = 34;
const SUB: u32 = 35;
const MUL: u32 = 36;
const MOD: u32 = 37;
const POW: u32 = 38;
const DIV: u32 = 39;
const IDIV: u32 = 40;
const BAND: u32 = 41;
const BOR: u32 = 42;
const BXOR: u32 = 43;
const SHL: u32 = 44;
const SHR: u32 = 45;
const MMBIN: u32 = 46;
const MMBINI: u32 = 47;
const UNM: u32 = 49;
const BNOT: u32 = 50;
const NOT: u32 = 51;
const LEN: u32 = 52;
const CONCAT: u32 = 53;
const CLOSE: u32 = 54;
const TBC: u32 = 55;
const JMP: u32 = 56;
const EQ: u32 = 57;
const LT: u32 = 58;
const LE: u32 = 59;
const EQK: u32 = 60;
const EQI: u32 = 61;
const LTI: u32 = 62;
const LEI: u32 = 63;
const GTI: u32 = 64;
const GEI: u32 = 65;
const TEST: u32 = 66;
const TESTSET: u32 = 67;
const CALL: u32 = 68;
const TAILCALL: u32 = 69;
const RETURN: u32 = 70;
const RETURN0: u32 = 71;
const RETURN1: u32 = 72;
const FORLOOP: u32 = 73;
const FORPREP: u32 = 74;
const TFORPREP: u32 = 75;
const TFORCALL: u32 = 76;
const TFORLOOP: u32 = 77;
const SETLIST: u32 = 78;
const CLOSURE: u32 = 79;
const VARARG: u32 = 80;
const VARARGPREP: u32 = 81;
const EXTRAARG: u32 = 82;

fn abc(op: u32, a: u32, b: u32, c: u32) -> Instruction {
    Instruction(op | a << 7 | b << 16 | c << 24)
}

fn abck(op: u32, a: u32, b: u32, c: u32) -> Instruction {
    Instruction(op | a << 7 | 1 << 15 | b << 16 | c << 24)
}

fn abx(op: u32, a: u32, bx: u32) -> Instruction {
    Instruction(op | a << 7 | bx << 15)
}

fn asbx(op: u32, a: u32, v: i32) -> Instruction {
    abx(op, a, (v + 65535) as u32)
}

fn sj(v: i32) -> Instruction {
    Instruction(JMP | ((v + 16777215) as u32) << 7)
}

fn float(x: f64) -> LuaValue {
    LuaValue::Float(x.to_bits())
}

fn native(n: usize) -> LuaValue {
    LuaValue::Function(LuaClosure::LightC(n))
}

struct Vm {
    s: LuaState,
    g: GlobalState,
}

impl Vm {
    fn new() -> Vm {
        let (s, g) = new_state(1_700_000_000).expect("state should initialize");
        Vm { s, g }
    }

    fn text(&mut self, s: &str) -> LuaValue {
        LuaValue::Str(self.s.intern_str(&mut self.g, s.as_bytes()))
    }

    fn bytes(&self, v: LuaValue) -> Vec<u8> {
        match v {
            LuaValue::Str(s) => self.g.heap.strings.items[s.0].bytes.clone(),
            other => panic!("not a string: {:?}", other),
        }
    }

    fn table(&mut self) -> LuaValue {
        LuaValue::Table(self.s.new_table(&mut self.g))
    }

    fn get(&self, t: LuaValue, k: LuaValue) -> LuaValue {
        match t {
            LuaValue::Table(t) => self.g.heap.get(t, &k),
            other => panic!("not a table: {:?}", other),
        }
    }

    fn put(&mut self, t: LuaValue, k: &str, v: LuaValue) {
        let k = self.text(k);
        match t {
            LuaValue::Table(t) => self.g.heap.set(t, k, v).expect("a string key"),
            other => panic!("not a table: {:?}", other),
        }
    }

    fn with_metamethod(&mut self, name: &str, f: LuaValue) -> LuaValue {
        let t = self.table();
        let m = self.table();
        self.put(m, name, f);
        match (t, m) {
            (LuaValue::Table(t), LuaValue::Table(m)) => self.g.heap.tables.items[t.0].metatable = Some(m),
            _ => unreachable!(),
        }
        t
    }

    fn proto(&mut self, code: Vec<Instruction>, k: Vec<LuaValue>, regs: u8) -> ProtoId {
        let p = self.s.new_proto(&mut self.g);
        let proto = &mut self.g.heap.protos.items[p.0];
        proto.code = code;
        proto.k = k;
        proto.maxstacksize = regs;
        p
    }

    fn function(&mut self, code: Vec<Instruction>, k: Vec<LuaValue>, regs: u8) -> LClosureId {
        let p = self.proto(code, k, regs);
        self.s.new_lclosure(&mut self.g, p, 0)
    }

    /// Enters the function at `func` with the values above it as arguments.
    fn enter(&mut self, func: StackIdx, nresults: i16) -> Frame {
        let ci = self.s.next_ci();
        let cl = match self.s.get_at(func) {
            LuaValue::Function(LuaClosure::Lua(c)) => c,
            other => panic!("not a Lua function: {:?}", other),
        };
        let regs = self.g.heap.protos.items[self.g.heap.lclosures.items[cl.0].proto.0].maxstacksize;
        let frame = &mut self.s.call_info[ci.0 as usize];
        frame.func = func;
        frame.top = StackIdx(func.0 + 1 + regs as u32);
        frame.nresults = nresults;
        frame.callstatus = 0;
        frame.u.savedpc = 0;
        frame.u.nextraargs = 0;
        self.s.ci = ci;
        self.s.enter_frame(&self.g, ci, false).expect("a Lua frame")
    }

    fn call_native(&mut self, n: usize, func: StackIdx, nresults: i32) {
        let args: Vec<LuaValue> = (func.0 + 1..self.s.top.0).map(|i| self.s.get_at(StackIdx(i))).collect();
        let mut results = match n {
            0 => vec![args[0]],
            1 => vec![LuaValue::Int(42)],
            2 => vec![LuaValue::Bool(true)],
            3 => vec![LuaValue::Bool(false)],
            // An iterator that counts from the control value up to the state.
            4 => match (args[0], args[1]) {
                (LuaValue::Int(last), LuaValue::Int(i)) if i < last => vec![LuaValue::Int(i + 1)],
                _ => vec![],
            },
            _ => panic!("no such function"),
        };
        if nresults >= 0 {
            results.resize(nresults as usize, LuaValue::Nil);
        }
        for (i, v) in results.iter().enumerate() {
            self.s.set_at(StackIdx(func.0 + i as u32), *v);
        }
        self.s.set_top(StackIdx(func.0 + results.len() as u32));
    }

    fn call(&mut self, func: StackIdx, nresults: i32) -> Result<(), LuaError> {
        match self.s.get_at(func) {
            LuaValue::Function(LuaClosure::LightC(n)) => {
                self.call_native(n, func, nresults);
                Ok(())
            }
            _ => {
                let mut f = self.enter(func, nresults as i16);
                self.drive(&mut f, u64::MAX)
            }
        }
    }

    /// Runs a frame to its end, doing for it what a host does.
    fn drive(&mut self, f: &mut Frame, slice: u64) -> Result<(), LuaError> {
        loop {
            let step = match self.s.execute(&mut self.g, f, slice) {
                RunStop::Step(r) => r?,
                RunStop::Spent => continue,
                RunStop::Trap => panic!("no hooks here"),
                RunStop::Stuck => panic!("stuck at {}", f.pc),
            };
            if self.serve(f, step)? {
                return Ok(());
            }
        }
    }

    fn serve(&mut self, f: &mut Frame, step: Step) -> Result<bool, LuaError> {
        match step {
            Step::Next | Step::GcCheck | Step::NewTable { .. } => Ok(false),
            Step::Returned => Ok(true),
            Step::Float { op, x, y, ra } => {
                let (x, y) = (f64::from_bits(x), f64::from_bits(y));
                let r = match op {
                    FloatOp::Add => x + y,
                    FloatOp::Sub => x - y,
                    FloatOp::Mul => x * y,
                    FloatOp::Div => x / y,
                    FloatOp::Pow => x.powf(y),
                    FloatOp::FloorDiv => (x / y).floor(),
                    FloatOp::FloorMod => x - (x / y).floor() * y,
                };
                self.s.set_at(ra, float(r));
                Ok(false)
            }
            Step::FloatLoop { x, y, .. } => {
                let next = f64::from_bits(x) + f64::from_bits(y);
                self.s.finish_float_loop(&self.g, f, next.to_bits());
                Ok(false)
            }
            Step::ForPrep { ra, jump } => {
                let none = ForNumerals { init: None, limit: None, step: None };
                self.s.finish_forprep(&self.g, f, ra, jump, none)?;
                Ok(false)
            }
            Step::Bin { p1, p1_idx, p2, p2_idx, event, res } => {
                let next = self.s.finish_bin(&self.g, f, p1, p1_idx, None, p2, p2_idx, None, event, res)?;
                self.serve(f, next)
            }
            Step::Call { request, then } => {
                self.call(request.func, request.nresults)?;
                match then {
                    After::Nothing => {}
                    After::Store(at) => self.s.finish_tm_res(at),
                    After::Order { negate } => self.s.finish_order(&self.g, f, negate),
                    After::Equal => self.s.finish_equal(&self.g, f),
                    After::Concat { left } => {
                        let next = self.s.finish_concat(&mut self.g, f, left)?;
                        return self.serve(f, next);
                    }
                    After::Iterate => self.s.finish_iterate(&self.g, f),
                }
                Ok(false)
            }
            Step::Text { at, left } => {
                let text = match self.s.get_at(at) {
                    LuaValue::Int(i) => format!("{}", i),
                    LuaValue::Float(b) => format!("{:?}", f64::from_bits(b)),
                    other => panic!("not a number: {:?}", other),
                };
                self.s.set_text(&mut self.g, at, text.as_bytes());
                let next = self.s.join(&mut self.g, f, left)?;
                self.serve(f, next)
            }
            Step::Precall { func, nresults } => {
                self.call(func, nresults)?;
                self.s.resume_trap(f);
                Ok(false)
            }
            Step::TForPrep { .. } => {
                let next = self.s.finish_tforprep(&self.g, f);
                self.serve(f, next)
            }
            Step::Poscall { n, .. } => {
                let frame = self.s.call_info[f.ci.0 as usize];
                let first = self.s.top.0 - n;
                let wanted = if frame.nresults < 0 { n } else { frame.nresults as u32 };
                for i in 0..wanted {
                    let v = if i < n { self.s.get_at(StackIdx(first + i)) } else { LuaValue::Nil };
                    self.s.set_at(StackIdx(frame.func.0 + i), v);
                }
                self.s.set_top(StackIdx(frame.func.0 + wanted));
                self.s.ci = frame.previous.expect("a caller");
                Ok(true)
            }
            Step::Closure { child, ra } => {
                let mut found = Vec::new();
                for at in self.s.captured_slots(&self.g, child, f.base) {
                    let id = self.s.cached_thread_id;
                    found.push(self.s.new_upval_open(&mut self.g, id, at));
                }
                self.s.push_closure(&mut self.g, f.cl, child, &found, ra);
                self.s.before_gc(&self.g, f, ra);
                Ok(false)
            }
            Step::VarArgPrep { nfixparams } => {
                let p = self.g.heap.lclosures.items[f.cl.0].proto;
                self.s.adjust_varargs(&mut self.g, nfixparams, f.ci, p);
                self.s.finish_varargprep(f);
                Ok(false)
            }
            Step::VarArg { ra, wanted } => {
                let (t, n) = self.s.varargs_count(&mut self.g, f.ci)?;
                self.s.get_varargs(&self.g, f.ci, t, n, ra, wanted);
                Ok(false)
            }
            other => panic!("not served: {:?}", other),
        }
    }

    /// Calls a function of these instructions on these arguments and gives its result.
    fn run(
        &mut self,
        code: Vec<Instruction>,
        k: Vec<LuaValue>,
        regs: u8,
        args: &[LuaValue],
    ) -> Result<LuaValue, LuaError> {
        let c = self.function(code, k, regs);
        self.run_closure(c, args)
    }

    fn run_closure(&mut self, c: LClosureId, args: &[LuaValue]) -> Result<LuaValue, LuaError> {
        let func = self.s.top;
        self.s.push(LuaValue::Function(LuaClosure::Lua(c)));
        for a in args {
            self.s.push(*a);
        }
        let mut f = self.enter(func, 1);
        self.drive(&mut f, u64::MAX)?;
        let v = self.s.get_at(func);
        self.s.set_top(func);
        Ok(v)
    }
}

fn sum_loop() -> Vec<Instruction> {
    vec![
        asbx(LOADI, 0, 0),
        asbx(LOADI, 1, 1),
        asbx(LOADI, 2, 10),
        asbx(LOADI, 3, 1),
        abx(FORPREP, 1, 2),
        abc(ADD, 0, 0, 4),
        abc(MMBIN, 0, 4, TagMethod::Add as u32),
        abx(FORLOOP, 1, 3),
        abc(RETURN1, 0, 2, 0),
    ]
}

#[test]
fn a_counting_loop_sums_its_index() {
    let mut vm = Vm::new();
    assert_eq!(vm.run(sum_loop(), vec![], 5, &[]).ok(), Some(LuaValue::Int(55)));
}

#[test]
fn a_run_in_slices_is_one_run() {
    for slice in 1..9 {
        let mut vm = Vm::new();
        let c = vm.function(sum_loop(), vec![], 5);
        let func = vm.s.top;
        vm.s.push(LuaValue::Function(LuaClosure::Lua(c)));
        let mut f = vm.enter(func, 1);
        assert!(vm.drive(&mut f, slice).is_ok());
        assert_eq!(vm.s.get_at(func), LuaValue::Int(55));
    }
}

#[test]
fn a_loop_that_never_starts_is_passed_over() {
    let mut vm = Vm::new();
    let mut code = sum_loop();
    code[2] = asbx(LOADI, 2, 0);
    assert_eq!(vm.run(code, vec![], 5, &[]).ok(), Some(LuaValue::Int(0)));
}

#[test]
fn a_loop_with_step_zero_is_an_error() {
    let mut vm = Vm::new();
    let mut code = sum_loop();
    code[3] = asbx(LOADI, 3, 0);
    match vm.run(code, vec![], 5, &[]) {
        Err(LuaError::RuntimeMsg(m)) => assert_eq!(m, b"'for' step is zero".to_vec()),
        _ => panic!("an error is due"),
    }
}

#[test]
fn a_loop_over_floats_counts_by_its_step() {
    let mut vm = Vm::new();
    let code = vec![
        asbx(LOADI, 0, 0),
        asbx(LOADF, 1, 1),
        asbx(LOADF, 2, 2),
        abx(LOADK, 3, 0),
        abx(FORPREP, 1, 2),
        abc(ADDI, 0, 0, 128),
        abc(MMBINI, 0, 128, TagMethod::Add as u32),
        abx(FORLOOP, 1, 3),
        abc(RETURN1, 0, 2, 0),
    ];
    assert_eq!(vm.run(code, vec![float(0.5)], 5, &[]).ok(), Some(LuaValue::Int(3)));
}

#[test]
fn a_generic_loop_calls_its_iterator() {
    let mut vm = Vm::new();
    let code = vec![
        asbx(LOADI, 0, 0),
        abx(LOADK, 1, 0),
        asbx(LOADI, 2, 4),
        asbx(LOADI, 3, 0),
        abc(LOADNIL, 4, 0, 0),
        abx(TFORPREP, 1, 2),
        abc(ADD, 0, 0, 5),
        abc(MMBIN, 0, 5, TagMethod::Add as u32),
        abc(TFORCALL, 1, 0, 1),
        abx(TFORLOOP, 1, 4),
        abc(RETURN1, 0, 2, 0),
    ];
    assert_eq!(vm.run(code, vec![native(4)], 9, &[]).ok(), Some(LuaValue::Int(10)));
}

#[test]
fn tables_give_back_what_was_stored() {
    let mut vm = Vm::new();
    let name = vm.text("x");
    let code = vec![
        abc(NEWTABLE, 0, 0, 0),
        abx(EXTRAARG, 0, 0),
        abck(SETFIELD, 0, 0, 1),
        abck(SETI, 0, 7, 2),
        abc(GETFIELD, 1, 0, 0),
        abc(GETI, 2, 0, 7),
        abc(ADD, 1, 1, 2),
        abc(MMBIN, 1, 2, TagMethod::Add as u32),
        abc(RETURN1, 1, 2, 0),
    ];
    let k = vec![name, LuaValue::Int(5), LuaValue::Int(30)];
    assert_eq!(vm.run(code, k, 3, &[]).ok(), Some(LuaValue::Int(35)));
}

#[test]
fn a_list_has_the_length_of_its_items() {
    let mut vm = Vm::new();
    let code = vec![
        abc(NEWTABLE, 0, 0, 3),
        abx(EXTRAARG, 0, 0),
        asbx(LOADI, 1, 11),
        asbx(LOADI, 2, 12),
        asbx(LOADI, 3, 13),
        abc(SETLIST, 0, 3, 0),
        abc(LEN, 1, 0, 0),
        abc(GETI, 2, 0, 2),
        abc(ADD, 1, 1, 2),
        abc(MMBIN, 1, 2, TagMethod::Add as u32),
        abc(RETURN1, 1, 2, 0),
    ];
    assert_eq!(vm.run(code, vec![], 4, &[]).ok(), Some(LuaValue::Int(15)));
}

#[test]
fn a_missing_key_is_looked_up_in_the_index_table() {
    let mut vm = Vm::new();
    let name = vm.text("x");
    let base = vm.table();
    vm.put(base, "x", LuaValue::Int(9));
    let t = vm.with_metamethod("__index", base);
    let code = vec![abc(GETFIELD, 1, 0, 0), abc(RETURN1, 1, 2, 0)];
    assert_eq!(vm.run(code, vec![name], 2, &[t]).ok(), Some(LuaValue::Int(9)));
}

#[test]
fn a_missing_key_is_looked_up_by_the_index_function() {
    let mut vm = Vm::new();
    let name = vm.text("x");
    let t = vm.with_metamethod("__index", native(1));
    let code = vec![abc(GETFIELD, 1, 0, 0), abc(RETURN1, 1, 2, 0)];
    assert_eq!(vm.run(code, vec![name], 2, &[t]).ok(), Some(LuaValue::Int(42)));
}

#[test]
fn indexing_nil_is_a_type_error() {
    let mut vm = Vm::new();
    let name = vm.text("x");
    let code = vec![abc(GETFIELD, 1, 0, 0), abc(RETURN1, 1, 2, 0)];
    match vm.run(code, vec![name], 2, &[LuaValue::Nil]) {
        Err(LuaError::TypeError { value, op, .. }) => {
            assert_eq!(value, LuaValue::Nil);
            assert_eq!(op, TypeOp::Index);
        }
        _ => panic!("an error is due"),
    }
}

#[test]
fn a_write_to_a_missing_key_goes_to_the_newindex_table() {
    let mut vm = Vm::new();
    let name = vm.text("x");
    let store = vm.table();
    let t = vm.with_metamethod("__newindex", store);
    let code = vec![abck(SETFIELD, 0, 0, 1), abc(RETURN1, 0, 2, 0)];
    assert_eq!(vm.run(code, vec![name, LuaValue::Int(3)], 2, &[t]).ok(), Some(t));
    assert_eq!(vm.get(t, name), LuaValue::Nil);
    assert_eq!(vm.get(store, name), LuaValue::Int(3));
}

#[test]
fn a_method_is_fetched_with_its_object() {
    let mut vm = Vm::new();
    let name = vm.text("get");
    let t = vm.table();
    vm.put(t, "get", native(0));
    let code = vec![abck(SELF, 1, 0, 0), abc(CALL, 1, 2, 2), abc(RETURN1, 1, 2, 0)];
    assert_eq!(vm.run(code, vec![name], 3, &[t]).ok(), Some(t));
}

#[test]
fn arithmetic_on_a_table_calls_its_metamethod() {
    let mut vm = Vm::new();
    let t = vm.with_metamethod("__add", native(1));
    let code = vec![
        abc(ADD, 2, 0, 1),
        abc(MMBIN, 0, 1, TagMethod::Add as u32),
        abc(RETURN1, 2, 2, 0),
    ];
    assert_eq!(vm.run(code, vec![], 3, &[t, LuaValue::Int(1)]).ok(), Some(LuaValue::Int(42)));
}

#[test]
fn arithmetic_on_nil_is_a_type_error() {
    let mut vm = Vm::new();
    let code = vec![
        abc(ADD, 2, 0, 1),
        abc(MMBIN, 0, 1, TagMethod::Add as u32),
        abc(RETURN1, 2, 2, 0),
    ];
    match vm.run(code, vec![], 3, &[LuaValue::Nil, LuaValue::Int(1)]) {
        Err(LuaError::TypeError { value, op, .. }) => {
            assert_eq!(value, LuaValue::Nil);
            assert_eq!(op, TypeOp::PerformArithmetic);
        }
        _ => panic!("an error is due"),
    }
}

#[test]
fn arithmetic_takes_the_rules_of_its_operands() {
    let mut vm = Vm::new();
    let div = vec![
        abc(DIV, 2, 0, 1),
        abc(MMBIN, 0, 1, TagMethod::Div as u32),
        abc(RETURN1, 2, 2, 0),
    ];
    assert_eq!(vm.run(div, vec![], 3, &[LuaValue::Int(7), LuaValue::Int(2)]).ok(), Some(float(3.5)));
    let rem = vec![abc(MODK, 1, 0, 0), abc(MMBIN, 0, 0, TagMethod::Mod as u32), abc(RETURN1, 1, 2, 0)];
    assert_eq!(vm.run(rem, vec![LuaValue::Int(3)], 2, &[LuaValue::Int(-7)]).ok(), Some(LuaValue::Int(2)));
    let rem = vec![abc(MODK, 1, 0, 0), abc(MMBIN, 0, 0, TagMethod::Mod as u32), abc(RETURN1, 1, 2, 0)];
    match vm.run(rem, vec![LuaValue::Int(0)], 2, &[LuaValue::Int(7)]) {
        Err(LuaError::RuntimeMsg(m)) => assert_eq!(m, b"attempt to perform 'n%0'".to_vec()),
        _ => panic!("an error is due"),
    }
}

#[test]
fn unary_operations() {
    let mut vm = Vm::new();
    let one = |op: u32| vec![abc(op, 1, 0, 0), abc(RETURN1, 1, 2, 0)];
    assert_eq!(vm.run(one(UNM), vec![], 2, &[LuaValue::Int(5)]).ok(), Some(LuaValue::Int(-5)));
    assert_eq!(
        vm.run(one(UNM), vec![], 2, &[LuaValue::Int(i64::MIN)]).ok(),
        Some(LuaValue::Int(i64::MIN)),
    );
    assert_eq!(vm.run(one(UNM), vec![], 2, &[float(1.5)]).ok(), Some(float(-1.5)));
    assert_eq!(vm.run(one(BNOT), vec![], 2, &[LuaValue::Int(0)]).ok(), Some(LuaValue::Int(-1)));
    assert_eq!(vm.run(one(NOT), vec![], 2, &[LuaValue::Nil]).ok(), Some(LuaValue::Bool(true)));
    assert_eq!(vm.run(one(NOT), vec![], 2, &[LuaValue::Int(0)]).ok(), Some(LuaValue::Bool(false)));
    let s = vm.text("hello");
    assert_eq!(vm.run(one(LEN), vec![], 2, &[s]).ok(), Some(LuaValue::Int(5)));
}

/// Gives 1 where the test holds, and else 0.
fn decide(test: Instruction) -> Vec<Instruction> {
    vec![
        test,
        sj(2),
        asbx(LOADI, 0, 0),
        abc(RETURN1, 0, 2, 0),
        asbx(LOADI, 0, 1),
        abc(RETURN1, 0, 2, 0),
    ]
}

#[test]
fn tests_decide_jumps() {
    let mut vm = Vm::new();
    let (a, b) = (LuaValue::Int(3), float(3.5));
    let lt = abck(LT, 0, 1, 0);
    assert_eq!(vm.run(decide(lt), vec![], 2, &[a, b]).ok(), Some(LuaValue::Int(1)));
    assert_eq!(vm.run(decide(lt), vec![], 2, &[b, a]).ok(), Some(LuaValue::Int(0)));
    let eq = abck(EQ, 0, 1, 0);
    assert_eq!(vm.run(decide(eq), vec![], 2, &[a, float(3.0)]).ok(), Some(LuaValue::Int(1)));
    assert_eq!(vm.run(decide(eq), vec![], 2, &[a, b]).ok(), Some(LuaValue::Int(0)));
    let lti = abck(LTI, 0, 127 + 4, 0);
    assert_eq!(vm.run(decide(lti), vec![], 2, &[a]).ok(), Some(LuaValue::Int(1)));
    assert_eq!(vm.run(decide(lti), vec![], 2, &[LuaValue::Int(4)]).ok(), Some(LuaValue::Int(0)));
    let test = abck(TEST, 0, 0, 0);
    assert_eq!(vm.run(decide(test), vec![], 2, &[LuaValue::Bool(false)]).ok(), Some(LuaValue::Int(0)));
    assert_eq!(vm.run(decide(test), vec![], 2, &[a]).ok(), Some(LuaValue::Int(1)));
    let (s, t) = (vm.text("abc"), vm.text("abd"));
    assert_eq!(vm.run(decide(lt), vec![], 2, &[s, t]).ok(), Some(LuaValue::Int(1)));
}

#[test]
fn comparisons_call_metamethods() {
    let mut vm = Vm::new();
    let yes = vm.with_metamethod("__lt", native(2));
    let no = vm.with_metamethod("__lt", native(3));
    let lt = abck(LT, 0, 1, 0);
    assert_eq!(vm.run(decide(lt), vec![], 2, &[yes, LuaValue::Int(1)]).ok(), Some(LuaValue::Int(1)));
    assert_eq!(vm.run(decide(lt), vec![], 2, &[no, LuaValue::Int(1)]).ok(), Some(LuaValue::Int(0)));
    let a = vm.with_metamethod("__eq", native(2));
    let b = vm.table();
    let eq = abck(EQ, 0, 1, 0);
    assert_eq!(vm.run(decide(eq), vec![], 2, &[a, b]).ok(), Some(LuaValue::Int(1)));
    match vm.run(decide(lt), vec![], 2, &[b, b]) {
        Err(LuaError::OrderError { left, right }) => {
            assert_eq!(left, b);
            assert_eq!(right, b);
        }
        _ => panic!("an error is due"),
    }
}

#[test]
fn texts_and_numbers_are_joined() {
    let mut vm = Vm::new();
    let (a, b) = (vm.text("a"), vm.text("b"));
    let code = vec![abc(CONCAT, 0, 3, 0), abc(RETURN1, 0, 2, 0)];
    let r = vm.run(code, vec![], 3, &[a, LuaValue::Int(-12), b]).ok().expect("a text");
    assert_eq!(vm.bytes(r), b"a-12b".to_vec());
    let code = vec![abc(CONCAT, 0, 2, 0), abc(RETURN1, 0, 2, 0)];
    let t = vm.with_metamethod("__concat", native(1));
    assert_eq!(vm.run(code, vec![], 2, &[a, t]).ok(), Some(LuaValue::Int(42)));
    let code = vec![abc(CONCAT, 0, 2, 0), abc(RETURN1, 0, 2, 0)];
    match vm.run(code, vec![], 2, &[a, LuaValue::Nil]) {
        Err(LuaError::TypeError { value, op, .. }) => {
            assert_eq!(value, LuaValue::Nil);
            assert_eq!(op, TypeOp::Concatenate);
        }
        _ => panic!("an error is due"),
    }
}

#[test]
fn a_function_calls_another() {
    let mut vm = Vm::new();
    let double = vm.function(
        vec![abc(ADD, 0, 0, 0), abc(MMBIN, 0, 0, TagMethod::Add as u32), abc(RETURN1, 0, 2, 0)],
        vec![],
        2,
    );
    let code = vec![
        abx(LOADK, 0, 0),
        asbx(LOADI, 1, 21),
        abc(CALL, 0, 2, 2),
        abc(MOVE, 1, 0, 0),
        abc(RETURN1, 1, 2, 0),
    ];
    let k = vec![LuaValue::Function(LuaClosure::Lua(double))];
    assert_eq!(vm.run(code, k, 3, &[]).ok(), Some(LuaValue::Int(42)));
}

#[test]
fn a_return_hands_over_its_values() {
    let mut vm = Vm::new();
    let code = vec![asbx(LOADI, 0, 5), asbx(LOADI, 1, 6), abc(RETURN, 0, 3, 0)];
    assert_eq!(vm.run(code, vec![], 2, &[]).ok(), Some(LuaValue::Int(5)));
    let code = vec![abc(RETURN0, 0, 1, 0)];
    assert_eq!(vm.run(code, vec![], 2, &[]).ok(), Some(LuaValue::Nil));
}

#[test]
fn a_tail_call_is_handed_to_the_host() {
    let mut vm = Vm::new();
    let c = vm.function(vec![abx(LOADK, 0, 0), abc(TAILCALL, 0, 1, 0)], vec![native(1)], 2);
    let func = vm.s.top;
    vm.s.push(LuaValue::Function(LuaClosure::Lua(c)));
    let mut f = vm.enter(func, 1);
    match vm.s.execute(&mut vm.g, &mut f, 100) {
        RunStop::Step(Ok(step)) => assert_eq!(
            step,
            Step::TailCall { func: StackIdx(func.0 + 1), narg1: 1, delta: 0, close: false },
        ),
        _ => panic!("a request is due"),
    }
}

#[test]
fn closures_share_captured_variables() {
    let mut vm = Vm::new();
    // Adds one to the captured variable and returns it.
    let child = vm.proto(
        vec![
            abc(GETUPVAL, 0, 0, 0),
            abc(ADDI, 0, 0, 128),
            abc(MMBINI, 0, 128, TagMethod::Add as u32),
            abc(SETUPVAL, 0, 0, 0),
            abc(RETURN1, 0, 2, 0),
        ],
        vec![],
        2,
    );
    vm.g.heap.protos.items[child.0].upvalues.push(UpvalDesc { name: None, instack: true, idx: 0, kind: 0 });
    let p = vm.proto(
        vec![
            asbx(LOADI, 0, 10),
            abx(CLOSURE, 1, 0),
            abc(MOVE, 2, 1, 0),
            abc(CALL, 2, 1, 1),
            abc(MOVE, 2, 1, 0),
            abc(CALL, 2, 1, 1),
            abc(RETURN1, 0, 2, 0),
        ],
        vec![],
        5,
    );
    vm.g.heap.protos.items[p.0].p.push(child);
    let c = vm.s.new_lclosure(&mut vm.g, p, 0);
    assert_eq!(vm.run_closure(c, &[]).ok(), Some(LuaValue::Int(12)));
}

#[test]
fn globals_are_fields_of_the_environment() {
    let mut vm = Vm::new();
    let name = vm.text("x");
    let env = vm.table();
    vm.put(env, "x", LuaValue::Int(77));
    let p = vm.proto(vec![abc(GETTABUP, 0, 0, 0), abc(RETURN1, 0, 2, 0)], vec![name], 2);
    let c = vm.s.new_lclosure(&mut vm.g, p, 0);
    let u = vm.s.new_upval_closed(&mut vm.g, env);
    vm.g.heap.lclosures.items[c.0].upvals.push(u);
    assert_eq!(vm.run_closure(c, &[]).ok(), Some(LuaValue::Int(77)));
}

#[test]
fn extra_arguments_are_kept_and_copied() {
    let mut vm = Vm::new();
    vm.g.lua_version = LuaVersion::V54;
    let code = vec![
        abc(VARARGPREP, 1, 0, 0),
        abc(VARARG, 1, 0, 3),
        abc(ADD, 1, 1, 2),
        abc(MMBIN, 1, 2, TagMethod::Add as u32),
        abc(ADD, 1, 1, 0),
        abc(MMBIN, 1, 0, TagMethod::Add as u32),
        abck(RETURN, 1, 2, 2),
    ];
    let p = vm.proto(code, vec![], 3);
    vm.g.heap.protos.items[p.0].numparams = 1;
    vm.g.heap.protos.items[p.0].is_vararg = true;
    let c = vm.s.new_lclosure(&mut vm.g, p, 0);
    let func = vm.s.top;
    vm.s.push(LuaValue::Function(LuaClosure::Lua(c)));
    for i in [100, 20, 3] {
        vm.s.push(LuaValue::Int(i));
    }
    let mut f = vm.enter(func, 1);
    let mut last = None;
    while last.is_none() {
        match vm.s.execute(&mut vm.g, &mut f, 1) {
            RunStop::Spent => {}
            RunStop::Step(Ok(s @ Step::CloseReturn { .. })) => last = Some(s),
            RunStop::Step(Ok(s)) => {
                assert_eq!(vm.serve(&mut f, s).ok(), Some(false));
            }
            _ => panic!("a request is due"),
        }
    }
    let (ra, n, nparams1) = match last {
        Some(Step::CloseReturn { ra, n, nparams1, .. }) => (ra, n, nparams1),
        _ => unreachable!(),
    };
    assert_eq!((n, nparams1), (1, 2));
    let end = vm.s.finish_return(&f, ra, n, nparams1);
    assert_eq!(vm.serve(&mut f, end).ok(), Some(true));
    assert_eq!(vm.s.get_at(func), LuaValue::Int(123));
}

#[test]
fn a_run_stops_for_hooks_and_at_the_end_of_the_code() {
    let mut vm = Vm::new();
    let c = vm.function(vec![asbx(LOADI, 0, 1)], vec![], 1);
    let func = vm.s.top;
    vm.s.push(LuaValue::Function(LuaClosure::Lua(c)));
    let mut f = vm.enter(func, 1);
    f.trap = true;
    assert!(matches!(vm.s.execute(&mut vm.g, &mut f, 10), RunStop::Trap));
    f.trap = false;
    assert!(matches!(vm.s.execute(&mut vm.g, &mut f, 0), RunStop::Spent));
    assert!(matches!(vm.s.execute(&mut vm.g, &mut f, 10), RunStop::Stuck));
    assert_eq!(f.pc, 1);
    assert_eq!(vm.s.get_at(StackIdx(func.0 + 1)), LuaValue::Int(1));
    let base = vm.s.call_info[0].func;
    assert!(vm.s.get_at(base) == LuaValue::Nil);
    let none = vm.s.enter_frame(&vm.g, lua_vm::value::CallInfoIdx(0), false);
    match none {
        Err(LuaError::RuntimeMsg(m)) => {
            assert_eq!(m, b"internal: execute called on non-Lua frame".to_vec())
        }
        _ => panic!("an error is due"),
    }
}

#[test]
fn an_interrupted_operation_takes_the_result_of_its_call() {
    let mut vm = Vm::new();
    let t = vm.with_metamethod("__add", native(1));
    let code = vec![
        abc(ADD, 2, 0, 1),
        abc(MMBIN, 0, 1, TagMethod::Add as u32),
        abc(RETURN1, 2, 2, 0),
    ];
    let c = vm.function(code, vec![], 3);
    let func = vm.s.top;
    vm.s.push(LuaValue::Function(LuaClosure::Lua(c)));
    vm.s.push(t);
    vm.s.push(LuaValue::Int(1));
    let mut f = vm.enter(func, 1);
    let bin = match vm.s.execute(&mut vm.g, &mut f, 10) {
        RunStop::Step(Ok(s)) => s,
        _ => panic!("a request is due"),
    };
    let call = match bin {
        Step::Bin { p1, p1_idx, p2, p2_idx, event, res } => {
            vm.s.finish_bin(&vm.g, &mut f, p1, p1_idx, None, p2, p2_idx, None, event, res)
        }
        _ => panic!("a metamethod is due"),
    };
    let request = match call {
        Ok(Step::Call { request, .. }) => request,
        _ => panic!("a call is due"),
    };
    vm.call_native(1, request.func, request.nresults);
    assert_eq!(vm.s.finish_op(&mut vm.g, &f).ok(), Some(Step::Next));
    assert!(vm.drive(&mut f, u64::MAX).is_ok());
    assert_eq!(vm.s.get_at(func), LuaValue::Int(42));
}

fn one_reg(vm: &mut Vm, i: Instruction, k: Vec<LuaValue>, args: &[LuaValue]) -> Result<LuaValue, LuaError> {
    // The operands are the first registers; the result is in register 3.
    vm.run(vec![i, abc(MMBIN, 0, 1, TagMethod::Add as u32), abc(RETURN1, 3, 2, 0)], k, 5, args)
}

#[test]
fn integer_operations_with_constants() {
    let mut vm = Vm::new();
    let int = LuaValue::Int;
    let mut k = |op: u32, x: LuaValue, y: LuaValue| one_reg(&mut vm, abc(op, 3, 0, 0), vec![y], &[x]).ok();
    assert_eq!(k(ADDK, int(i64::MAX), int(1)), Some(int(i64::MIN)));
    assert_eq!(k(SUBK, int(5), int(7)), Some(int(-2)));
    assert_eq!(k(MULK, int(6), int(7)), Some(int(42)));
    assert_eq!(k(MULK, int(6), float(0.5)), Some(float(3.0)));
    assert_eq!(k(IDIVK, int(-7), int(2)), Some(int(-4)));
    assert_eq!(k(IDIVK, float(-7.0), int(2)), Some(float(-4.0)));
    assert_eq!(k(DIVK, int(1), int(4)), Some(float(0.25)));
    assert_eq!(k(POWK, int(3), int(2)), Some(float(9.0)));
    assert_eq!(k(POWK, int(2), int(10)), Some(float(1024.0)));
    assert_eq!(k(MODK, float(-7.5), int(2)), Some(float(0.5)));
    assert_eq!(k(BANDK, int(0xff), int(0x0f)), Some(int(0x0f)));
    assert_eq!(k(BORK, int(0xf0), int(0x0f)), Some(int(0xff)));
    assert_eq!(k(BXORK, float(3.0), int(1)), Some(int(2)));
}

#[test]
fn integer_operations_on_registers() {
    let mut vm = Vm::new();
    let int = LuaValue::Int;
    let mut rr = |op: u32, x: LuaValue, y: LuaValue| one_reg(&mut vm, abc(op, 3, 0, 1), vec![], &[x, y]).ok();
    assert_eq!(rr(SUB, int(1), float(0.5)), Some(float(0.5)));
    assert_eq!(rr(MUL, int(-3), int(5)), Some(int(-15)));
    assert_eq!(rr(MOD, int(7), int(-3)), Some(int(-2)));
    assert_eq!(rr(POW, float(9.0), float(0.5)), Some(float(3.0)));
    assert_eq!(rr(IDIV, int(i64::MIN), int(-1)), Some(int(i64::MIN)));
    assert_eq!(rr(BAND, int(6), int(3)), Some(int(2)));
    assert_eq!(rr(BOR, int(6), int(3)), Some(int(7)));
    assert_eq!(rr(BXOR, int(6), int(3)), Some(int(5)));
    assert_eq!(rr(SHL, int(1), int(4)), Some(int(16)));
    assert_eq!(rr(SHL, int(1), int(64)), Some(int(0)));
    assert_eq!(rr(SHR, int(-1), int(60)), Some(int(15)));
    assert_eq!(rr(SHR, float(16.0), int(-1)), Some(int(32)));
    // R[A] := R[B] >> sC and R[A] := sC << R[B]
    let mut imm = |op: u32, x: LuaValue, c: i32| {
        one_reg(&mut vm, abc(op, 3, 0, (c + 127) as u32), vec![], &[x]).ok()
    };
    assert_eq!(imm(SHRI, int(256), 4), Some(int(16)));
    assert_eq!(imm(SHRI, int(1), -4), Some(int(16)));
    assert_eq!(imm(SHLI, int(4), 1), Some(int(16)));
    assert_eq!(imm(ADDI, float(1.5), -2), Some(float(-0.5)));
}

#[test]
fn loads_put_constants_in_registers() {
    let mut vm = Vm::new();
    let ret = abc(RETURN1, 0, 2, 0);
    assert_eq!(vm.run(vec![abc(LOADTRUE, 0, 0, 0), ret], vec![], 2, &[]).ok(), Some(LuaValue::Bool(true)));
    assert_eq!(vm.run(vec![abc(LOADFALSE, 0, 0, 0), ret], vec![], 2, &[]).ok(), Some(LuaValue::Bool(false)));
    assert_eq!(
        vm.run(vec![abc(LFALSESKIP, 0, 0, 0), abc(LOADTRUE, 0, 0, 0), ret], vec![], 2, &[]).ok(),
        Some(LuaValue::Bool(false)),
    );
    assert_eq!(
        vm.run(vec![abc(LOADKX, 0, 0, 0), Instruction(EXTRAARG | 1 << 7), ret], vec![LuaValue::Nil, float(2.5)], 2, &[])
            .ok(),
        Some(float(2.5)),
    );
    assert_eq!(vm.run(vec![asbx(LOADF, 0, -3), ret], vec![], 2, &[]).ok(), Some(float(-3.0)));
    assert_eq!(
        vm.run(vec![abc(LOADNIL, 0, 1, 0), abc(RETURN1, 1, 2, 0)], vec![], 2, &[LuaValue::Int(1), LuaValue::Int(2)]).ok(),
        Some(LuaValue::Nil),
    );
}

#[test]
fn comparisons_with_immediate_numbers() {
    let mut vm = Vm::new();
    let int = LuaValue::Int;
    let mut imm = |op: u32, x: LuaValue, b: i32| {
        vm.run(decide(abck(op, 0, (b + 127) as u32, 0)), vec![], 2, &[x]).ok() == Some(LuaValue::Int(1))
    };
    assert!(imm(EQI, int(5), 5) && imm(EQI, float(5.0), 5));
    assert!(!imm(EQI, float(5.5), 5) && !imm(EQI, LuaValue::Nil, 5));
    assert!(imm(LEI, int(5), 5) && !imm(LEI, float(5.5), 5));
    assert!(imm(GTI, float(5.5), 5) && !imm(GTI, int(5), 5));
    assert!(imm(GEI, int(5), 5) && !imm(GEI, float(f64::NAN), 5));
    assert!(imm(LTI, int(-6), -5));
    let mut eqk = |x: LuaValue, y: LuaValue| {
        vm.run(decide(abck(EQK, 0, 0, 0)), vec![y], 2, &[x]).ok() == Some(LuaValue::Int(1))
    };
    assert!(eqk(int(1), float(1.0)));
    assert!(!eqk(LuaValue::Bool(false), LuaValue::Nil));
    // Without k the test is negated.
    assert_eq!(vm.run(decide(abc(EQI, 0, 127 + 5, 0)), vec![], 2, &[int(5)]).ok(), Some(int(0)));
    let le = abck(LE, 0, 1, 0);
    assert_eq!(vm.run(decide(le), vec![], 2, &[int(2), float(2.0)]).ok(), Some(int(1)));
}

#[test]
fn an_immediate_comparison_may_ask_a_metamethod() {
    let mut vm = Vm::new();
    let t = vm.with_metamethod("__lt", native(2));
    let lti = abck(LTI, 0, 127 + 4, 0);
    assert_eq!(vm.run(decide(lti), vec![], 2, &[t]).ok(), Some(LuaValue::Int(1)));
    // Up to 5.4 the missing `<=` is made up for by the negation of `<` the other way round.
    let lei = abck(LEI, 0, 127 + 4, 0);
    assert_eq!(vm.run(decide(lei), vec![], 2, &[t]).ok(), Some(LuaValue::Int(0)));
}

#[test]
fn a_value_is_kept_where_its_test_holds() {
    let mut vm = Vm::new();
    // R0 := R1 where R1 is true, as in `x or y`.
    let code = vec![abck(TESTSET, 0, 1, 0), sj(1), asbx(LOADI, 0, 7), abc(RETURN1, 0, 2, 0)];
    assert_eq!(vm.run(code.clone(), vec![], 2, &[LuaValue::Nil, LuaValue::Int(3)]).ok(), Some(LuaValue::Int(3)));
    assert_eq!(vm.run(code, vec![], 2, &[LuaValue::Nil, LuaValue::Nil]).ok(), Some(LuaValue::Int(7)));
}

#[test]
fn tables_are_indexed_by_registers() {
    let mut vm = Vm::new();
    let t = vm.table();
    let code = vec![abc(SETTABLE, 0, 1, 2), abc(GETTABLE, 3, 0, 1), abc(RETURN1, 3, 2, 0)];
    let key = vm.text("key");
    for k in [key, LuaValue::Int(1), float(1.5), LuaValue::Bool(true), t] {
        let v = LuaValue::Int(99);
        assert_eq!(vm.run(code.clone(), vec![], 4, &[t, k, v]).ok(), Some(v));
    }
    // A float key with an integer value is the integer.
    assert_eq!(vm.run(code.clone(), vec![], 4, &[t, float(1.0), LuaValue::Int(5)]).ok(), Some(LuaValue::Int(5)));
    assert_eq!(vm.get(t, LuaValue::Int(1)), LuaValue::Int(5));
    assert!(matches!(
        vm.run(code.clone(), vec![], 4, &[t, LuaValue::Nil, LuaValue::Int(5)]),
        Err(LuaError::NilKey),
    ));
    assert!(matches!(
        vm.run(code, vec![], 4, &[t, float(f64::NAN), LuaValue::Int(5)]),
        Err(LuaError::NanKey),
    ));
}

#[test]
fn a_global_is_written_to_the_environment() {
    let mut vm = Vm::new();
    let name = vm.text("x");
    let env = vm.table();
    let p = vm.proto(
        vec![abck(SETTABUP, 0, 0, 1), abc(GETTABUP, 0, 0, 0), abc(RETURN1, 0, 2, 0)],
        vec![name, LuaValue::Int(8)],
        2,
    );
    let c = vm.s.new_lclosure(&mut vm.g, p, 0);
    let u = vm.s.new_upval_closed(&mut vm.g, env);
    vm.g.heap.lclosures.items[c.0].upvals.push(u);
    assert_eq!(vm.run_closure(c, &[]).ok(), Some(LuaValue::Int(8)));
    assert_eq!(vm.get(env, name), LuaValue::Int(8));
    // An environment that is no table is named by its upvalue in the error.
    let u = vm.s.new_upval_closed(&mut vm.g, LuaValue::Nil);
    vm.g.heap.lclosures.items[c.0].upvals[0] = u;
    match vm.run_closure(c, &[]) {
        Err(LuaError::UpvalueTypeError { value, upvalue, op }) => {
            assert_eq!((value, upvalue, op), (LuaValue::Nil, 0, TypeOp::Index));
        }
        _ => panic!("an error is due"),
    }
}

#[test]
fn a_constructor_names_the_sizes_of_its_table() {
    let mut vm = Vm::new();
    // A hash size of 2^(4-1), an array size of 5 + 2 * 256.
    let c = vm.function(vec![abck(NEWTABLE, 0, 4, 5), Instruction(EXTRAARG | 2 << 7)], vec![], 2);
    let func = vm.s.top;
    vm.s.push(LuaValue::Function(LuaClosure::Lua(c)));
    let mut f = vm.enter(func, 1);
    match vm.s.execute(&mut vm.g, &mut f, 10) {
        RunStop::Step(Ok(Step::NewTable { table, array, hash })) => {
            assert_eq!(vm.s.get_at(StackIdx(func.0 + 1)), LuaValue::Table(table));
            assert_eq!((array, hash), (517, 8));
        }
        _ => panic!("a request is due"),
    }
    assert_eq!(f.pc, 2);
}

#[test]
fn scopes_end_at_the_host() {
    let mut vm = Vm::new();
    let c = vm.function(vec![abc(TBC, 1, 0, 0), abc(CLOSE, 1, 0, 0)], vec![], 2);
    let func = vm.s.top;
    vm.s.push(LuaValue::Function(LuaClosure::Lua(c)));
    let mut f = vm.enter(func, 1);
    let level = StackIdx(func.0 + 2);
    match vm.s.execute(&mut vm.g, &mut f, 10) {
        RunStop::Step(Ok(s)) => assert_eq!(s, Step::Tbc { level }),
        _ => panic!("a request is due"),
    }
    match vm.s.execute(&mut vm.g, &mut f, 10) {
        RunStop::Step(Ok(s)) => assert_eq!(s, Step::Close { level }),
        _ => panic!("a request is due"),
    }
}

#[test]
fn a_stand_in_for_an_order_is_negated_after_a_yield() {
    for (n, expected) in [(2, 0), (3, 1)] {
        let mut vm = Vm::new();
        let t = vm.with_metamethod("__lt", native(n));
        let u = vm.table();
        let c = vm.function(decide(abck(LE, 0, 1, 0)), vec![], 2);
        let func = vm.s.top;
        vm.s.push(LuaValue::Function(LuaClosure::Lua(c)));
        vm.s.push(u);
        vm.s.push(t);
        let mut f = vm.enter(func, 1);
        let request = match vm.s.execute(&mut vm.g, &mut f, 10) {
            RunStop::Step(Ok(Step::Call { request, then })) => {
                assert_eq!(then, After::Order { negate: true });
                request
            }
            _ => panic!("a call is due"),
        };
        assert_ne!(vm.s.call_info[f.ci.0 as usize].callstatus & CIST_LEQ, 0);
        vm.call_native(n, request.func, request.nresults);
        assert_eq!(vm.s.finish_op(&mut vm.g, &f).ok(), Some(Step::Next));
        assert_eq!(vm.s.call_info[f.ci.0 as usize].callstatus & CIST_LEQ, 0);
        let mut f = vm.s.enter_frame(&vm.g, f.ci, false).expect("a Lua frame");
        assert!(vm.drive(&mut f, u64::MAX).is_ok());
        assert_eq!(vm.s.get_at(func), LuaValue::Int(expected));
    }
}

#[test]
fn an_extra_argument_on_its_own_is_passed_over() {
    let mut vm = Vm::new();
    let c = vm.function(vec![abx(EXTRAARG, 0, 0), asbx(LOADI, 0, 7)], vec![], 1);
    let func = vm.s.top;
    vm.s.push(LuaValue::Function(LuaClosure::Lua(c)));
    let mut f = vm.enter(func, 1);
    assert!(matches!(vm.s.execute(&mut vm.g, &mut f, 1), RunStop::Spent));
    assert_eq!(f.pc, 1);
    assert!(matches!(vm.s.execute(&mut vm.g, &mut f, 1), RunStop::Spent));
    assert_eq!(vm.s.get_at(StackIdx(func.0 + 1)), LuaValue::Int(7));
}

#[test]
fn a_register_on_the_stack_can_be_used() {
    let mut vm = Vm::new();
    let c = vm.function(vec![asbx(LOADI, 5, 7), abc(MOVE, 0, 5, 0), asbx(LOADI, 200, 1)], vec![], 1);
    let func = vm.s.top;
    vm.s.push(LuaValue::Function(LuaClosure::Lua(c)));
    let mut f = vm.enter(func, 1);
    assert!(matches!(vm.s.execute(&mut vm.g, &mut f, 10), RunStop::Stuck));
    assert_eq!(f.pc, 2);
    assert_eq!(vm.s.get_at(StackIdx(func.0 + 1)), LuaValue::Int(7));
}

#[test]
fn closures_of_one_prototype_are_shared_in_some_versions() {
    for (version, shared) in [
        (LuaVersion::V51, false),
        (LuaVersion::V52, true),
        (LuaVersion::V53, true),
        (LuaVersion::V54, false),
    ] {
        let mut vm = Vm::new();
        vm.g.lua_version = version;
        let parent = vm.function(vec![], vec![], 1);
        let child = vm.proto(vec![], vec![], 1);
        let ra = StackIdx(0);
        let mut made = Vec::new();
        for _ in 0..2 {
            vm.s.push_closure(&mut vm.g, parent, child, &vec![], ra);
            match vm.s.get_at(ra) {
                LuaValue::Function(LuaClosure::Lua(c)) => made.push(c),
                other => panic!("not a Lua function: {:?}", other),
            }
        }
        assert_eq!(made[0] == made[1], shared);
        for c in made {
            assert_eq!(vm.g.heap.lclosures.items[c.0].proto, child);
        }
    }
}

#[test]
fn instructions_tell_of_what_they_store() {
    let mut vm = Vm::new();
    let key = vm.text("key");
    let (t, u) = match (vm.table(), vm.table()) {
        (LuaValue::Table(t), LuaValue::Table(u)) => (t, u),
        _ => unreachable!(),
    };
    let back = |child| Barrier::Backward { parent: GcRef::Table(t), child, touch: false };
    let name = match key {
        LuaValue::Str(s) => GcRef::Str(s),
        _ => unreachable!(),
    };
    let code = vec![abc(SETFIELD, 0, 0, 1), abc(SETLIST, 0, 2, 0), abc(SETUPVAL, 1, 0, 0)];
    let p = vm.proto(code, vec![key], 4);
    let c = vm.s.new_lclosure(&mut vm.g, p, 1);
    let uv = vm.g.heap.lclosures.items[c.0].upvals[0];
    let func = vm.s.top;
    vm.s.push(LuaValue::Function(LuaClosure::Lua(c)));
    for v in [LuaValue::Table(t), LuaValue::Table(u), key] {
        vm.s.push(v);
    }
    let mut f = vm.enter(func, 1);
    assert!(matches!(vm.s.execute(&mut vm.g, &mut f, 1), RunStop::Spent));
    assert_eq!(vm.g.take_barriers(), vec![back(name), back(GcRef::Table(u))]);
    assert!(matches!(vm.s.execute(&mut vm.g, &mut f, 1), RunStop::Spent));
    assert_eq!(vm.g.take_barriers(), vec![back(name), back(GcRef::Table(u))]);
    assert!(matches!(vm.s.execute(&mut vm.g, &mut f, 1), RunStop::Spent));
    assert_eq!(
        vm.g.take_barriers(),
        vec![Barrier::Forward { parent: GcRef::UpVal(uv), child: GcRef::Table(u) }]
    );
}
