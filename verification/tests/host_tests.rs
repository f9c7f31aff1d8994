use lua_vm::access::{arith_op_numbered, stack_idx_to_i32, NumberedOp, Stringed};
use lua_vm::boot::{make_seed, new_state};
use lua_vm::callinfo::{CallInfo, CIST_C, CIST_LEQ};
use lua_vm::close::Closing;
use lua_vm::exec_regs::ArithOp;
use lua_vm::global::{GlobalState, TestWarnMode, WarnMode};
use lua_vm::host::{
    decimal_of, deterministic_entropy, imported_file_open, imported_stdin, last_error_info, last_trip,
    lua_error_bytes, read_complete, read_request, seek_request, version_from_code, Embedding, ImportedFileHandle,
    LastError, LuaByteHasher, Opened, SeekFrom,
};
use lua_vm::roots::ExternalRootSet;
use lua_vm::sandbox::{SandboxLimits, SANDBOX_TRIP_INSTRUCTIONS, SANDBOX_TRIP_MEMORY, SANDBOX_TRIP_NONE};
use lua_vm::smoke::{scripted_env, ScriptedHost};
use lua_vm::state::LuaState;
use lua_vm::value::{LuaError, LuaStatus, LuaValue, LuaVersion, StackIdx, TypeOp};
use lua_vm::warn::Warning;

fn fresh() -> (LuaState, GlobalState) {
    new_state(1_700_000_000).expect("state should initialize")
}

fn limits(instructions: Option<u64>, memory: Option<usize>) -> SandboxLimits {
    let (_s, mut g) = fresh();
    g.sandbox.install(100, instructions, memory);
    g.sandbox
}

fn abort_text(e: Option<LuaError>) -> Vec<u8> {
    match e {
        Some(LuaError::RuntimeMsg(m)) => m,
        _ => panic!("an abort is due"),
    }
}

#[test]
fn instructions_are_charged_until_none_are_left() {
    let mut s = limits(Some(1000), None);
    assert!(s.charge(400, 0).is_none());
    assert!(s.charge(599, 0).is_none());
    assert_eq!(s.instr_remaining, 1);
    assert_eq!(abort_text(s.charge(1, 0)), b"sandbox: instruction budget exhausted".to_vec());
    assert_eq!(s.tripped, SANDBOX_TRIP_INSTRUCTIONS);
    assert!(s.aborting);
    assert_eq!(abort_text(s.charge(0, 0)), b"sandbox: instruction budget exhausted".to_vec());
    s.reset();
    assert_eq!(s.tripped, SANDBOX_TRIP_NONE);
    assert_eq!(s.instr_remaining, 1000);
    assert!(!s.aborting);
    assert!(s.charge(2000, 0).is_some());
}

#[test]
fn memory_is_held_against_its_ceiling() {
    let mut s = limits(None, Some(500));
    assert!(s.charge_interval(500).is_none());
    assert_eq!(abort_text(s.charge_interval(501)), b"sandbox: memory limit exceeded".to_vec());
    assert_eq!(s.tripped, SANDBOX_TRIP_MEMORY);
    let mut s = limits(None, Some(500));
    assert!(s.reserve(400, 100).is_none());
    assert!(s.reserve(400, 101).is_some());
    assert!(s.reserve(usize::MAX, usize::MAX).is_some());
}

#[test]
fn without_a_sandbox_nothing_is_charged() {
    let (_s, mut g) = fresh();
    assert!(!g.sandbox.is_active());
    assert!(g.sandbox.charge(u64::MAX, usize::MAX).is_none());
    assert!(g.sandbox.reserve(usize::MAX, 1).is_none());
    assert!(!g.sandbox_active());
}

#[test]
fn roots_are_found_by_their_keys() {
    let mut r = ExternalRootSet { slots: Vec::new(), free: Vec::new(), live: 0 };
    let a = r.insert(LuaValue::Int(1));
    let b = r.insert(LuaValue::Int(2));
    assert_eq!(r.len(), 2);
    assert_eq!(r.remove(a), Some(LuaValue::Int(1)));
    assert_eq!(r.vacant_len(), 1);
    let c = r.insert(LuaValue::Int(3));
    assert_eq!(c.index, a.index);
    assert_eq!(r.get(a), None);
    assert_eq!(r.remove(a), None);
    assert_eq!(r.replace(a, LuaValue::Nil), None);
    assert_eq!(r.get(c), Some(LuaValue::Int(3)));
    assert_eq!(r.replace(b, LuaValue::Int(4)), Some(LuaValue::Int(2)));
    assert_eq!(r.get(b), Some(LuaValue::Int(4)));
    let mut all: Vec<LuaValue> = r.iter_values();
    all.sort_by_key(|v| match v {
        LuaValue::Int(i) => *i,
        _ => 0,
    });
    assert_eq!(all, vec![LuaValue::Int(3), LuaValue::Int(4)]);
    assert!(!r.is_empty());
}

fn written(w: Warning) -> Vec<u8> {
    match w {
        Warning::Write(b) => b,
        _ => panic!("something is to be written"),
    }
}

#[test]
fn warnings_are_off_until_they_are_turned_on() {
    let (_s, mut g) = fresh();
    assert_eq!(g.warn_mode, WarnMode::Off);
    assert!(matches!(g.default_warn(b"unheard", false), Warning::Silent));
    assert!(matches!(g.default_warn(b"@on", false), Warning::Silent));
    assert_eq!(written(g.default_warn(b"heard", false)), b"Lua warning: heard\n".to_vec());
    assert!(matches!(g.default_warn(b"@unknown", false), Warning::Silent));
    assert!(matches!(g.default_warn(b"@off", false), Warning::Silent));
    assert!(matches!(g.default_warn(b"unheard", false), Warning::Silent));
}

#[test]
fn the_parts_of_a_warning_are_one_line() {
    let (_s, mut g) = fresh();
    g.warn_mode = WarnMode::On;
    let mut line = written(g.default_warn(b"a", true));
    line.extend(written(g.default_warn(b"@off", false)));
    assert_eq!(line, b"Lua warning: a@off\n".to_vec());
    assert_eq!(g.warn_mode, WarnMode::On);
    let (_s, mut h) = fresh();
    h.warn_mode = WarnMode::On;
    assert_eq!(written(h.default_warn(b"a@off", false)), line);
}

#[test]
fn the_test_handler_goes_first() {
    let (mut s, mut g) = fresh();
    assert!(matches!(s.emit_warning(&mut g, true, b"x", false), Warning::Handler));
    s.enable_test_warning_handler(&mut g);
    assert!(matches!(s.emit_warning(&mut g, true, b"@store", false), Warning::Silent));
    assert_eq!(g.test_warn_mode, TestWarnMode::Store);
    assert!(matches!(s.emit_warning(&mut g, true, b"one ", true), Warning::Silent));
    match s.emit_warning(&mut g, true, b"two", false) {
        Warning::Store(b) => assert_eq!(b, b"one two".to_vec()),
        _ => panic!("a stored message is due"),
    }
    g.test_warn(b"@on", false);
    g.test_warn(b"@normal", false);
    assert!(matches!(g.test_warn(b"quiet", false), Warning::Silent));
    assert_eq!(written(g.test_warn(b"#loud", false)), b"Lua warning: #loud\n".to_vec());
    g.test_warn(b"@allow", false);
    assert_eq!(written(g.test_warn(b"any", false)), b"Lua warning: any\n".to_vec());
}

#[test]
fn byte_hashes_do_not_depend_on_how_bytes_are_cut() {
    let mut a = LuaByteHasher::default();
    assert_eq!(a.finish(), 0xcbf2_9ce4_8422_2325);
    a.write(b"a");
    assert_eq!(a.finish(), 0xaf63_dc4c_8601_ec8c);
    a.write(b"bc");
    let mut b = LuaByteHasher::default();
    b.write(b"abc");
    assert_eq!(a.finish(), b.finish());
    let mut c = LuaByteHasher::default();
    for x in b"abc" {
        c.write_u8(*x);
    }
    assert_eq!(c.finish(), b.finish());
}

#[test]
fn versions_have_codes() {
    assert_eq!(version_from_code(0x51), Some(LuaVersion::V51));
    assert_eq!(version_from_code(0x55), Some(LuaVersion::V55));
    assert_eq!(version_from_code(0x56), None);
    let mut e = Embedding::default();
    assert_eq!(e.version_code(), 0x54);
    assert!(e.set_version(0x53));
    assert_eq!(e.version_code(), 0x53);
    assert!(!e.set_version(0x1f));
    assert_eq!(e.version_code(), 0x53);
    assert_eq!(e.last_error, b"unknown Lua version code: 0x1f".to_vec());
}

#[test]
fn the_last_error_is_kept_for_reading() {
    let (mut s, g) = fresh();
    let mut g = g;
    let mut e = Embedding::default();
    assert!(matches!(e.last_error_read(Some(100)), LastError::Absent));
    let text = LuaValue::Str(s.intern_str(&mut g, b"raised"));
    assert_eq!(e.finish(&g.heap, &Err(LuaError::Runtime(text)), b"other".to_vec()), 0);
    assert_eq!(e.last_error_len(), 6);
    assert!(matches!(e.last_error_read(None), LastError::NoRoom));
    assert!(matches!(e.last_error_read(Some(5)), LastError::NoRoom));
    match e.last_error_read(Some(6)) {
        LastError::Text(b) => assert_eq!(b, b"raised".to_vec()),
        _ => panic!("the text is due"),
    }
    assert_eq!(e.finish(&g.heap, &Ok(()), Vec::new()), 1);
    assert_eq!(e.last_error_len(), 0);
    let number = LuaError::Runtime(LuaValue::Int(-42));
    assert_eq!(lua_error_bytes(&g.heap, &number), Some(b"-42".to_vec()));
}

#[test]
fn limits_of_a_strict_sandbox() {
    let mut e = Embedding::default();
    e.set_limits(0, 0, 1);
    let l = e.limits.expect("limits");
    assert_eq!(l.instruction_limit, Some(10_000_000));
    assert_eq!(l.memory_limit_bytes, Some(64 * 1024 * 1024));
    assert_eq!(l.check_interval, None);
    e.set_limits(5, 0, 0);
    let l = e.limits.expect("limits");
    assert_eq!((l.instruction_limit, l.memory_limit_bytes), (Some(5), None));
    assert_eq!(l.check_interval, Some(1000));
    assert_eq!((last_trip(0), last_trip(1), last_trip(2)), (0, 1, 2));
}

#[test]
fn files_of_the_host() {
    match imported_file_open(3) {
        Opened::File(f) => assert_eq!(f, ImportedFileHandle { id: 3, unread: None, errored: false }),
        _ => panic!("a file is due"),
    }
    assert_eq!(imported_file_open(-1), Opened::Failed);
    assert_eq!(imported_file_open(-3), Opened::Errno(2));
    assert_eq!(imported_file_open(i32::MIN), Opened::Errno(i32::MAX));
    let mut f = ImportedFileHandle::new(1);
    f.unread_byte(300);
    assert_eq!(f.read_byte(), None);
    f.unread_byte(65);
    assert_eq!(f.read_byte(), Some(65));
    assert_eq!(f.read_byte(), None);
    assert_eq!(f.byte_read(-1), -1);
    assert!(!f.has_error());
    assert_eq!(f.byte_read(-2), -1);
    assert!(f.has_error());
    f.clear_error();
    assert_eq!(f.write_bytes(9), Some(9));
    assert_eq!(f.write_bytes(-1), None);
    f.clear_error();
    assert!(f.flush(0));
    assert!(!f.flush(5));
    assert_eq!(f.seek(12), Some(12));
    assert_eq!(f.seek(-1), None);
    assert_eq!(seek_request(SeekFrom::Start(4)), (0, 4));
    assert_eq!(seek_request(SeekFrom::Current(-4)), (1, -4));
    assert_eq!(seek_request(SeekFrom::End(0)), (2, 0));
    assert_eq!((read_request(-1), read_request(0)), (None, Some(0)));
    assert!(read_complete(3, 3));
    assert!(!read_complete(3, 2));
    assert_eq!((imported_stdin(4, 4), imported_stdin(4, 5), imported_stdin(4, -1)), (Some(4), None, None));
    assert_eq!((last_error_info(0, 0), last_error_info(2, 0), last_error_info(0, 3)), (None, Some(0), Some(3)));
}

#[test]
fn numbers_are_written_in_decimal() {
    for i in [0, 7, -7, 10, i64::MAX, i64::MIN] {
        assert_eq!(decimal_of(i), format!("{}", i).into_bytes());
    }
    assert_eq!(deterministic_entropy(), 0x4c75_612d_7761_736d);
    assert_eq!(lua_vm::smoke::deterministic_entropy(), 0x4c75_612d_7273_7761);
}

#[test]
fn a_scripted_host_plays_its_script() {
    let mut h = ScriptedHost::new();
    let mut all = Vec::new();
    let mut one = [0u8; 1];
    while h.scripted_stdin(&mut one) == 1 {
        all.push(one[0]);
    }
    assert_eq!(all, b"alpha\nbeta\n".to_vec());
    let mut none: [u8; 0] = [];
    assert_eq!(h.scripted_stdin(&mut none), 0);
    h.capture_stdout(b"four");
    assert_eq!(h.output_bytes, 4);
    assert_eq!(scripted_env(b"LUA_PATH"), Some(b"./fallback/?.lua".to_vec()));
    assert_eq!(scripted_env(b"LUA_PATH_5_4"), Some(b"./from_env/?.lua".to_vec()));
    assert_eq!(scripted_env(b"HOME"), None);
}

#[test]
fn statuses_have_numbers() {
    for s in [
        LuaStatus::Okay,
        LuaStatus::Yield,
        LuaStatus::ErrRun,
        LuaStatus::ErrSyntax,
        LuaStatus::ErrMem,
        LuaStatus::ErrErr,
    ] {
        assert_eq!(LuaStatus::from_raw(s.raw()), s);
    }
    assert_eq!(LuaStatus::ErrRun.raw(), 2);
    assert_eq!(stack_idx_to_i32(StackIdx(7)), 7);
    assert_eq!(stack_idx_to_i32(StackIdx(i32::MAX as u32)), i32::MAX);
    assert_eq!(stack_idx_to_i32(StackIdx(i32::MAX as u32 + 1)), i32::MIN);
    assert_eq!(stack_idx_to_i32(StackIdx(u32::MAX)), -1);
}

#[test]
fn the_status_word_of_a_frame_keeps_its_parts() {
    let mut ci = CallInfo::default();
    ci.callstatus = CIST_C;
    assert!(!ci.is_lua());
    ci.callstatus = 0;
    assert!(ci.is_lua());
    ci.set_recover_status(5);
    ci.set_oah(true);
    ci.set_trap(true);
    assert_eq!(ci.recover_status(), 5);
    assert!(ci.get_oah());
    assert!(ci.trap());
    ci.set_recover_status(0);
    assert_eq!(ci.recover_status(), 0);
    assert!(ci.get_oah());
    ci.set_oah(false);
    assert!(!ci.get_oah());
    assert_eq!(ci.callstatus & CIST_LEQ, 0);
}

#[test]
fn hooks_are_not_called_from_hooks() {
    let (mut s, g) = fresh();
    let ci = s.current_ci_idx();
    let before = s.call_info[ci.0 as usize].callstatus;
    let tail = s.hook_call(g.lua_version, ci);
    s.hook_call_done(ci, tail);
    assert_eq!(s.call_info[ci.0 as usize].callstatus, before);
    s.set_base_hook_count(10);
    s.set_hook_count(3);
    s.reset_hook_count();
    assert_eq!((s.base_hook_count(), s.hook_count()), (10, 10));
}

#[test]
fn the_frame_list_grows_and_shrinks() {
    let (mut s, _g) = fresh();
    let first = s.current_ci_idx();
    let a = s.next_ci();
    s.ci = a;
    let b = s.next_ci();
    assert_eq!(s.ci_previous(b), Some(a));
    assert_eq!(s.prev_ci(a), Some(first));
    assert_eq!(s.call_info.len(), 3);
    assert_eq!(s.next_ci(), b);
    s.ci = first;
    s.free_ci();
    assert_eq!(s.call_info.len(), 1);
}

#[test]
fn c_calls_are_limited() {
    let (mut s, _g) = fresh();
    let mut error = None;
    for _ in 0..300 {
        if let Err(e) = s.inc_c_stack() {
            error = Some(e);
            break;
        }
    }
    match error {
        Some(LuaError::RuntimeMsg(m)) => assert_eq!(m, b"C stack overflow".to_vec()),
        _ => panic!("an error is due"),
    }
    assert_eq!(s.c_calls(), 200);
}

#[test]
fn values_become_strings_where_they_are_texts_or_numbers() {
    let (mut s, mut g) = fresh();
    let text = s.intern_str(&mut g, b"t");
    let at = s.top;
    s.push(LuaValue::Str(text));
    s.push(LuaValue::Int(4));
    s.push(LuaValue::Nil);
    assert!(matches!(s.coerce_to_string(at), Ok(Stringed::Str(t)) if t == text));
    assert!(matches!(
        s.coerce_to_string(StackIdx(at.0 + 1)),
        Ok(Stringed::Number { value: LuaValue::Int(4), .. }),
    ));
    assert!(matches!(
        s.coerce_to_string(StackIdx(at.0 + 2)),
        Err(LuaError::TypeError { op: TypeOp::ConvertToString, .. }),
    ));
}

#[test]
fn operations_have_numbers() {
    assert_eq!(arith_op_numbered(0).ok(), Some(NumberedOp::Binary(ArithOp::Add)));
    assert_eq!(arith_op_numbered(12).ok(), Some(NumberedOp::Unm));
    assert_eq!(arith_op_numbered(13).ok(), Some(NumberedOp::BNot));
    assert!(arith_op_numbered(14).is_err());
    assert!(arith_op_numbered(-1).is_err());
}

#[test]
fn the_registry_holds_the_globals() {
    let (s, mut g) = fresh();
    let key = s.external_root_value(&mut g, LuaValue::Int(5));
    assert_eq!(s.external_rooted_value(&g, key), Some(LuaValue::Int(5)));
    assert_eq!(s.external_replace_root(&mut g, key, LuaValue::Int(6)), Some(LuaValue::Int(5)));
    assert_eq!(s.external_unroot_value(&mut g, key), Some(LuaValue::Int(6)));
    assert_eq!(s.external_rooted_value(&g, key), None);
    assert_eq!(s.registry_get(&g, 2), g.globals);
    assert!(s.is_main_thread(&g));
}

#[test]
fn seeds_follow_the_clock() {
    assert_eq!(make_seed(5), make_seed(5));
    assert_ne!(make_seed(5), make_seed(6));
}

#[test]
fn a_state_closes_its_objects() {
    let (mut s, mut g) = fresh();
    assert!(matches!(s.close_state(&g), Closing::RunFinalizers));
    s.close_state_done(&mut g);
    assert_eq!(g.heap.allgc_count(), 0);
    assert!(g.heap.closed);
    assert_eq!(s.stack.len(), 0);
}
