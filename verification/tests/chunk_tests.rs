use lua_vm::boot::new_state;
use lua_vm::chunk::{header_fields, load_error, Input, LoadFault, SizeOf};
use lua_vm::global::GlobalState;
use lua_vm::opcode::Instruction;
use lua_vm::state::LuaState;
use lua_vm::undump::{undump, undump_from};
use lua_vm::undump_stream::undump_stream;
use lua_vm::value::{LClosureId, LuaClosure, LuaError, LuaValue, LuaVersion, StackIdx};
use lua_vm::zio::{room_wanted, ChunkList, ChunkReader, LexBuffer, EOZ, ZIO};

fn fresh(v: LuaVersion) -> (LuaState, GlobalState) {
    let (s, mut g) = new_state(1_700_000_000).expect("state should initialize");
    g.lua_version = v;
    (s, g)
}

fn header(v: LuaVersion) -> Vec<u8> {
    header_fields(v, false).iter().flat_map(|f| f.bytes.clone()).collect()
}

fn small(n: usize) -> u8 {
    assert!(n < 128);
    n as u8 | 0x80
}

fn string(out: &mut Vec<u8>, s: &[u8]) {
    out.push(small(s.len() + 1));
    out.extend_from_slice(s);
}

fn function(out: &mut Vec<u8>, code: &[u32], consts: &[u8], nconsts: usize, nested: &[Vec<u8>]) {
    string(out, b"@test");
    out.extend_from_slice(&[small(0), small(9), 1, 0, 3]);
    out.push(small(code.len()));
    for w in code {
        out.extend_from_slice(&w.to_le_bytes());
    }
    out.push(small(nconsts));
    out.extend_from_slice(consts);
    out.extend_from_slice(&[small(1), 1, 0, 0]);
    out.push(small(nested.len()));
    for f in nested {
        out.extend_from_slice(f);
    }
    out.extend_from_slice(&[small(2), 1, 0xff]);
    out.extend_from_slice(&[small(1), small(5), small(7)]);
    out.push(small(1));
    string(out, b"x");
    out.extend_from_slice(&[small(0), small(2)]);
    out.push(small(1));
    string(out, b"_ENV");
}

fn body() -> Vec<u8> {
    let mut consts = vec![0x03];
    consts.extend_from_slice(&(-5i64).to_le_bytes());
    consts.push(0x13);
    consts.extend_from_slice(&2.5f64.to_le_bytes());
    consts.push(0x04);
    string(&mut consts, b"hi");
    consts.extend_from_slice(&[0x01, 0x11, 0x00]);
    let mut inner = Vec::new();
    function(&mut inner, &[72], &[], 0, &[]);
    let mut out = vec![1];
    function(&mut out, &[3, 72], &consts, 6, &[inner]);
    out
}

fn load(v: LuaVersion, bytes: Vec<u8>) -> (LuaState, GlobalState, Result<LClosureId, LuaError>) {
    let (mut s, mut g) = fresh(v);
    let r = undump(&mut s, &mut g, bytes, false);
    (s, g, r)
}

fn syntax(r: Result<LClosureId, LuaError>) -> Vec<u8> {
    match r {
        Err(LuaError::SyntaxMsg(m)) => m,
        _ => panic!("a syntax error is due"),
    }
}

#[test]
fn a_chunk_becomes_a_closure_on_the_stack() {
    let mut bytes = header(LuaVersion::V54);
    assert_eq!(
        bytes,
        [
            b"Lua\x54\x00\x19\x93\r\n\x1a\n\x04\x08\x08".to_vec(),
            0x5678i64.to_le_bytes().to_vec(),
            370.5f64.to_le_bytes().to_vec(),
        ]
        .concat(),
    );
    bytes.extend_from_slice(&body());
    let (s, g, r) = load(LuaVersion::V54, bytes);
    let c = r.ok().expect("a closure");
    assert_eq!(s.peek_top(), LuaValue::Function(LuaClosure::Lua(c)));
    assert_eq!(g.heap.lclosures.items[c.0].upvals.len(), 1);
    let p = &g.heap.protos.items[g.heap.lclosures.items[c.0].proto.0];
    assert_eq!(p.code, vec![Instruction(3), Instruction(72)]);
    assert_eq!((p.linedefined, p.lastlinedefined), (0, 9));
    assert_eq!((p.numparams, p.is_vararg, p.maxstacksize), (1, false, 3));
    assert_eq!(p.k[0], LuaValue::Int(-5));
    assert_eq!(p.k[1], LuaValue::Float(2.5f64.to_bits()));
    match p.k[2] {
        LuaValue::Str(t) => assert_eq!(g.heap.strings.items[t.0].bytes, b"hi".to_vec()),
        _ => panic!("a string is due"),
    }
    assert_eq!(&p.k[3..], &[LuaValue::Bool(false), LuaValue::Bool(true), LuaValue::Nil]);
    assert_eq!(p.source_bytes(&g.heap), b"@test".to_vec());
    assert_eq!(p.lineinfo, vec![1, -1]);
    assert_eq!((p.abslineinfo[0].pc, p.abslineinfo[0].line), (5, 7));
    assert_eq!((p.locvars[0].startpc, p.locvars[0].endpc), (0, 2));
    let name = p.upvalues[0].name.expect("a name");
    assert_eq!(g.heap.strings.items[name.0].bytes, b"_ENV".to_vec());
    assert!(p.upvalues[0].instack);
    assert_eq!(p.p.len(), 1);
    assert_eq!(g.heap.protos.items[p.p[0].0].code, vec![Instruction(72)]);
}

#[test]
fn every_version_accepts_its_own_header() {
    for v in [LuaVersion::V51, LuaVersion::V52, LuaVersion::V53, LuaVersion::V54, LuaVersion::V55] {
        let mut input = Input { bytes: header(v), pos: 0, big_endian: false };
        assert_eq!(input.check_header(v), Ok(()));
        assert_eq!(input.pos, input.bytes.len());
        let other = if v == LuaVersion::V54 { LuaVersion::V53 } else { LuaVersion::V54 };
        let mut input = Input { bytes: header(v), pos: 0, big_endian: false };
        assert_eq!(input.check_header(other), Err(LoadFault::Version));
    }
}

#[test]
fn a_chunk_cut_short_is_refused() {
    let mut bytes = header(LuaVersion::V54);
    bytes.extend_from_slice(&body());
    for n in 0..bytes.len() {
        let (_s, _g, r) = load(LuaVersion::V54, bytes[..n].to_vec());
        assert_eq!(syntax(r), b"bad binary format (truncated chunk)".to_vec(), "{}", n);
    }
}

#[test]
fn a_changed_header_is_refused_by_its_field() {
    let at = |i: usize, text: &[u8]| {
        let mut bytes = header(LuaVersion::V54);
        bytes[i] ^= 0x40;
        bytes.extend_from_slice(&body());
        let (_s, _g, r) = load(LuaVersion::V54, bytes);
        assert_eq!(syntax(r), text.to_vec());
    };
    at(0, b"bad binary format (not a binary chunk)");
    at(3, b"bad binary format (version mismatch)");
    at(4, b"bad binary format (format mismatch)");
    at(5, b"bad binary format (corrupted chunk)");
    at(11, b"Instruction size mismatch");
    at(12, b"lua_Integer size mismatch");
    at(13, b"lua_Number size mismatch");
    at(14, b"bad binary format (integer format mismatch)");
    at(22, b"bad binary format (float format mismatch)");
}

#[test]
fn numbers_are_read_in_groups_of_seven_bits() {
    let read = |bytes: &[u8]| Input { bytes: bytes.to_vec(), pos: 0, big_endian: false }.load_int();
    assert_eq!(read(&[0x80]), Ok(0));
    assert_eq!(read(&[0xff]), Ok(127));
    assert_eq!(read(&[0x01, 0x80]), Ok(128));
    assert_eq!(read(&[0x07, 0x7f, 0x7f, 0x7e, 0xff]), Ok(0x7fff_ff7f));
    assert_eq!(read(&[0x07, 0x7f, 0x7f, 0x7f, 0xff]), Err(LoadFault::Overflow));
    assert_eq!(read(&[0x08, 0x00, 0x00, 0x00, 0x80]), Err(LoadFault::Overflow));
    assert_eq!(read(&[0x01]), Err(LoadFault::Truncated));
    let mut both = Input { bytes: vec![1, 2, 3, 4], pos: 0, big_endian: true };
    assert_eq!(both.load_raw(4), Ok(0x01020304));
    both.pos = 0;
    both.big_endian = false;
    assert_eq!(both.load_raw(4), Ok(0x04030201));
}

#[test]
fn faults_have_their_messages() {
    for (f, text) in [
        (LoadFault::Truncated, "bad binary format (truncated chunk)"),
        (LoadFault::Overflow, "bad binary format (integer overflow)"),
        (LoadFault::NoString, "bad binary format (bad format for constant string)"),
        (LoadFault::Size(SizeOf::Int), "int size mismatch"),
        (LoadFault::Size(SizeOf::SizeT), "size_t size mismatch"),
    ] {
        match load_error(f) {
            LuaError::SyntaxMsg(m) => assert_eq!(m, text.as_bytes().to_vec()),
            _ => panic!("a syntax error is due"),
        }
    }
}

#[test]
fn a_constant_string_must_be_there() {
    let mut bytes = header(LuaVersion::V54);
    bytes.push(0);
    bytes.extend_from_slice(&[small(0), small(0), small(0), 0, 0, 2, small(0), small(1), 0x04, small(0)]);
    let (_s, _g, r) = load(LuaVersion::V54, bytes);
    assert_eq!(syntax(r), b"bad binary format (bad format for constant string)".to_vec());
}

struct Pieces(Vec<Vec<u8>>);

impl ChunkReader for Pieces {
    fn next_chunk(&mut self) -> Option<Vec<u8>> {
        if self.0.is_empty() {
            None
        } else {
            Some(self.0.remove(0))
        }
    }
}

#[test]
fn a_stream_reads_its_pieces_as_one() {
    let pieces = || Pieces(vec![b"ab".to_vec(), b"c".to_vec(), b"def".to_vec()]);
    let mut z = ZIO::new(pieces());
    for b in b"abcdef" {
        assert_eq!(z.getc(), *b as i32);
    }
    assert_eq!(z.getc(), EOZ);
    let mut z = ZIO::new(pieces());
    let mut buf = [0u8; 5];
    assert_eq!(z.read(&mut buf), 0);
    assert_eq!(&buf, b"abcde");
    let mut rest = [0u8; 4];
    assert_eq!(z.read(&mut rest), 3);
    assert_eq!(rest[0], b'f');
    let mut empty = ZIO::new(Pieces(vec![vec![]]));
    assert_eq!(empty.fill(), EOZ);
}

#[test]
fn a_buffer_has_room_for_what_it_holds() {
    let (mut s, _g) = fresh(LuaVersion::V54);
    let mut b = LexBuffer::new();
    assert_eq!(b.len(), 0);
    assert!(b.resize(&mut s, 100).is_ok());
    assert_eq!(b.len(), 100);
    assert!(b.capacity() >= 100);
    b.as_mut_slice()[3] = 7;
    b.truncate_by(96);
    assert_eq!(b.len(), 4);
    assert_eq!(b.as_mut_slice()[3], 7);
    assert!(b.capacity() >= 100);
    b.clear();
    assert_eq!(b.len(), 0);
}

#[test]
fn loading_stops_behind_the_chunk() {
    let mut bytes = header(LuaVersion::V54);
    bytes.extend_from_slice(&body());
    let end = bytes.len();
    let mut z = Input { bytes: vec![b'#', b'!'], pos: 2, big_endian: false };
    z.bytes.extend_from_slice(&bytes);
    z.bytes.extend_from_slice(b"rest");
    let (mut s, mut g) = fresh(LuaVersion::V54);
    let c = undump_from(&mut s, &mut g, &mut z).expect("a chunk");
    assert_eq!(z.pos, end + 2);
    assert_eq!(s.get_at(StackIdx(s.top.0 - 1)), LuaValue::Function(LuaClosure::Lua(c)));
    let mut cut = Input { bytes: bytes[..end - 1].to_vec(), pos: 0, big_endian: false };
    assert_eq!(undump_from(&mut s, &mut g, &mut cut), Err(LoadFault::Truncated));
}

#[test]
fn a_chunk_takes_the_place_of_what_was_left() {
    let mut z = ZIO::new(ChunkList::new(vec![]));
    assert_eq!(z.accept_chunk(Some(b"xyz".to_vec())), b'x' as i32);
    assert_eq!(z.getc(), b'y' as i32);
    assert_eq!(z.accept_chunk(None), EOZ);
    assert_eq!(z.accept_chunk(Some(vec![])), EOZ);
    assert_eq!(z.getc(), b'z' as i32);
    assert_eq!(z.accept_chunk(Some(vec![7, 8])), 7);
    assert_eq!(z.accept_chunk(Some(vec![9])), 9);
    assert_eq!(z.getc(), EOZ);
}

#[test]
fn the_highest_byte_is_not_the_end() {
    let mut z = ZIO::new(ChunkList::new(vec![vec![0xff]]));
    assert_eq!(z.getc(), 255);
    assert_eq!(z.getc(), -1);
}

#[test]
fn an_empty_chunk_ends_one_read_only() {
    let mut z = ZIO::new(ChunkList::new(vec![b"ab".to_vec(), vec![], b"c".to_vec()]));
    assert_eq!([z.getc(), z.getc(), z.getc(), z.getc()], [97, 98, -1, 99]);
    assert!(z.reader.chunks.is_empty());
}

#[test]
fn the_reader_is_asked_only_when_bytes_are_wanted() {
    let mut z = ZIO::new(ChunkList::new(vec![vec![1, 2], vec![3]]));
    let mut none = [0u8; 0];
    assert_eq!(z.read(&mut none), 0);
    assert_eq!(z.reader.chunks.len(), 2);
    assert_eq!(z.getc(), 1);
    assert_eq!(z.reader.chunks.len(), 1);
    assert_eq!(z.getc(), 2);
    assert_eq!(z.reader.chunks.len(), 1);
    assert_eq!(z.fill(), 3);
    assert_eq!(z.reader.chunks.len(), 0);
}

#[test]
fn a_short_read_leaves_the_rest_of_the_buffer() {
    let mut buf = [9u8; 5];
    let mut z = ZIO::new(ChunkList::new(vec![vec![1, 2], vec![3]]));
    assert_eq!(z.read(&mut buf), 2);
    assert_eq!(buf, [1, 2, 3, 9, 9]);
}

#[test]
fn reads_do_not_depend_on_the_chunks() {
    let all: Vec<u8> = (0..12).collect();
    for size in 1..13 {
        let mut z = ZIO::new(ChunkList::new(all.chunks(size).map(|c| c.to_vec()).collect()));
        let mut buf = [0u8; 7];
        assert_eq!(z.read(&mut buf), 0);
        assert_eq!(buf[..], all[..7]);
        assert_eq!(z.getc(), 7);
        assert_eq!(z.read(&mut buf), 3);
        assert_eq!(buf[..4], all[8..]);
    }
}

#[test]
fn a_buffer_that_cannot_grow_stays_as_it_is() {
    let (mut s, _g) = fresh(LuaVersion::V54);
    let mut b = LexBuffer::new();
    assert!(b.resize(&mut s, 3).is_ok());
    assert!(matches!(b.resize(&mut s, usize::MAX), Err(LuaError::Memory)));
    assert_eq!(b.len(), 3);
    assert!(b.resize(&mut s, 1).is_ok());
    assert_eq!(b.len(), 1);
}

#[test]
fn a_buffer_grows_where_room_is_granted() {
    assert_eq!(room_wanted(3, 10), 7);
    assert_eq!(room_wanted(10, 10), 0);
    assert_eq!(room_wanted(10, 3), 0);
    let mut b = LexBuffer::new();
    assert!(b.resize_granted(2, true).is_ok());
    b.as_mut_slice()[1] = 9;
    assert!(matches!(b.resize_granted(4, false), Err(LuaError::Memory)));
    assert_eq!(b.buffer, vec![0, 9]);
    assert!(b.resize_granted(4, true).is_ok());
    assert_eq!(b.buffer, vec![0, 9, 0, 0]);
    assert!(b.resize_granted(2, false).is_ok());
    assert_eq!(b.buffer, vec![0, 9]);
}

#[test]
fn a_chunk_in_pieces_is_loaded_as_one() {
    let mut bytes = header(LuaVersion::V54);
    bytes.extend_from_slice(&body());
    let end = bytes.len();
    bytes.extend_from_slice(b"rest");
    for size in [1, 2, 7, end - 1, end, end + 1, end + 4] {
        let mut pieces = vec![b"\x1b".to_vec()];
        pieces.extend(bytes.chunks(size).map(|c| c.to_vec()));
        let mut z = ZIO::new(ChunkList::new(pieces));
        assert_eq!(z.getc(), 0x1b);
        let (mut s, mut g) = fresh(LuaVersion::V54);
        let top = s.top;
        let c = undump_stream(&mut s, &mut g, &mut z, false).ok().expect("a closure");
        assert_eq!(s.top, StackIdx(top.0 + 1));
        assert_eq!(s.peek_top(), LuaValue::Function(LuaClosure::Lua(c)));
        let p = &g.heap.protos.items[g.heap.lclosures.items[c.0].proto.0];
        assert_eq!(p.code, vec![Instruction(3), Instruction(72)]);
        assert_eq!(z.reader.chunks.len(), (bytes.len() + size - 1) / size - (end + size - 1) / size);
        for b in b"rest" {
            assert_eq!(z.getc(), *b as i32);
        }
        assert_eq!(z.getc(), EOZ);
    }
}

#[test]
fn a_chunk_that_was_read_ahead_asks_for_nothing() {
    let mut bytes = vec![0x1b];
    bytes.extend_from_slice(&header(LuaVersion::V54));
    bytes.extend_from_slice(&body());
    bytes.push(b'!');
    let mut z = ZIO::new(ChunkList::new(vec![bytes, vec![7]]));
    assert_eq!(z.getc(), 0x1b);
    let (mut s, mut g) = fresh(LuaVersion::V54);
    assert!(undump_stream(&mut s, &mut g, &mut z, false).is_ok());
    assert_eq!(z.reader.chunks.len(), 1);
    assert_eq!([z.getc(), z.getc(), z.getc()], [b'!' as i32, 7, EOZ]);
}

#[test]
fn input_that_ends_within_a_chunk_is_refused() {
    let mut bytes = header(LuaVersion::V54);
    bytes.extend_from_slice(&body());
    for n in [0, 3, 30, 60, bytes.len() - 1] {
        let mut pieces: Vec<Vec<u8>> = bytes[..n].chunks(5).map(|c| c.to_vec()).collect();
        pieces.push(vec![]);
        pieces.push(bytes[n..].to_vec());
        let mut z = ZIO::new(ChunkList::new(pieces));
        let (mut s, mut g) = fresh(LuaVersion::V54);
        let top = s.top;
        let r = undump_stream(&mut s, &mut g, &mut z, false);
        assert_eq!(syntax(r), b"bad binary format (truncated chunk)".to_vec());
        assert_eq!(z.reader.chunks.len(), 1);
        let pushed = if n > header(LuaVersion::V54).len() { 1 } else { 0 };
        assert_eq!(s.top, StackIdx(top.0 + pushed));
        if pushed == 1 {
            assert_eq!(s.peek_top(), LuaValue::Nil);
        }
    }
}

#[test]
fn a_fault_in_a_stream_stops_the_reading() {
    let mut bytes = header(LuaVersion::V54);
    bytes[3] ^= 0x40;
    let mut z = ZIO::new(ChunkList::new(vec![bytes[..2].to_vec(), bytes[2..6].to_vec(), bytes[6..].to_vec()]));
    let (mut s, mut g) = fresh(LuaVersion::V54);
    let top = s.top;
    let r = undump_stream(&mut s, &mut g, &mut z, false);
    assert_eq!(syntax(r), b"bad binary format (version mismatch)".to_vec());
    assert_eq!(z.reader.chunks.len(), 1);
    assert_eq!(s.top, top);
}

#[test]
fn what_was_put_back_is_read_again() {
    let mut z = ZIO::new(ChunkList::new(vec![vec![1, 2, 3]]));
    assert_eq!(z.getc(), 1);
    let mut buf = vec![9];
    z.drain_into(&mut buf);
    assert_eq!(buf, vec![9, 2, 3]);
    assert_eq!(z.n, 0);
    z.put_back(buf, 1);
    assert_eq!([z.getc(), z.getc(), z.getc()], [2, 3, EOZ]);
}
