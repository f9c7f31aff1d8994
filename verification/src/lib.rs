//! A Lua virtual machine core with machine-checked contracts.

pub mod access;
pub mod arith;
pub mod arith_laws;
pub mod boot;
pub mod call_laws;
pub mod callinfo;
pub mod chunk;
pub mod close;
pub mod compare;
pub mod concat;
pub mod exec;
pub mod exec_calls;
pub mod exec_jumps;
pub mod exec_laws;
pub mod exec_loops;
pub mod exec_regs;
pub mod exec_resume;
pub mod exec_step;
pub mod exec_tables;
pub mod float;
pub mod forloop;
pub mod frames;
pub mod gc;
pub mod gc_barrier;
pub mod gc_books;
pub mod gc_collect;
pub mod gc_incr;
pub mod gc_laws;
pub mod gc_marks;
pub mod gc_pace;
pub mod gc_prune;
pub mod gc_reach;
pub mod gc_roots;
pub mod gc_threads;
pub mod gc_weak;
pub mod global;
pub mod heap;
pub mod host;
pub mod intern;
pub mod meta;
pub mod meta_laws;
pub mod object_laws;
pub mod objects;
pub mod opcode;
pub mod roots;
pub mod sandbox;
pub mod smoke;
pub mod state;
pub mod string;
pub mod table;
pub mod table_laws;
pub mod tagmethods;
pub mod tmcalls;
pub mod undump;
pub mod undump_stream;
pub mod upvals;
pub mod value;
pub mod varargs;
pub mod warn;
pub mod zio;
