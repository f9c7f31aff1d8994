# lua_vm

The core of a Lua virtual machine for Lua 5.1 to 5.5, written in Verus. The functions of
`src/` carry contracts that are proved. Two things are believed without proof, of vectors of
the standard library: that one has room for at least what it holds, and that giving back room
to spare leaves what it holds as it is. Of a reader of chunks that comes
from outside it is only taken that it keeps account of its own answers.

- `src/` is the library: values and strings, tables and metamethods, threads and their
  frames, the instructions, the collector, loading of binary chunks, warnings, limits for
  untrusted programs, and what an embedding remembers between calls. The modules named
  `exec*` are the instructions, those named `gc*` the collector.
- `tests/` runs it.
- `app/` is ordinary Rust around it: a driver that runs frames on a host, arithmetic on
  doubles, reading of chunks, and the functions that a page imports.

Three things stay with the host. Doubles are bit patterns in the library, which compares
and converts them; sums, products and powers are computed by the host. And what an
instruction cannot do by itself (calls of native functions, numerals, hooks, the growth of
stacks) comes out of the machine as a `Step` that the host serves. The ages and colours of
objects are the host's too: every write that a collector has to know of is kept as a barrier
until the host takes it, and the host names the old objects for a collection of young ones.

Public proof functions whose names begin with `law_` state what holds across functions,
for example that what the roots reach survives a collection, or that a run cut into slices
is one run.
