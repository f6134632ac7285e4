# oscamp

Operating-system building blocks with machine-checked contracts: page-table
entries and walks (single-level and Sv39), bump and free-list allocators, a
file-descriptor table, memory primitives, a green-thread scheduler, stack
contexts, syscall ABI tables, lock state machines and small futures.

- `src/` is the library, verified with Verus. Functions on plain data state
  what they return or change; the `law_*` proof functions state properties
  that tie several operations together (a translation after a mapping, reuse
  of a freed block, exclusion kept by every lock step, ...). Functions that
  read or write std atomics (counters, flags, lock words) state nothing of the
  atomics' contents, which other threads change; their decisions are stated
  on the state words they take.
- `tests/` runs the library on concrete values.
- `app/` holds what cannot be verified: raw-pointer C entry points, inline
  assembly (syscalls, context switch), spin loops and `UnsafeCell` locks,
  threads, processes and the tokio-based async examples. It calls into the
  library for every decision.
