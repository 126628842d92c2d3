# rt_utils

Control of real-time scheduling on Linux: cgroups and their HCBS servers, CPU
sets and affinity, scheduling policies, CPU frequency, idle and P-state
settings.

- `src/` is the library, verified with Verus. It computes what is written to
  the kernel's files (as `FileWrite` values), reads their text back into
  values, parses CPU lists and per-CPU times, builds the attributes of
  `sched_setattr`, and drives the shell mount procedures as state machines.
  Each function states its result in its contract; the laws (read-back of
  writes, set operations, affinity masks, text round trips) are public proof
  functions named `law_*`.
- `app/` is the system side: file and shell I/O, system calls, processes and
  clocks. It hands the library the texts it read and performs the writes and
  actions the library returns.
- `tests/` runs the library on concrete inputs.
