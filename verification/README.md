# rcore_os

A verified model of the process-management core of a small RV64 teaching
kernel, written in Verus.

- `src/config.rs` – memory-layout and scheduler constants.
- `src/mm.rs` – virtual addresses, page numbers, mapping permissions and
  the per-task set of user pages (permissions and bytes) with its heap
  area.
- `src/trap_context.rs` – the trap context of a user task; its `sstatus`
  is kept as the raw bits of the register, and a new context saves the
  hart's value with `SPP` cleared so that the task starts in user mode.
- `src/task.rs` – task control blocks and the task table (indexed by pid).
- `src/manager.rs` – the ready queue and its stride scheduler.
- `src/kernel.rs` – the process state with its invariant and the
  operations (fork, exec, exit, reap, schedule, ...) specified as
  transitions of the model `KernelState`.
- `src/process.rs` – the process system calls.
- `src/laws.rs` – properties that relate several operations.
- `app/` – unverified glue: the global process state, the hardware layout
  of the trap context, the user-visible record layouts, reads of the clock
  and of the `sstatus` register, and the system-call entry points.
