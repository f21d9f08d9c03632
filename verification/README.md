# os_sync

Blocking mutexes, counting semaphores and condition variables of a teaching
kernel, together with the per-thread counters (`avail`, `allocation`, `need`)
that its deadlock detector reads, and the system calls that use them.

- `mutex`, `semaphore`, `condvar`: the primitives; each operation is specified
  as a transition of the object's abstract state, and returns what the
  scheduler must do (block the caller, wake a thread).
- `banker`: the safety check (banker's algorithm), specified by a greedy run.
- `safety`: proof that the check succeeds exactly when some order lets every
  thread finish, when no thread holds a negative count.
- `process`: a process's objects and threads, and the inputs of the check.
- `syscall`: the system calls; each returns its result and the scheduling step.
- `laws`: round-trip and invariant laws of the primitives, and what a refused
  request means.

The scheduler, timers and thread records are not part of this crate: a
system call names the step (`Action`) and the kernel performs it.
