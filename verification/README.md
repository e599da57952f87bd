# os

System calls of a small teaching kernel, as a Verus-verified library.

- `src/deadlock.rs`: when a process is in a safe state (some order lets
  every thread finish in turn), and the lemmas about resource totals.
- `src/syscall/sync.rs`: mutex, semaphore and condition-variable calls,
  the bookkeeping of what threads hold and wait for, and `is_res_safe`,
  proved to decide exactly the safe states.
- `src/syscall/process.rs`: exit, yield, `sbrk`, `mmap`/`munmap`, the clock
  and task info.
- `src/task/`: the state those calls read and write (per-process
  synchronisation state, task heap and address space, task info).
- `app/lib.rs`: the kernel-side entry points, which block, schedule and
  write into user memory around the library calls.
