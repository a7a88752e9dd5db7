# secure_ipc

The IPC security layer of a small RISC-V teaching kernel, written in Verus:
credentials and the signal policy, per-process descriptor quotas, a bounded
audit log with a stable user-space ABI, the pipe ring buffer, the syscall
bodies that combine them, the checks made before the kernel touches user
memory, and the decisions of the `auditctl` audit viewer.

Every function in `src/` carries a contract that Verus proves. Kernel work
that cannot be expressed here (scheduling, physical memory, the file system,
the clock) reaches the library as plain values or as functions passed in,
and the contracts state what holds whatever that work returns, in terms of
what it was handed and what it answered. User memory is checked by the
library itself, page by page through the page-table translation: a range
that cannot be accessed gives `-EFAULT` and nothing is stored, and a copy
to user memory comes back as a plan (physical page, offset, bytes) that the
caller carries out.

Layout:

- `src/security/`: API types, credentials, policy, quota, the audit log and
  its ABI encoding, and the `preflight`/`complete` facade.
- `src/syscall/`: descriptor, pipe, transfer, signal, process and audit
  control syscalls over explicit process and kernel state.
- `src/fs/`: the `File` view of open files and the pipe ring buffer.
- `src/mm/`: page-table entries, the SV39 walk, user range, object, buffer
  and string checks.
- `src/user/`: the audit viewer: statistics and batch validation, cursor
  parsing, output text and pagination.
- `src/timer.rs`: timer arithmetic.
- `app/`: glue for the kernel side: global log and pipe-id counter, clock,
  shared pipe buffers, blocking pipe loops, syscall entries that carry out
  the planned copies, and the viewer's printing entry.
- `tests/`: host tests of the library.
