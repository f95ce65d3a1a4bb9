# linux_syscalls

The decisions behind a set of Linux system calls, written in Verus and proved
against their contracts: `wait4`, `waitid`, `ptrace`, `clone`, `clone3`, `execve`,
robust futex lists, POSIX message queues, `setsockopt` and `getsockopt`, local
sockets, and WireGuard tunnels.

The library does no I/O. A call that has to sleep, touch user memory or ask the
file system is a function from state and event to the next state and what to do
next; the code around it performs that and calls again.

| Part | Contents |
| --- | --- |
| `src/process/` | process table, waiting, tracing, cloning, starting programs |
| `src/posix_mq/` | message queues, their names, access rights and notifications |
| `src/robust_list.rs` | locks of a task that exits |
| `src/net/` | socket options, local sockets |
| `src/net/wireguard/` | packets, key exchange, replay protection, configuration, routing |
| `src/bytes.rs`, `src/text.rs`, `src/errno.rs` | byte order, byte strings, error numbers |
| `app/` | adapters to a kernel: user memory, sleeping, file system, packets |
| `tests/` | scenarios, run with the real outside crates |

Contracts are stated over spec functions on plain values; functions named `law_*`
are theorems about several calls. What is taken on trust stands in
`src/net/wireguard/primitives.rs` (BLAKE2s, ChaCha20-Poly1305 and X25519),
`src/process/elf.rs` (reading ELF headers) and `src/text.rs` (the validity of
UTF-8).
