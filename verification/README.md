# custos

How an unprivileged worker gets an AF_XDP socket from a privileged daemon, and how the socket and
its packet memory are set up. The library holds the decisions, each with a contract that Verus
proves; `app/` performs them on a live Linux system.

| Module | What it holds |
| --- | --- |
| `bytes` | unsigned integers as bytes, in either byte order |
| `scm_rights` | the control message that carries descriptors: writing it, and reading it back |
| `handshake` | the worker's side of the handshake, as a state machine |
| `worker` | the configuration that the daemon sends |
| `error` | what can go wrong in a handshake |
| `socket` | the settings of packet memory and socket, and the check of the Fill ring |
| `text` | decimal numbers, and white space at the end of a line |

Functions whose names begin with `law_` state what holds of several functions together: that a
receiver reads the descriptors that were sent, that no handshake leaks a descriptor, that the first
failure is the one reported.

Taken on trust are the two `libc` constants in `scm_rights`, the native byte order of the machine,
and `str::trim_end` in `text`.
