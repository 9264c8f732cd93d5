//! The decisions behind handing an AF_XDP socket from a privileged daemon to an unprivileged
//! worker: the layout of the `SCM_RIGHTS` message that carries the descriptors, the worker's side
//! of the handshake, and the settings of the packet memory and of the socket.
//!
//! Nothing here touches a descriptor, a socket or packet memory: each function takes what the
//! operating system reported and returns what to ask of it next.

pub mod bytes;
pub mod error;
pub mod handshake;
pub mod scm_rights;
pub mod socket;
pub mod text;
pub mod worker;
