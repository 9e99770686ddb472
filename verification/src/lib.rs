//! A user-space congestion control plane runtime core: a small s-expression
//! language for per-ACK datapath folds, a compiler lowering it to a compact
//! register-machine bytecode, a wire-format serializer for that bytecode and
//! for control messages, and a blocking-socket IPC backend.

pub mod ast;
pub mod datapath;
pub mod ipc;
pub mod lang;
pub mod serialize;
