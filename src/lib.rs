//! Access control for a tool that masks files with a one-byte key: a registry
//! of file keys, failed-attempt counters per (file, address) pair, bans, and
//! the decisions a session makes on each request.

pub mod guard;
pub mod session;
pub mod transform;
