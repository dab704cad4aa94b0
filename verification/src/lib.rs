//! Core of a minimal line-oriented mail-transfer server: line framing,
//! command parsing, the per-connection session state machine, and reply
//! encoding.  All I/O stays outside; the core consumes byte chunks and
//! produces replies and transaction events as plain values.

pub mod bytes;
pub mod encoder;
pub mod framer;
pub mod laws;
pub mod machine;
pub mod parser;
pub mod session;
