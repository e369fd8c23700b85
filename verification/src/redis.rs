//! The RESP protocol surface: framing and encoding, the shell-like
//! tokenizer of the inline protocol, the command table, the
//! per-connection transaction state machine, the error vocabulary, and
//! the dense HyperLogLog register file.

pub mod command;
pub mod config;
pub mod error;
pub mod hyperloglog;
pub mod resp;
pub mod session;
pub mod string;
