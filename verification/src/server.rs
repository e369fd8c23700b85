//! The server shell's own vocabulary: configuration defaults, the
//! server-level error forms, and the reply value encoder the
//! connection layer writes with.

pub mod config;
pub mod error;
pub mod resp;
pub mod store;
