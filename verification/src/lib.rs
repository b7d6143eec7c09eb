//! The logic of a CLI-driven, daemon-backed RDP client.
//!
//! The crate decides; it performs no input or output of its own. The command line ([`cli`]) turns
//! an invocation into a request ([`ipc`]), which travels in a binary form ([`wire`]). The daemon
//! ([`daemon`]) owns one session and answers. Property dumps, the status of a session, and the log
//! lines that are retained once it was opened ([`logbuf`]) are redacted: [`daemon::laws`] says of
//! each what is never in it.

pub mod cli;
pub mod client;
pub mod daemon;
pub mod input;
pub mod ipc;
pub mod logbuf;
pub mod properties;
pub mod text;
pub mod wire;
