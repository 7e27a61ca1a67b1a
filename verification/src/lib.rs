//! A manager for long-running game-server processes on a single host.
//!
//! The heart of the crate is a supervisor that owns a table of live child
//! processes, serializes every mutating operation against that table, and
//! keeps a bounded in-memory log of each process's console output. Around
//! it sit the configuration store (server definitions and users) and the
//! version catalogue from which server artifacts are chosen.

use vstd::prelude::*;

pub mod configuration;
pub mod log_buffer;
pub mod server_runner;
pub mod versions;
pub mod webui;

verus! {

} // verus!
