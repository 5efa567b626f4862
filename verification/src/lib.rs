//! Core of an interactive process-memory inspector: typed value search over
//! captured memory, candidate refinement across rescans, bounds- and
//! permission-checked access, snapshot bookkeeping and the session state
//! machine that ties them together.
//!
//! Everything here works on plain values. The code that talks to the
//! operating system and to the terminal lives outside this library and feeds
//! it the bytes it has read.
//!
//! - [`model`]: processes, regions, queries and candidates.
//! - [`codec`]: reading typed values out of bytes, and comparing them.
//! - [`search`]: the first scan and the refinement scan.
//! - [`access`]: the checks that every read and write passes first.
//! - [`snapshot`]: captures, and the store of the newest two.
//! - [`session`]: the state machine between front end and back end.
//! - [`render`] and [`parse`]: the texts that the front end shows and reads.

pub mod access;
pub mod codec;
pub mod model;
pub mod parse;
pub mod render;
pub mod search;
pub mod session;
pub mod snapshot;
