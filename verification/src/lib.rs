//! Low-level, deterministic control of an interactive character terminal.
//!
//! The crate is organised around explicit, injectable byte channels: every
//! operation that emits escape sequences writes into a caller-supplied
//! character buffer, and every operation that consumes terminal replies reads
//! from a caller-supplied byte source. Real devices (standard streams, the
//! terminal line discipline) are driven by a thin unverified shell around
//! this library.

pub mod cursor;
pub mod error;
pub mod io;
pub mod protocol;
pub mod raw;
pub mod render;
