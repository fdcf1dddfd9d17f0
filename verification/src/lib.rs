//! One storage engine per directory, shared by every handle of the process.
//!
//! [`engine`] keeps the registry of engines: who opens, who waits, who attaches, and who frees an
//! engine when its last handle is closed. [`path`] derives the key under which a directory is
//! shared. [`surface`] is what a caller sees. Whatever touches the disk, waits or prints is left
//! to the crate that uses this one: a function here says what to do next, and is told how it went.
//!
//! [`model`] is the mathematics that the contracts speak of. [`laws`], [`openers`] and [`keys`]
//! state what follows: of the registry, of many openers of one directory, and of the keys.
//! [`outcomes`] says what the registry's own data are after every step, and [`promises`] how the
//! arguments and the results of calls are related.

pub mod config;
pub mod double;
pub mod engine;
pub mod error;
pub mod keys;
pub mod laws;
pub mod model;
pub mod openers;
pub mod outcomes;
pub mod path;
pub mod persist;
pub mod promises;
pub mod shared;
pub mod soundness;
pub mod storage;
pub mod surface;
pub mod table;
