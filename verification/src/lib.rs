//! Structured, streaming traversal output as newline-delimited JSON.
//!
//! A scan walks its inputs and emits one JSON object per line. Every line is a single event,
//! in this order of first appearance:
//!
//! - `hello` - the first line, carrying the protocol version and walk configuration.
//! - `entry` - one line per traversed entry (including each input root at depth `0`), with its
//!   path, depth, kind, apparent size (`len`) and allocated size (`allocated`).
//! - `error` - one line per filesystem error. Traversal errors may come without a failing path; the
//!   line then identifies only the input root that owns the error, and the failing path is never
//!   fabricated.
//! - `summary` - aggregate counters and sizes over all successfully emitted entries.
//! - `done` - terminal event with the exit code and overall status.
//!
//! Errors that come about before there is an entry are held back until one has been emitted, or until
//! the walk has ended without one.
//!
//! [`report`] says which records a scan emits, as a function of what has happened in it, and
//! [`record`] what the line of a record is. [`scan`] takes in what happens, step by step, and gives
//! the lines; [`aggregate`] runs a whole scan against an output that may fail. [`laws`] and
//! [`reader`] hold what is proved of every stream, [`account`] what is proved of the record of every
//! input and event, [`wire`] what is proved of the text of every line, and [`steps`] what is proved of
//! the results of every step and of a whole scan. Reading the file system and writing the lines out
//! is left to the caller, who passes paths as text.

pub mod account;
pub mod aggregate;
pub mod inodes;
pub mod json;
pub mod laws;
pub mod output;
pub mod paths;
pub mod reader;
pub mod record;
pub mod report;
pub mod scan;
pub mod steps;
pub mod walk;
pub mod wire;
