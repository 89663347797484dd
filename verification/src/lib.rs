//! An incremental computation engine over weighted multisets (Z-sets).
//!
//! Relations are carried as batches: immutable, sorted, duplicate-free
//! snapshots of a Z-set delta (`zset`), read through ordered cursors
//! (`cursor`).  Traces (`trace`) accumulate the batches of a stream into
//! the current state, and the distinct operators (`distinct`, `stream`)
//! derive indicator-set deltas from them, so that each step costs work
//! proportional to the change rather than the data.  A circuit (`circuit`)
//! wires operators into a DAG and steps them in topological order, once
//! per external input.  At the boundaries, `format` and `schema` decide
//! what an output connector is handed, and `rows` and `fixed_binary` carry
//! committed output into row tables, digests and fixed-width values.

pub mod circuit;
pub mod cursor;
pub mod distinct;
pub mod fixed_binary;
pub mod format;
pub mod rows;
pub mod schema;
pub mod stream;
pub mod trace;
pub mod zset;
