//! A native-code build orchestrator core: decides which translation units
//! need recompilation from transitive header dependencies and modification
//! times, constructs the compile and link command lines, and resolves
//! transitive package dependencies, merging their build configuration into
//! the local build.
//!
//! All filesystem reads, metadata queries, subprocess and network calls are
//! performed by the surrounding binary; this library receives their results
//! as plain values and makes every build decision from them.

pub mod strutil;

pub mod stale;

pub mod includes;

pub mod utils;

pub mod builder;
