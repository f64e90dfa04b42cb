//! One-way mirror of a source directory tree into a target directory.
//!
//! The verified core: discovering every regular file of a source snapshot,
//! deciding per file whether the target copy is stale, planning the copy
//! work, tracking a run's progress, and rendering the log lines. The
//! filesystem itself is reached only from unverified glue around this crate,
//! which feeds plain metadata values in and carries planned actions out.

pub mod meta;
pub mod model;
pub mod paths;
pub mod report;
pub mod run;
pub mod sync;
pub mod tree;
