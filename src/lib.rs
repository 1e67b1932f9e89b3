//! Orchestration logic of a semantic-versioning checker: toolchain
//! location, argument normalisation, selection of the old and new crates
//! among the linked ones, run configuration and exit status, and the
//! normalisation of captured output for golden-file comparison.
pub mod args;
pub mod disambiguate;
pub mod golden;
pub mod report;
pub mod sysroot;
pub mod text;
