//! Generates a multi-root editor workspace configuration for a tree of Rust
//! projects: discovers project roots, flattens their runnable targets, builds
//! debug-launch entries, and merges them into a workspace document while
//! preserving hand-authored content.
//!
//! The library holds the verified pipeline: [`discovery`] walks a modelled
//! directory tree, [`runnables`] selects packages and flattens their targets,
//! [`launch`] builds the debug-launch entries, and [`workspace`] merges them
//! into the persisted document. File-system access, the external metadata
//! query and JSON (de)serialization happen outside the library and exchange
//! plain values with it.

pub mod discovery;
pub mod launch;
pub mod runnables;
pub mod text;
pub mod workspace;
