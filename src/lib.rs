//! Watch files and run named shell pipelines when they change.
//!
//! The library holds the logic: the path index, the content-addressed
//! pipeline store, the resolution of a changed path to the scripts that
//! must run, and the per-path debouncing of filesystem events. Reading and
//! writing the index files, watching the filesystem and spawning processes
//! are left to the caller.
pub mod paths;
pub mod store;
pub mod content;
pub mod run;
pub mod watch;

pub use run::{run_path, run_pipeline};
