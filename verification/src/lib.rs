//! Compile Cap'n Proto schemas with an embedded, in-process schema compiler.
//!
//! This crate holds the logic around the compiler: the builder that collects
//! schema files and options, the rewriting of host paths into the single
//! POSIX-style filesystem that the compiler sees, the compiler's command line,
//! and the interpretation of how a compiler run ended.

pub mod command;
pub mod error;
pub mod host;
pub mod path;
pub mod runner;
mod text;

pub use error::{Error, Result};
pub use path::{to_guest, PathStyle, Prefix};
pub use command::{CommandView, CompileCommand};
pub use host::{abs, is_within_preopened_root, join_paths, preopen_root};
pub use runner::{
    compiler_args, decimal_string, finish_run, guest_root, staging_location, GuestExit, Staging,
    StagingPlace,
};
