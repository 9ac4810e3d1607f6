//! A note store kept in plain directories.
//!
//! A note is named by a path of segments, such as `rust release install`.
//! Under the root of the store each segment is a directory, and in it lies
//! a markdown file of the same name: `rust/rust.md`,
//! `rust/release/release.md`, and so on. So every note has a file of its
//! own, and the notes below a note lie below its directory.
//!
//! The crate decides and never acts. It does not read the disk or the
//! keyboard and does not write: it is told what was found and says what is
//! to be done next. The program around it does the acting.
//!
//! - [`config`] reads the command line into the settings of a run.
//! - [`walker`] lists what lies below a directory, given the tree that a
//!   scan of it found, and [`scans`] proves that the listing does not show
//!   in which order the scan came upon the entries.
//! - [`materializer`] brings a note into being, step by step, and
//!   [`disk`] proves what that does to a disk.
//! - [`session`] is a whole run, step by step.
//! - [`tree`], [`path`] and [`text`] hold what these are built from.

pub mod config;
pub mod disk;
pub mod materializer;
pub mod path;
pub mod scans;
pub mod session;
pub mod text;
pub mod tree;
pub mod walker;

pub use config::{Config, Task};
pub use materializer::{create_missing_files, Materialize, Progress};
pub use session::{execute_help, run, Action, Event};
pub use tree::Entry;
pub use walker::{all_paths, markdown_paths};
