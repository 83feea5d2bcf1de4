//! Directory-size scanning.
//!
//! The library holds the rules of a scan and leaves the reading of disks,
//! threads and the window to the program around it:
//!
//! - `tree`, `sort`, `prune`: the size tree, its ordering by size, and the
//!   removal of a path from it;
//! - `walk`: the depth-first traversal as a state machine, and `replay`: what
//!   it builds from the readings of a whole tree;
//! - `fanout`: a directory put together from entries scanned side by side;
//! - `engine`, `progress`: the phases of a scan, its progress and its result;
//! - `disk`: the volume that a path lies on;
//! - `session`: what a viewer keeps between scans;
//! - `i18n`, `text`, `units`, `ico`: interface texts, text helpers, size units
//!   and the icon container.

pub mod disk;
pub mod engine;
pub mod fanout;
pub mod i18n;
pub mod ico;
pub mod progress;
pub mod prune;
pub mod replay;
pub mod session;
pub mod sort;
pub mod text;
pub mod tree;
pub mod units;
pub mod walk;
