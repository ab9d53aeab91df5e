//! Inventory of a host's installed software packages and disk usage.
//!
//! The library aggregates the text output of whichever package-manager
//! tools are present on the machine (pacman/yay, dpkg/flatpak, rpm/dnf)
//! and of the disk-usage utility into one immutable snapshot, and derives
//! statistics from it. All external tools are invoked by the surrounding
//! application; the library receives each invocation's outcome as a plain
//! value and does the detection policy, parsing, merging, failure handling
//! and statistics.

pub mod app;
pub mod codec;
pub mod disk_info;
pub mod outcome;
pub mod packages;
pub mod records;
pub mod stats;
pub mod text;
pub mod utils;
pub mod widgets;
