//! Verified core of an interactive host health dashboard.
//!
//! The crate holds the decisions of the dashboard and none of its I/O: how raw
//! counters become usage figures, which cache directories and processes are
//! worth reporting and in what order, how the listing of a container tool is
//! read, what the shared issue state may hold, and how key presses move the
//! interaction between its modes and release destructive actions.

pub mod controller;
pub mod images;
pub mod interaction;
pub mod issues;
pub mod processes;
pub mod ranking;
pub mod scan;
pub mod text;
pub mod usage;
