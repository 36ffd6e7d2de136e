//! Metrics aggregation and time-series history engine for a terminal
//! process monitor.
//!
//! The engine turns periodic point-in-time snapshots into a sortable table
//! of current per-process values and fixed-length, right-aligned rolling
//! windows for charting. Acquiring OS metrics, drawing and key decoding are
//! left to the surrounding binary; the engine works on plain values handed
//! in by a snapshot provider.

pub mod bounded;
pub mod chart;
pub mod helpers;
pub mod process;
pub mod sort;
pub mod state;
pub mod system;
pub mod types;
pub mod widths;
