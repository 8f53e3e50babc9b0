//! Snapshot/delta engine of a CPU spike monitor.
//!
//! A [`sample::SystemSample`] is one reading of the process table. A
//! [`frame::Frame`] keeps the per-process usage of one reading, and
//! [`frame::Frame::delta`] compares two of them. A [`system::SystemState`]
//! owns the baseline that later readings are compared with, and
//! [`main_loop::tick`] decides, reading by reading, what to report and when
//! the baseline advances.
//!
//! All CPU figures are fixed-point integers in hundredths of a percentage
//! point, so `1250` stands for 12.50 %. A share of the largest delta is a
//! percentage on the same scale, so `5000` stands for half of it.

pub mod cli;
pub mod frame;
pub mod main_loop;
pub mod ranking;
pub mod sample;
pub mod snapshot;
pub mod system;
pub mod util;
