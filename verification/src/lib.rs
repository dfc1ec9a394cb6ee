//! Core logic for a "largest filesystem entries" reporter: parsing a range
//! specification into a selection policy, scaling byte counts to display
//! units, selecting and ranking the window of records to show, and building
//! the final output lines. Process orchestration (walking directories,
//! sorting, printing) lives outside this crate.
use vstd::prelude::*;

pub mod decimal;
pub mod messages;
pub mod options;
pub mod range;
pub mod render;
pub mod units;
