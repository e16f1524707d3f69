//! Finds a calendar date and/or clock time embedded anywhere in a filename
//! and ranks names by the timestamp read out of them.
//!
//! The scanner walks the name left to right; at each position it tries a
//! full date match, then a full time match, and otherwise consumes one
//! character as filler.  The last successful match of each kind wins, and
//! missing components fall back to fixed defaults.

pub mod fields;
pub mod matchers;
pub mod model;
pub mod rank;
pub mod scan;

pub use model::CalendarDate;
pub use model::ClockTime;
pub use model::ScanState;
pub use model::Timestamp;
pub use rank::Entry;
pub use scan::parse_file_name;
