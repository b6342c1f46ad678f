//! Utilities for the front end of a group-procurement platform: validation
//! of what users type, Russian-locale formatting of money and times, safe
//! rendering of chat messages as HTML, and batch operations over lists of
//! procurements and messages (projection, search, sorting, totals).
//!
//! Every function here is pure. Money is counted in hundredths of a ruble,
//! instants in milliseconds since the Unix epoch, and whatever depends on the
//! clock or the time zone of the host is handed in by the caller.

pub mod benchmark;
pub mod format;
pub mod json;
pub mod markup;
pub mod messages;
pub mod procurements;
pub mod progress;
pub mod search;
pub mod sort;
pub mod sorting;
pub mod stats;
pub mod text;
pub mod validate;
