//! Scanning of cheat-table text: header attributes, script blocks and
//! structure definitions are found line by line and reported as messages.

pub mod attribute;
pub mod chars;
pub mod clock;
pub mod events;
pub mod format;
pub mod laws;
pub mod model;
pub mod prompt;
pub mod report;
pub mod search;
pub mod session;
pub mod tags;

pub use attribute::{attribute_value, Attribute, SuffixError};
pub use report::{Report, Scan};
