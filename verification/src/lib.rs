//! Project-wide search and replace: pattern building, filter rules, line
//! scanning, replacement planning and result aggregation, free of I/O.

pub mod budget;
pub mod document;
pub mod error;
pub mod filter;
pub mod ledger;
pub mod listing;
pub mod model;
pub mod pattern;
pub mod replace;
pub mod scan;
pub mod search;
pub mod text;
pub mod watch;
