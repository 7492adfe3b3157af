//! Fetching the event logs of one contract from an Ethereum node, page by
//! page, with a bounded number of queries in flight.
//!
//! The library holds the decisions and leaves the input and output to its
//! caller:
//!
//! - `range` cuts the blocks from zero to the latest block into pages;
//! - `fetch` says what is asked for one page and what is recorded of the
//!   answer;
//! - `scheduler` hands the pages out within the limit and collects one
//!   outcome for each;
//! - `report` turns each outcome into the line that is written for it;
//! - `config` holds what a run is given at its start;
//! - `address`, `decimal` and `json` read and write the values that the
//!   others need as text.

pub mod address;
pub mod config;
pub mod decimal;
pub mod fetch;
pub mod json;
pub mod range;
pub mod report;
pub mod scheduler;
