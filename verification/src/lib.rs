//! The read-only wiki service, without its database, its HTTP server and its clock.
use vstd::prelude::*;

pub mod activity;
pub mod answer;
pub mod catalog;
pub mod changes;
pub mod clock;
pub mod config;
pub mod decimal;
pub mod diff;
pub mod error;
pub mod graph;
pub mod json;
pub mod lines;
pub mod live;
pub mod mcp;
pub mod order;
pub mod page;
pub mod query;
pub mod search;
pub mod source;
pub mod tally;
pub mod text;
pub mod timeline;

verus! {

} // verus!
