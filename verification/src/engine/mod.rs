//! The decisions of the execution engine, apart from its I/O: file naming,
//! run framing, the spill ledger, the stable sort of a run buffer, the
//! cascade-merge pass planner, the merge front with its dedup filter and the
//! laws of the whole merge, and the output stream's end-of-stream protocol.

pub mod cascade;
pub mod frame;
pub mod kway;
pub mod ledger;
pub mod merge;
pub mod naming;
pub mod sort;
pub mod stream;
