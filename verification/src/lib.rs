//! Governance-style records kept in a durable byte region that survives
//! process restarts: a region partitioner carves the region into independent
//! sub-regions, each sub-region backs one ordered persistent map, and every
//! record type stored in a map has a bounded, deterministic byte codec.
//! Proposal voting, exam records and participation percentages are built on
//! top of that storage layer.
pub mod codec;
pub mod exam;
pub mod governance;
pub mod proposal;
pub mod records;
pub mod storage;
pub mod stores;
