//! Moufu integration hub: the verified core of a real-time link hub between
//! creative applications (entity registry, link graph, event coalescing,
//! message handling and the control center's view of it).

pub mod assoc;
pub mod client;
pub mod coalesce;
pub mod dashboard;
pub mod graph;
pub mod hub;
pub mod persistence;
pub mod protocol;
pub mod text;
