//! A vector index over file records: entries with fixed-dimension embeddings,
//! all-or-nothing batch insertion, staged rebuilds and exact nearest-neighbour
//! ranking, each stated and proved over mathematical models.

pub mod models;
pub mod distance;
pub mod ranking;
pub mod store;
pub mod indexer;
pub mod context;
pub mod scanner;
pub mod selection;
