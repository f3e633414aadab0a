//! A canonical reference dataset of world countries, assembled from several
//! independently formatted sources: a generic table-extraction engine over a
//! plain document model, one row decoder per source shape, and a
//! reconciliation engine that merges loosely keyed records into one map of
//! country entities keyed by ISO 3166-1 alpha-2 code.

pub mod datahub;
pub mod extract;
pub mod model;
pub mod reconcile;
pub mod sorted;
pub mod text;
pub mod wikipedia;
