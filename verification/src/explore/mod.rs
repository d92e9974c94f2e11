//! Browsing a graph: entities, their neighbours, tables, timelines and exports.

pub mod answer_laws;
pub mod calendar;
pub mod classify;
pub mod dto;
pub mod error;
pub mod explorer;
pub mod export;
pub mod laws;
pub mod queries;
pub mod query_laws;
pub mod subgraph;
pub mod summary;
pub mod table_laws;
pub mod timeline;
