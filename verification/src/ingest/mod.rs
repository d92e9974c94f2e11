//! Ingestion: turning documents, extracted rows and graphs into insert batches,
//! and planning deletions.

pub mod convert;
pub mod delete;
pub mod document;
pub mod document_laws;
pub mod document_outcome_laws;
pub mod dsl;
pub mod error;
pub mod graph;
pub mod graph_fault_laws;
pub mod graph_laws;
pub mod laws;
pub mod planner;
pub mod planner_laws;
pub mod soft_merge;
