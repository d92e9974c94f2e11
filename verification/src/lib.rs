//! Typed ingestion, exploration and end-to-end checking of a knowledge graph.

pub mod ast;
pub mod cypher;
pub mod db;
pub mod debug;
pub mod dsl;
pub mod e2e;
pub mod embeddings;
pub mod error;
pub mod error_laws;
pub mod explore;
pub mod floats;
pub mod graph;
pub mod groups;
pub mod ids;
pub mod ingest;
pub mod json;
pub mod literal;
pub mod llm;
pub mod prompt;
pub mod seqs;
pub mod sorting;
pub mod strmap;
pub mod text;
pub mod textset;
pub mod types;
