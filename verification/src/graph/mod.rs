//! The owned graph: entities, relations, their ontology and how they are built.

pub mod builder;
pub mod builtins;
pub mod canonical;
pub mod laws;
pub mod ontology;
pub mod ontology_storage;
pub mod postgres_spec_storage;
pub mod projection;
pub mod projection_laws;
pub mod schema;
pub mod scope;
pub mod selection;
pub mod spec;
pub mod spec_laws;
pub mod spec_storage;
pub mod types;
