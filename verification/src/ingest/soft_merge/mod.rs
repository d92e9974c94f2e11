//! Merging entities that have no key of their own with similar ones: in the same
//! graph, and in the database.

pub mod decision;
pub mod lexical;
pub mod merge_laws;
pub mod name_laws;
pub mod query;
pub mod resolve;
