//! A test kit that asks questions of a loaded graph and holds the answers
//! against what was expected.

pub mod case;
pub mod extract;
pub mod mask;
pub mod prompts;
pub mod rows;
pub mod run;
pub mod suite;
pub mod types;
pub mod validate;
