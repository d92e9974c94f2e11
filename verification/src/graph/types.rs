//! Handles into a graph, and why one cannot be built.

use vstd::prelude::*;
use crate::text;

verus! {

broadcast use vstd::string::group_string_axioms;

/// Stable handle of an entity inside a graph.
#[derive(Debug, Clone, Copy, PartialEq, Eq, Hash, PartialOrd, Ord, Structural)]
pub struct EntityRef(pub usize);

impl DeepView for EntityRef {
    type V = int;

    open spec fn deep_view(&self) -> int {
        self.0 as int
    }
}

impl EntityRef {
    pub fn from_index(index: usize) -> (r: EntityRef)
        ensures
            r.0 == index,
    {
        EntityRef(index)
    }

    pub fn index(self) -> (r: usize)
        ensures
            r == self.0,
    {
        self.0
    }
}

/// Stable handle of a relation inside a graph.
#[derive(Debug, Clone, Copy, PartialEq, Eq, Hash, PartialOrd, Ord, Structural)]
pub struct RelationRef(pub usize);

impl RelationRef {
    pub fn index(self) -> (r: usize)
        ensures
            r == self.0,
    {
        self.0
    }
}

/// Why a graph cannot be built.
#[derive(Debug, Clone, Copy, PartialEq, Eq, Structural)]
pub enum GraphBuildError {
    UnknownEntityRef(usize),
    ChunkWithoutSource,
}

/// The text of a build error.
pub open spec fn build_error_text(e: GraphBuildError) -> Seq<char> {
    match e {
        GraphBuildError::UnknownEntityRef(i) => "unknown entity reference "@ + text::nat_text(
            i as nat,
        ),
        GraphBuildError::ChunkWithoutSource =>
            "cannot add a Chunk: the GraphBuilder has no active Source. Call GraphBuilder::with_source(name) or add_source(name) first."@,
    }
}

impl GraphBuildError {
    /// The text of the error.
    pub fn message(&self) -> (r: String)
        ensures
            r@ == build_error_text(*self),
    {
        match self {
            GraphBuildError::UnknownEntityRef(i) => {
                let mut s = "unknown entity reference ".to_owned();
                s.append(text::usize_text(*i).as_str());
                s
            },
            GraphBuildError::ChunkWithoutSource =>
                "cannot add a Chunk: the GraphBuilder has no active Source. Call GraphBuilder::with_source(name) or add_source(name) first.".to_owned(),
        }
    }
}

} // verus!
