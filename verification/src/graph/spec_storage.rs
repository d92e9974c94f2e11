//! Where a graph specification is kept in a file, and what a missing one means.

use vstd::prelude::*;
use crate::graph::spec;
use crate::graph::spec::GraphSpecModel;
use crate::graph::spec::GraphSpecification;

verus! {

broadcast use vstd::string::group_string_axioms;

/// Where the specification is kept unless told otherwise.
pub const DEFAULT_GRAPH_SPECIFICATION_CACHE_PATH: &'static str =
    ".linguagraph/graph_specification.json";

/// Why a specification could not be read or written.
#[derive(Debug, PartialEq)]
pub enum GraphSpecificationStorageError {
    Io(String),
    Decode(String),
}

pub enum GraphSpecificationStorageErrorModel {
    Io(Seq<char>),
    Decode(Seq<char>),
}

impl DeepView for GraphSpecificationStorageError {
    type V = GraphSpecificationStorageErrorModel;

    open spec fn deep_view(&self) -> GraphSpecificationStorageErrorModel {
        match self {
            GraphSpecificationStorageError::Io(x) => GraphSpecificationStorageErrorModel::Io(x@),
            GraphSpecificationStorageError::Decode(x) => GraphSpecificationStorageErrorModel::Decode(x@),
        }
    }
}

/// The text of a storage error.
pub open spec fn storage_error_text(e: GraphSpecificationStorageErrorModel) -> Seq<char> {
    match e {
        GraphSpecificationStorageErrorModel::Io(m) =>
            "I/O error accessing graph specification cache: "@ + m,
        GraphSpecificationStorageErrorModel::Decode(m) =>
            "invalid graph specification cache contents: "@ + m,
    }
}

impl GraphSpecificationStorageError {
    /// The text of the error.
    pub fn message(&self) -> (r: String)
        ensures
            r@ == storage_error_text(self.deep_view()),
    {
        match self {
            GraphSpecificationStorageError::Io(m) => {
                let mut s = "I/O error accessing graph specification cache: ".to_owned();
                s.append(m.as_str());
                s
            },
            GraphSpecificationStorageError::Decode(m) => {
                let mut s = "invalid graph specification cache contents: ".to_owned();
                s.append(m.as_str());
                s
            },
        }
    }
}

/// A specification in a file.
#[derive(Debug, PartialEq)]
pub struct FileGraphSpecificationStorage {
    pub path: String,
}

impl FileGraphSpecificationStorage {
    /// The storage at a path.
    pub fn new(path: &str) -> (r: Self)
        ensures
            r.path@ == path@,
    {
        FileGraphSpecificationStorage { path: path.to_owned() }
    }

    /// The path unless told otherwise.
    pub fn default_path() -> (r: String)
        ensures
            r@ == DEFAULT_GRAPH_SPECIFICATION_CACHE_PATH@,
    {
        DEFAULT_GRAPH_SPECIFICATION_CACHE_PATH.to_owned()
    }

    /// Where the file is.
    pub fn path(&self) -> (r: &str)
        ensures
            r@ == self.path@,
    {
        self.path.as_str()
    }
}

impl Default for FileGraphSpecificationStorage {
    fn default() -> (r: FileGraphSpecificationStorage)
        ensures
            r.path@ == DEFAULT_GRAPH_SPECIFICATION_CACHE_PATH@,
    {
        FileGraphSpecificationStorage { path: FileGraphSpecificationStorage::default_path() }
    }
}

/// What a load gives: what was found, or no records where nothing was.
pub open spec fn loaded(found: Option<GraphSpecModel>) -> GraphSpecModel {
    match found {
        Some(s) => s,
        None => Seq::empty(),
    }
}

/// What a load gives. A missing or empty file, and a missing row, is no records.
pub fn loaded_or_empty(found: Option<GraphSpecification>) -> (r: GraphSpecification)
    ensures
        r.deep_view() == loaded(found.deep_view()),
{
    match found {
        Some(s) => s,
        None => GraphSpecification::new(),
    }
}

/// What an update stores: what was there with the incoming records put in.
pub fn updated(found: Option<GraphSpecification>, incoming: &GraphSpecification) -> (r:
    GraphSpecification)
    ensures
        r.deep_view() == spec::merged_records(loaded(found.deep_view()), incoming.deep_view()),
{
    let mut current = loaded_or_empty(found);
    current.merge(incoming);
    current
}

} // verus!
