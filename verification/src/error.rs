//! The error that all layers converge into.

use vstd::prelude::*;
use crate::graph::ontology_storage;
use crate::graph::ontology_storage::OntologyError;
use crate::graph::ontology_storage::OntologyErrorModel;
use crate::graph::types;
use crate::graph::types::GraphBuildError;
use crate::ingest::error;
use crate::ingest::error::IngestError;
use crate::ingest::error::IngestErrorModel;

verus! {

broadcast use vstd::string::group_string_axioms;

/// Any error, by the layer it comes from.
#[derive(Debug, PartialEq)]
pub enum Error {
    Dsl(String),
    Ast(String),
    Builder(String),
    InsertBuilder(String),
    Mapper(String),
    GraphBuild(GraphBuildError),
    Ingest(IngestError),
    Db(String),
    Config(String),
    Ontology(OntologyError),
    Io(String),
    Serde(String),
}

pub enum ErrorModel {
    Dsl(Seq<char>),
    Ast(Seq<char>),
    Builder(Seq<char>),
    InsertBuilder(Seq<char>),
    Mapper(Seq<char>),
    GraphBuild(GraphBuildError),
    Ingest(IngestErrorModel),
    Db(Seq<char>),
    Config(Seq<char>),
    Ontology(OntologyErrorModel),
    Io(Seq<char>),
    Serde(Seq<char>),
}

impl DeepView for Error {
    type V = ErrorModel;

    open spec fn deep_view(&self) -> ErrorModel {
        match self {
            Error::Dsl(x) => ErrorModel::Dsl(x@),
            Error::Ast(x) => ErrorModel::Ast(x@),
            Error::Builder(x) => ErrorModel::Builder(x@),
            Error::InsertBuilder(x) => ErrorModel::InsertBuilder(x@),
            Error::Mapper(x) => ErrorModel::Mapper(x@),
            Error::GraphBuild(x) => ErrorModel::GraphBuild(*x),
            Error::Ingest(x) => ErrorModel::Ingest(x.deep_view()),
            Error::Db(x) => ErrorModel::Db(x@),
            Error::Config(x) => ErrorModel::Config(x@),
            Error::Ontology(x) => ErrorModel::Ontology(x.deep_view()),
            Error::Io(x) => ErrorModel::Io(x@),
            Error::Serde(x) => ErrorModel::Serde(x@),
        }
    }
}

/// The text of an error.
pub open spec fn any_error_text(e: ErrorModel) -> Seq<char> {
    match e {
        ErrorModel::Dsl(m) => "DSL error: "@ + m,
        ErrorModel::Ast(m) => "AST error: "@ + m,
        ErrorModel::Builder(m) => "Cypher builder error: "@ + m,
        ErrorModel::InsertBuilder(m) => "Insert builder error: "@ + m,
        ErrorModel::Mapper(m) => "Mapper error: "@ + m,
        ErrorModel::GraphBuild(m) => "Graph build error: "@ + types::build_error_text(m),
        ErrorModel::Ingest(m) => "Ingest error: "@ + error::error_text(m),
        ErrorModel::Db(m) => "Database error: "@ + m,
        ErrorModel::Config(m) => "Configuration error: "@ + m,
        ErrorModel::Ontology(m) => "Ontology error: "@ + ontology_storage::ontology_error_text(m),
        ErrorModel::Io(m) => "I/O error: "@ + m,
        ErrorModel::Serde(m) => "Serialization error: "@ + m,
    }
}

impl Error {
    /// The text of the error.
    pub fn message(&self) -> (r: String)
        ensures
            r@ == any_error_text(self.deep_view()),
    {
        let (head, rest) = match self {
            Error::Dsl(m) => ("DSL error: ", m.clone()),
            Error::Ast(m) => ("AST error: ", m.clone()),
            Error::Builder(m) => ("Cypher builder error: ", m.clone()),
            Error::InsertBuilder(m) => ("Insert builder error: ", m.clone()),
            Error::Mapper(m) => ("Mapper error: ", m.clone()),
            Error::GraphBuild(m) => ("Graph build error: ", m.message()),
            Error::Ingest(m) => ("Ingest error: ", m.message()),
            Error::Db(m) => ("Database error: ", m.clone()),
            Error::Config(m) => ("Configuration error: ", m.clone()),
            Error::Ontology(m) => ("Ontology error: ", m.message()),
            Error::Io(m) => ("I/O error: ", m.clone()),
            Error::Serde(m) => ("Serialization error: ", m.clone()),
        };
        let mut s = head.to_owned();
        s.append(rest.as_str());
        s
    }
}

} // verus!
