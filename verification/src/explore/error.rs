//! Errors of the explorer.

use vstd::prelude::*;

verus! {

broadcast use vstd::string::group_string_axioms;

/// Why the explorer cannot answer.
#[derive(Debug, PartialEq)]
pub enum ExploreError {
    InvalidIdentifier(String),
    UnknownEntity(String),
    TranslatorMissing,
    NoSearchableProperties,
    SemanticSearchUnavailable(String),
}

pub enum ExploreErrorModel {
    InvalidIdentifier(Seq<char>),
    UnknownEntity(Seq<char>),
    TranslatorMissing,
    NoSearchableProperties,
    SemanticSearchUnavailable(Seq<char>),
}

impl DeepView for ExploreError {
    type V = ExploreErrorModel;

    open spec fn deep_view(&self) -> ExploreErrorModel {
        match self {
            ExploreError::InvalidIdentifier(x) => ExploreErrorModel::InvalidIdentifier(x@),
            ExploreError::UnknownEntity(x) => ExploreErrorModel::UnknownEntity(x@),
            ExploreError::TranslatorMissing => ExploreErrorModel::TranslatorMissing,
            ExploreError::NoSearchableProperties => ExploreErrorModel::NoSearchableProperties,
            ExploreError::SemanticSearchUnavailable(x) => ExploreErrorModel::SemanticSearchUnavailable(x@),
        }
    }
}

/// The text of an explorer error.
pub open spec fn explore_error_text(e: ExploreErrorModel) -> Seq<char> {
    match e {
        ExploreErrorModel::InvalidIdentifier(s) => "`"@ + s + "` is not a valid Cypher identifier"@,
        ExploreErrorModel::UnknownEntity(s) => "unknown entity `"@ + s + "`"@,
        ExploreErrorModel::TranslatorMissing =>
            "NL translator is not configured; use Explorer::with_translator"@,
        ExploreErrorModel::NoSearchableProperties =>
            "the graph schema has no searchable string properties"@,
        ExploreErrorModel::SemanticSearchUnavailable(s) => "semantic search unavailable: "@ + s,
    }
}

impl ExploreError {
    /// The text of the error.
    pub fn message(&self) -> (r: String)
        ensures
            r@ == explore_error_text(self.deep_view()),
    {
        match self {
            ExploreError::InvalidIdentifier(s) => {
                let mut m = "`".to_owned();
                m.append(s.as_str());
                m.append("` is not a valid Cypher identifier");
                m
            },
            ExploreError::UnknownEntity(s) => {
                let mut m = "unknown entity `".to_owned();
                m.append(s.as_str());
                m.append("`");
                m
            },
            ExploreError::TranslatorMissing =>
                "NL translator is not configured; use Explorer::with_translator".to_owned(),
            ExploreError::NoSearchableProperties =>
                "the graph schema has no searchable string properties".to_owned(),
            ExploreError::SemanticSearchUnavailable(s) => {
                let mut m = "semantic search unavailable: ".to_owned();
                m.append(s.as_str());
                m
            },
        }
    }
}

} // verus!
