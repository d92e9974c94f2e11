//! Ingestion options and errors.

use vstd::prelude::*;
use crate::text;

verus! {

broadcast use vstd::string::group_string_axioms;

/// `max_batch_size` caps the number of rows in one batch.
#[derive(Debug, Clone, Copy)]
pub struct PlannerOptions {
    pub max_batch_size: usize,
}

impl Default for PlannerOptions {
    fn default() -> (r: PlannerOptions)
        ensures
            r.max_batch_size == 256,
    {
        PlannerOptions { max_batch_size: 256 }
    }
}

/// Why an ingestion cannot be planned.
#[derive(Debug, PartialEq)]
pub enum IngestError {
    Ast(String),
    UnknownEntityType(String),
    InvalidBatchSize,
    Type(String),
    ReservedLabel(String),
    ReservedRelation(String),
    InvalidLabel(String),
    UnknownLocalId { chunk: String, local_id: String },
    MissingGraphPrimaryKey(String),
    MissingGraphPrimaryKeyValue { label: String, field: String },
    UnknownGraphEntityRef(usize),
    SoftMergeBackendUnavailable(String),
    SoftMerge(String),
}

pub enum IngestErrorModel {
    Ast(Seq<char>),
    UnknownEntityType(Seq<char>),
    InvalidBatchSize,
    Type(Seq<char>),
    ReservedLabel(Seq<char>),
    ReservedRelation(Seq<char>),
    InvalidLabel(Seq<char>),
    UnknownLocalId { chunk: Seq<char>, local_id: Seq<char> },
    MissingGraphPrimaryKey(Seq<char>),
    MissingGraphPrimaryKeyValue { label: Seq<char>, field: Seq<char> },
    UnknownGraphEntityRef(usize),
    SoftMergeBackendUnavailable(Seq<char>),
    SoftMerge(Seq<char>),
}

impl DeepView for IngestError {
    type V = IngestErrorModel;

    open spec fn deep_view(&self) -> IngestErrorModel {
        match self {
            IngestError::Ast(m) => IngestErrorModel::Ast(m@),
            IngestError::UnknownEntityType(t) => IngestErrorModel::UnknownEntityType(t@),
            IngestError::InvalidBatchSize => IngestErrorModel::InvalidBatchSize,
            IngestError::Type(m) => IngestErrorModel::Type(m@),
            IngestError::ReservedLabel(l) => IngestErrorModel::ReservedLabel(l@),
            IngestError::ReservedRelation(l) => IngestErrorModel::ReservedRelation(l@),
            IngestError::InvalidLabel(l) => IngestErrorModel::InvalidLabel(l@),
            IngestError::UnknownLocalId { chunk, local_id } => IngestErrorModel::UnknownLocalId {
                chunk: chunk@,
                local_id: local_id@,
            },
            IngestError::MissingGraphPrimaryKey(l) => IngestErrorModel::MissingGraphPrimaryKey(l@),
            IngestError::MissingGraphPrimaryKeyValue { label, field } =>
                IngestErrorModel::MissingGraphPrimaryKeyValue { label: label@, field: field@ },
            IngestError::UnknownGraphEntityRef(i) => IngestErrorModel::UnknownGraphEntityRef(*i),
            IngestError::SoftMergeBackendUnavailable(l) =>
                IngestErrorModel::SoftMergeBackendUnavailable(l@),
            IngestError::SoftMerge(m) => IngestErrorModel::SoftMerge(m@),
        }
    }
}

/// A planning result by its model.
pub open spec fn outcome_model<T: DeepView>(r: Result<T, IngestError>) -> Result<
    T::V,
    IngestErrorModel,
> {
    match r {
        Ok(x) => Ok(x.deep_view()),
        Err(e) => Err(e.deep_view()),
    }
}

/// The text of an error.
pub open spec fn error_text(e: IngestErrorModel) -> Seq<char> {
    match e {
        IngestErrorModel::Ast(m) => m,
        IngestErrorModel::UnknownEntityType(t) =>
            "relationship references unknown entity type '"@ + t + "'"@,
        IngestErrorModel::InvalidBatchSize => "max_batch_size must be greater than zero"@,
        IngestErrorModel::Type(m) => "type handler error during ingestion: "@ + m,
        IngestErrorModel::ReservedLabel(l) => "'"@ + l
            + "' is a reserved entity label and cannot be used for user entities"@,
        IngestErrorModel::ReservedRelation(l) => "'"@ + l
            + "' is a reserved relation type and cannot be used for user relations"@,
        IngestErrorModel::InvalidLabel(l) => "identifier '"@ + l
            + "' is not a valid Cypher label/relation name even after sanitization"@,
        IngestErrorModel::UnknownLocalId { chunk, local_id } => "relation in chunk '"@ + chunk
            + "' references unknown local entity id '"@ + local_id + "'"@,
        IngestErrorModel::MissingGraphPrimaryKey(l) => "graph entity '"@ + l
            + "' is missing a primary key"@,
        IngestErrorModel::MissingGraphPrimaryKeyValue { label, field } => "graph entity '"@ + label
            + "' is missing primary-key property '"@ + field + "'"@,
        IngestErrorModel::UnknownGraphEntityRef(i) =>
            "relationship references unknown graph entity ref "@ + text::nat_text(i as nat),
        IngestErrorModel::SoftMergeBackendUnavailable(l) =>
            "soft-merge resolver requires an embedder + GraphClient but the pipeline has none: entity '"@
            + l + "' uses PrimaryKey::Soft"@,
        IngestErrorModel::SoftMerge(m) => "soft-merge resolver failed: "@ + m,
    }
}

fn around(before: &str, middle: &str, after: &str) -> (r: String)
    ensures
        r@ == before@ + middle@ + after@,
{
    let mut s = before.to_owned();
    s.append(middle);
    s.append(after);
    s
}

fn joined(before: &str, after: &str) -> (r: String)
    ensures
        r@ == before@ + after@,
{
    let mut s = before.to_owned();
    s.append(after);
    s
}

impl IngestError {
    /// The text of the error.
    pub fn message(&self) -> (r: String)
        ensures
            r@ == error_text(self.deep_view()),
    {
        match self {
            IngestError::Ast(m) => m.clone(),
            IngestError::UnknownEntityType(t) => around(
                "relationship references unknown entity type '",
                t.as_str(),
                "'",
            ),
            IngestError::InvalidBatchSize => "max_batch_size must be greater than zero".to_owned(),
            IngestError::Type(m) => joined("type handler error during ingestion: ", m.as_str()),
            IngestError::ReservedLabel(l) => around(
                "'",
                l.as_str(),
                "' is a reserved entity label and cannot be used for user entities",
            ),
            IngestError::ReservedRelation(l) => around(
                "'",
                l.as_str(),
                "' is a reserved relation type and cannot be used for user relations",
            ),
            IngestError::InvalidLabel(l) => around(
                "identifier '",
                l.as_str(),
                "' is not a valid Cypher label/relation name even after sanitization",
            ),
            IngestError::UnknownLocalId { chunk, local_id } => {
                let mut s = around(
                    "relation in chunk '",
                    chunk.as_str(),
                    "' references unknown local entity id '",
                );
                s.append(local_id.as_str());
                s.append("'");
                s
            },
            IngestError::MissingGraphPrimaryKey(l) => around(
                "graph entity '",
                l.as_str(),
                "' is missing a primary key",
            ),
            IngestError::MissingGraphPrimaryKeyValue { label, field } => {
                let mut s = around(
                    "graph entity '",
                    label.as_str(),
                    "' is missing primary-key property '",
                );
                s.append(field.as_str());
                s.append("'");
                s
            },
            IngestError::UnknownGraphEntityRef(i) => joined(
                "relationship references unknown graph entity ref ",
                text::usize_text(*i).as_str(),
            ),
            IngestError::SoftMergeBackendUnavailable(l) => around(
                "soft-merge resolver requires an embedder + GraphClient but the pipeline has none: entity '",
                l.as_str(),
                "' uses PrimaryKey::Soft",
            ),
            IngestError::SoftMerge(m) => joined("soft-merge resolver failed: ", m.as_str()),
        }
    }
}

} // verus!
