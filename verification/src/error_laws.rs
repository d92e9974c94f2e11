//! What the messages of errors say: each names what it is about.

use vstd::prelude::*;
use crate::embeddings;
use crate::embeddings::store;
use crate::embeddings::store::StoreErrorModel;
use crate::embeddings::EmbedErrorModel;
use crate::error;
use crate::error::ErrorModel;
use crate::explore::error::ExploreErrorModel;
use crate::graph::ontology_storage;
use crate::graph::ontology_storage::OntologyErrorModel;
use crate::graph::spec_storage;
use crate::graph::spec_storage::GraphSpecificationStorageErrorModel;
use crate::graph::types;
use crate::graph::types::GraphBuildError;
use crate::ingest::delete;
use crate::ingest::delete::DeletePlanErrorModel;
use crate::ingest::error::IngestErrorModel;
use crate::llm;
use crate::llm::LlmErrorModel;
use crate::text;

verus! {

broadcast use vstd::string::group_string_axioms;

proof fn stands_within(head: Seq<char>, part: Seq<char>, tail: Seq<char>)
    ensures
        text::has_substring(head + part + tail, part),
        text::has_suffix(head + part, part),
        text::has_substring(head + part, part),
        text::has_prefix(part + tail, part),
{
    let whole = head + part + tail;
    let at = head.len() as int;
    assert(whole.subrange(at, at + part.len()) =~= part);
    assert(text::occurs_at(whole, part, at));
    let end = head + part;
    assert(end.subrange(at, at + part.len()) =~= part);
    assert(text::occurs_at(end, part, at));
    assert((part + tail).subrange(0, part.len() as int) =~= part);
}

proof fn longer_heads_differ(a: Seq<char>, b: Seq<char>, m: Seq<char>)
    requires
        a.len() != b.len(),
    ensures
        a + m != b + m,
{
    assert((a + m).len() != (b + m).len());
}

/// The message of an error of an embedder ends with what the embedder said, or names the model that
/// is not configured.
pub proof fn law_embedder_errors_say_why(m: Seq<char>)
    ensures
        text::has_suffix(embeddings::embed_error_text(EmbedErrorModel::Io(m)), m),
        text::has_suffix(embeddings::embed_error_text(EmbedErrorModel::Backend(m)), m),
        text::has_substring(embeddings::embed_error_text(EmbedErrorModel::Unconfigured(m)), m),
        embeddings::embed_error_text(EmbedErrorModel::Io(m)) != embeddings::embed_error_text(
            EmbedErrorModel::Backend(m),
        ),
{
    stands_within("embedder I/O error: "@, m, Seq::empty());
    stands_within("embedder backend error: "@, m, Seq::empty());
    stands_within("embedder is not configured for model '"@, m, "'"@);
    reveal_strlit("embedder I/O error: ");
    reveal_strlit("embedder backend error: ");
    longer_heads_differ("embedder I/O error: "@, "embedder backend error: "@, m);
}

/// The message of an error of a store ends with what the store said.
pub proof fn law_store_errors_say_why(m: Seq<char>)
    ensures
        text::has_suffix(store::store_error_text(StoreErrorModel::Backend(m)), m),
        text::has_suffix(store::store_error_text(StoreErrorModel::Transport(m)), m),
        store::store_error_text(StoreErrorModel::Backend(m)) != store::store_error_text(
            StoreErrorModel::Transport(m),
        ),
{
    stands_within("embedding store backend error: "@, m, Seq::empty());
    stands_within("embedding store transport error: "@, m, Seq::empty());
    reveal_strlit("embedding store backend error: ");
    reveal_strlit("embedding store transport error: ");
    longer_heads_differ("embedding store backend error: "@, "embedding store transport error: "@, m);
}

/// The message of an error of an exploration names the identifier, the entity or the reason.
pub proof fn law_explore_errors_name_their_subject(s: Seq<char>)
    ensures
        text::has_substring(
            crate::explore::error::explore_error_text(ExploreErrorModel::InvalidIdentifier(s)),
            s,
        ),
        text::has_substring(
            crate::explore::error::explore_error_text(ExploreErrorModel::UnknownEntity(s)),
            s,
        ),
        text::has_suffix(
            crate::explore::error::explore_error_text(
                ExploreErrorModel::SemanticSearchUnavailable(s),
            ),
            s,
        ),
{
    stands_within("`"@, s, "` is not a valid Cypher identifier"@);
    stands_within("unknown entity `"@, s, "`"@);
    stands_within("semantic search unavailable: "@, s, Seq::empty());
}

/// The message of an error of a catalog ends with the file, the domain or the reason.
pub proof fn law_ontology_errors_name_their_subject(e: OntologyErrorModel, m: Seq<char>)
    requires
        e == OntologyErrorModel::NotFound(m) || e == OntologyErrorModel::Parse(m) || e
            == OntologyErrorModel::Io(m) || e == OntologyErrorModel::UnknownDomain(m) || e
            == OntologyErrorModel::Unsupported(m) || e == OntologyErrorModel::Backend(m),
    ensures
        text::has_suffix(ontology_storage::ontology_error_text(e), m),
{
    stands_within("ontology file not found: "@, m, Seq::empty());
    stands_within("ontology parse error: "@, m, Seq::empty());
    stands_within("io: "@, m, Seq::empty());
    stands_within("unknown domain: "@, m, Seq::empty());
    stands_within("unsupported storage operation: "@, m, Seq::empty());
    stands_within("ontology storage backend error: "@, m, Seq::empty());
}

/// The message of an error of a cache of records ends with the reason.
pub proof fn law_storage_errors_say_why(m: Seq<char>)
    ensures
        text::has_suffix(
            spec_storage::storage_error_text(GraphSpecificationStorageErrorModel::Io(m)),
            m,
        ),
        text::has_suffix(
            spec_storage::storage_error_text(GraphSpecificationStorageErrorModel::Decode(m)),
            m,
        ),
{
    stands_within("I/O error accessing graph specification cache: "@, m, Seq::empty());
    stands_within("invalid graph specification cache contents: "@, m, Seq::empty());
}

/// The message of an unknown reference ends with its number, and that of a prefix which is none
/// names it.
pub proof fn law_build_errors_name_their_subject(i: usize, p: Seq<char>)
    ensures
        text::has_suffix(
            types::build_error_text(GraphBuildError::UnknownEntityRef(i)),
            text::nat_text(i as nat),
        ),
        text::has_substring(
            delete::delete_error_text(DeletePlanErrorModel::InvalidPrefixLabel(p)),
            p,
        ),
{
    stands_within("unknown entity reference "@, text::nat_text(i as nat), Seq::empty());
    stands_within(
        "invalid Cypher identifier '"@,
        p,
        "': prefix labels must match [A-Za-z_][A-Za-z0-9_]*"@,
    );
}

/// The message of an error of ingestion names the label, the type, the field or the reason that it
/// is about.
pub proof fn law_ingest_errors_name_their_subject(m: Seq<char>, i: usize)
    ensures
        crate::ingest::error::error_text(IngestErrorModel::Ast(m)) == m,
        text::has_substring(
            crate::ingest::error::error_text(IngestErrorModel::UnknownEntityType(m)),
            m,
        ),
        text::has_suffix(crate::ingest::error::error_text(IngestErrorModel::Type(m)), m),
        text::has_substring(crate::ingest::error::error_text(IngestErrorModel::ReservedLabel(m)), m),
        text::has_substring(
            crate::ingest::error::error_text(IngestErrorModel::ReservedRelation(m)),
            m,
        ),
        text::has_substring(crate::ingest::error::error_text(IngestErrorModel::InvalidLabel(m)), m),
        text::has_substring(
            crate::ingest::error::error_text(IngestErrorModel::MissingGraphPrimaryKey(m)),
            m,
        ),
        text::has_suffix(
            crate::ingest::error::error_text(IngestErrorModel::UnknownGraphEntityRef(i)),
            text::nat_text(i as nat),
        ),
        text::has_substring(
            crate::ingest::error::error_text(IngestErrorModel::SoftMergeBackendUnavailable(m)),
            m,
        ),
        text::has_suffix(crate::ingest::error::error_text(IngestErrorModel::SoftMerge(m)), m),
{
    stands_within("relationship references unknown entity type '"@, m, "'"@);
    stands_within("type handler error during ingestion: "@, m, Seq::empty());
    stands_within("'"@, m, "' is a reserved entity label and cannot be used for user entities"@);
    stands_within(
        "'"@,
        m,
        "' is a reserved relation type and cannot be used for user relations"@,
    );
    stands_within(
        "identifier '"@,
        m,
        "' is not a valid Cypher label/relation name even after sanitization"@,
    );
    stands_within("graph entity '"@, m, "' is missing a primary key"@);
    stands_within(
        "relationship references unknown graph entity ref "@,
        text::nat_text(i as nat),
        Seq::empty(),
    );
    stands_within(
        "soft-merge resolver requires an embedder + GraphClient but the pipeline has none: entity '"@,
        m,
        "' uses PrimaryKey::Soft"@,
    );
    stands_within("soft-merge resolver failed: "@, m, Seq::empty());
}

/// An error about two names tells which is which: the chunk before the handle, and the label before
/// the field.
pub proof fn law_ingest_errors_tell_names_apart(a: Seq<char>, b: Seq<char>)
    ensures
        text::has_prefix(
            crate::ingest::error::error_text(
                IngestErrorModel::UnknownLocalId { chunk: a, local_id: b },
            ),
            "relation in chunk '"@ + a + "'"@,
        ),
        text::has_suffix(
            crate::ingest::error::error_text(
                IngestErrorModel::UnknownLocalId { chunk: a, local_id: b },
            ),
            "'"@ + b + "'"@,
        ),
        text::has_prefix(
            crate::ingest::error::error_text(
                IngestErrorModel::MissingGraphPrimaryKeyValue { label: a, field: b },
            ),
            "graph entity '"@ + a + "'"@,
        ),
        text::has_suffix(
            crate::ingest::error::error_text(
                IngestErrorModel::MissingGraphPrimaryKeyValue { label: a, field: b },
            ),
            "'"@ + b + "'"@,
        ),
{
    reveal_strlit("'");
    reveal_strlit("' references unknown local entity id '");
    reveal_strlit("' is missing primary-key property '");
    let x = crate::ingest::error::error_text(
        IngestErrorModel::UnknownLocalId { chunk: a, local_id: b },
    );
    let y = crate::ingest::error::error_text(
        IngestErrorModel::MissingGraphPrimaryKeyValue { label: a, field: b },
    );
    let p = "relation in chunk '"@ + a + "'"@;
    let q = "graph entity '"@ + a + "'"@;
    let z = "'"@ + b + "'"@;
    assert(x.subrange(0, p.len() as int) =~= p);
    assert(y.subrange(0, q.len() as int) =~= q);
    assert(x.subrange(x.len() - z.len(), x.len() as int) =~= z);
    assert(y.subrange(y.len() - z.len(), y.len() as int) =~= z);
}

/// The message of an error of a model ends with what the model said, behind the status where there
/// is one, or names the variable that is not set.
pub proof fn law_llm_errors_say_why(m: Seq<char>, status: u16)
    ensures
        text::has_suffix(llm::llm_error_text(LlmErrorModel::Http(m)), m),
        text::has_suffix(llm::llm_error_text(LlmErrorModel::Api { status, message: m }), m),
        text::has_substring(
            llm::llm_error_text(LlmErrorModel::Api { status, message: m }),
            text::nat_text(status as nat),
        ),
        text::has_suffix(llm::llm_error_text(LlmErrorModel::Decode(m)), m),
        text::has_substring(llm::llm_error_text(LlmErrorModel::MissingApiKey(m)), m),
{
    let n = text::nat_text(status as nat);
    let head = "LLM API error (status "@;
    stands_within("LLM transport error: "@, m, Seq::empty());
    stands_within(head + n + "): "@, m, Seq::empty());
    stands_within("failed to decode LLM response: "@, m, Seq::empty());
    stands_within("missing API key: environment variable `"@, m, "` is not set"@);
    let tail = "): "@ + m;
    stands_within(head, n, tail);
    assert(head + n + tail =~= head + n + "): "@ + m);
}

/// The message of an error ends with that of the part which failed.
pub proof fn law_errors_pass_the_reason_on(
    m: Seq<char>,
    g: GraphBuildError,
    i: IngestErrorModel,
    o: OntologyErrorModel,
)
    ensures
        text::has_suffix(error::any_error_text(ErrorModel::Dsl(m)), m),
        text::has_suffix(error::any_error_text(ErrorModel::Ast(m)), m),
        text::has_suffix(error::any_error_text(ErrorModel::Builder(m)), m),
        text::has_suffix(error::any_error_text(ErrorModel::InsertBuilder(m)), m),
        text::has_suffix(error::any_error_text(ErrorModel::Mapper(m)), m),
        text::has_suffix(
            error::any_error_text(ErrorModel::GraphBuild(g)),
            types::build_error_text(g),
        ),
        text::has_suffix(
            error::any_error_text(ErrorModel::Ingest(i)),
            crate::ingest::error::error_text(i),
        ),
        text::has_suffix(error::any_error_text(ErrorModel::Db(m)), m),
        text::has_suffix(error::any_error_text(ErrorModel::Config(m)), m),
        text::has_suffix(
            error::any_error_text(ErrorModel::Ontology(o)),
            ontology_storage::ontology_error_text(o),
        ),
        text::has_suffix(error::any_error_text(ErrorModel::Io(m)), m),
        text::has_suffix(error::any_error_text(ErrorModel::Serde(m)), m),
{
    let e = Seq::<char>::empty();
    stands_within("DSL error: "@, m, e);
    stands_within("AST error: "@, m, e);
    stands_within("Cypher builder error: "@, m, e);
    stands_within("Insert builder error: "@, m, e);
    stands_within("Mapper error: "@, m, e);
    stands_within("Graph build error: "@, types::build_error_text(g), e);
    stands_within("Ingest error: "@, crate::ingest::error::error_text(i), e);
    stands_within("Database error: "@, m, e);
    stands_within("Configuration error: "@, m, e);
    stands_within("Ontology error: "@, ontology_storage::ontology_error_text(o), e);
    stands_within("I/O error: "@, m, e);
    stands_within("Serialization error: "@, m, e);
}

} // verus!
