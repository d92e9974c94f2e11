//! The entity types and relation labels that every graph knows.

use vstd::prelude::*;
use crate::graph::schema;
use crate::graph::schema::EntityGraph;
use crate::graph::schema::EntityGraphModel;
use crate::graph::schema::OntologyPropertyType;
use crate::graph::schema::PrimaryKeyModel;
use crate::ids;
use crate::json::Json;
use crate::json::JsonModel;
use crate::strmap;
use crate::text;

verus! {

broadcast use vstd::string::group_string_axioms;

/// Label of the document that a graph was built from.
pub const SOURCE_LABEL: &'static str = "Source";

/// Label of a text fragment of a source.
pub const CHUNK_LABEL: &'static str = "Chunk";

/// Relation from an entity to the source that mentions it.
pub const MENTION_REL: &'static str = "mention";

/// Relation from a chunk to its source.
pub const PART_OF_REL: &'static str = "part_of";

/// A hyphenated UUID of version 4.
pub open spec fn is_v4_text(s: Seq<char>) -> bool {
    exists|bits: u128| #[trigger]
        ids::hyphenated_text(bits) == s && (bits >> 76) & 0xf == 4 && (bits >> 62) & 3 == 2
}

/// A fresh random UUID as the key of a built-in entity.
pub fn new_v4_id() -> (r: String)
    ensures
        is_v4_text(r@),
        r@.len() == 36,
{
    let bits = ids::uuid_v4();
    proof {
        ids::law_hyphenated_length(bits);
    }
    ids::hyphenated(bits)
}

/// A source entity of a given id and name, recognised by its name.
pub open spec fn source_entity(id: Seq<char>, name: Seq<char>) -> EntityGraphModel {
    schema::with_property(
        schema::with_property(
            EntityGraphModel {
                primary_key: Some(PrimaryKeyModel::Strict("name"@)),
                ..schema::bare_entity(SOURCE_LABEL@)
            },
            "id"@,
            OntologyPropertyType::Keyword,
            JsonModel::Str(id),
        ),
        "name"@,
        OntologyPropertyType::Text,
        JsonModel::Str(name),
    )
}

/// A chunk entity of a given id and text, recognised by its id.
pub open spec fn chunk_entity(id: Seq<char>, text: Seq<char>) -> EntityGraphModel {
    schema::with_property(
        schema::with_property(
            EntityGraphModel {
                primary_key: Some(PrimaryKeyModel::Strict("id"@)),
                ..schema::bare_entity(CHUNK_LABEL@)
            },
            "id"@,
            OntologyPropertyType::Keyword,
            JsonModel::Str(id),
        ),
        "text"@,
        OntologyPropertyType::Text,
        JsonModel::Str(text),
    )
}

/// The source entity of a given id and name.
pub fn source_with_id(id: &str, name: &str) -> (r: EntityGraph)
    ensures
        r.deep_view() == source_entity(id@, name@),
{
    EntityGraph::new(SOURCE_LABEL).strict_primary_key("name").property(
        "id",
        OntologyPropertyType::Keyword,
        Json::Str(id.to_owned()),
    ).property("name", OntologyPropertyType::Text, Json::Str(name.to_owned()))
}

/// The chunk entity of a given id and text.
pub fn chunk_with_id(id: &str, text: &str) -> (r: EntityGraph)
    ensures
        r.deep_view() == chunk_entity(id@, text@),
{
    EntityGraph::new(CHUNK_LABEL).strict_primary_key("id").property(
        "id",
        OntologyPropertyType::Keyword,
        Json::Str(id.to_owned()),
    ).property("text", OntologyPropertyType::Text, Json::Str(text.to_owned()))
}

/// A source entity with a fresh id.
pub fn new_source(name: &str) -> (r: EntityGraph)
    ensures
        exists|id: Seq<char>| is_v4_text(id) && #[trigger] source_entity(id, name@)
            == r.deep_view(),
{
    let id = new_v4_id();
    source_with_id(id.as_str(), name)
}

/// A chunk entity with a fresh id.
pub fn new_chunk(text: &str) -> (r: EntityGraph)
    ensures
        exists|id: Seq<char>| is_v4_text(id) && #[trigger] chunk_entity(id, text@)
            == r.deep_view(),
{
    let id = new_v4_id();
    chunk_with_id(id.as_str(), text)
}

/// Is the label one of the built-in entity types?
pub open spec fn builtin_entity(label: Seq<char>) -> bool {
    label == SOURCE_LABEL@ || label == CHUNK_LABEL@
}

/// Does the label name a built-in entity type?
pub fn is_builtin_entity(label: &str) -> (r: bool)
    ensures
        r == builtin_entity(label@),
{
    text::text_eq(label, SOURCE_LABEL) || text::text_eq(label, CHUNK_LABEL)
}

/// A source has its id and its name as properties and is recognised by its name; a chunk has its
/// id and its text and is recognised by its id.
pub proof fn law_builtin_entities_hold_their_texts(id: Seq<char>, text: Seq<char>)
    ensures
        ({
            let s = source_entity(id, text);
            &&& s.kind == SOURCE_LABEL@
            &&& s.primary_key == Some(PrimaryKeyModel::Strict("name"@))
            &&& strmap::assoc_get(s.properties, "id"@) is Some
            &&& strmap::assoc_get(s.properties, "id"@)->0.value == JsonModel::Str(id)
            &&& strmap::assoc_get(s.properties, "name"@) is Some
            &&& strmap::assoc_get(s.properties, "name"@)->0.value == JsonModel::Str(text)
        }),
        ({
            let c = chunk_entity(id, text);
            &&& c.kind == CHUNK_LABEL@
            &&& c.primary_key == Some(PrimaryKeyModel::Strict("id"@))
            &&& strmap::assoc_get(c.properties, "id"@) is Some
            &&& strmap::assoc_get(c.properties, "id"@)->0.value == JsonModel::Str(id)
            &&& strmap::assoc_get(c.properties, "text"@) is Some
            &&& strmap::assoc_get(c.properties, "text"@)->0.value == JsonModel::Str(text)
        }),
{
    reveal_strlit("id");
    reveal_strlit("name");
    reveal_strlit("text");
    assert("id"@.len() == 2 && "name"@.len() == 4 && "text"@.len() == 4);
    let none = Seq::<(Seq<char>, schema::PropertyModel)>::empty();
    let k = schema::PropertyModel {
        name: "id"@,
        property_type: OntologyPropertyType::Keyword,
        value: JsonModel::Str(id),
    };
    let n = schema::PropertyModel {
        name: "name"@,
        property_type: OntologyPropertyType::Text,
        value: JsonModel::Str(text),
    };
    let t = schema::PropertyModel { name: "text"@, ..n };
    let a = strmap::assoc_insert(none, "id"@, k);
    strmap::law_get_after_insert(none, "id"@, k);
    strmap::law_get_after_insert(a, "name"@, n);
    strmap::law_get_after_insert(a, "text"@, t);
    strmap::law_get_other_after_insert(a, "name"@, n, "id"@);
    strmap::law_get_other_after_insert(a, "text"@, t, "id"@);
}

} // verus!
