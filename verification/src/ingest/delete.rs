//! Planning the deletion of a source: the source node, its chunks, the entities
//! that no other source mentions, and their stored vectors.
//!
//! The plan renders queries only. They run in three phases: discovery, removal
//! of the vectors, and removal of the nodes.

use vstd::prelude::*;
use crate::cypher;
use crate::cypher::CypherQuery;
use crate::cypher::CypherQueryModel;
use crate::graph::builtins::CHUNK_LABEL;
use crate::graph::builtins::MENTION_REL;
use crate::graph::builtins::PART_OF_REL;
use crate::graph::builtins::SOURCE_LABEL;
use crate::graph::schema::PropertyType;
use crate::graph::spec::GraphSpecModel;
use crate::graph::spec::GraphSpecification;
use crate::graph::spec::SpecModel;
use crate::graph::spec::SpecRecord;
use crate::literal::Literal;
use crate::literal::LiteralModel;
use crate::seqs;
use crate::text;
use crate::types;
use crate::textset;

verus! {

broadcast use vstd::string::group_string_axioms;

/// Why a deletion cannot be planned.
#[derive(Debug, PartialEq)]
pub enum DeletePlanError {
    EmptySourceId,
    InvalidPrefixLabel(String),
}

pub enum DeletePlanErrorModel {
    EmptySourceId,
    InvalidPrefixLabel(Seq<char>),
}

impl DeepView for DeletePlanError {
    type V = DeletePlanErrorModel;

    open spec fn deep_view(&self) -> DeletePlanErrorModel {
        match self {
            DeletePlanError::EmptySourceId => DeletePlanErrorModel::EmptySourceId,
            DeletePlanError::InvalidPrefixLabel(p) => DeletePlanErrorModel::InvalidPrefixLabel(p@),
        }
    }
}

/// The text of a planning error.
pub open spec fn delete_error_text(e: DeletePlanErrorModel) -> Seq<char> {
    match e {
        DeletePlanErrorModel::EmptySourceId => "source id is empty"@,
        DeletePlanErrorModel::InvalidPrefixLabel(p) => "invalid Cypher identifier '"@ + p
            + "': prefix labels must match [A-Za-z_][A-Za-z0-9_]*"@,
    }
}

impl DeletePlanError {
    /// The text of the error.
    pub fn message(&self) -> (r: String)
        ensures
            r@ == delete_error_text(self.deep_view()),
    {
        match self {
            DeletePlanError::EmptySourceId => "source id is empty".to_owned(),
            DeletePlanError::InvalidPrefixLabel(p) => {
                let mut s = "invalid Cypher identifier '".to_owned();
                s.append(p.as_str());
                s.append("': prefix labels must match [A-Za-z_][A-Za-z0-9_]*");
                s
            },
        }
    }
}

/// What a deletion is about.
#[derive(Debug, PartialEq)]
pub struct DeletePlan {
    /// The `id` property of the source to remove.
    pub source_id: String,
    /// A label that scopes the source and its entities to a partition.
    pub prefix_label: Option<String>,
    /// A prefix of the names of vector collections.
    pub prefix_index: Option<String>,
    /// Base name of the vector collections.
    pub semantic_collection: String,
}

pub struct DeletePlanModel {
    pub source_id: Seq<char>,
    pub prefix_label: Option<Seq<char>>,
    pub prefix_index: Option<Seq<char>>,
    pub semantic_collection: Seq<char>,
}

impl DeepView for DeletePlan {
    type V = DeletePlanModel;

    open spec fn deep_view(&self) -> DeletePlanModel {
        DeletePlanModel {
            source_id: self.source_id@,
            prefix_label: self.prefix_label.deep_view(),
            prefix_index: self.prefix_index.deep_view(),
            semantic_collection: self.semantic_collection@,
        }
    }
}

/// The nodes that a discovery found, by internal id.
#[derive(Debug, PartialEq)]
pub struct DiscoveredNodes {
    /// The source, if there is one.
    pub source_id: Option<i64>,
    /// Entities that only this source mentions.
    pub orphan_ids: Vec<i64>,
    /// Chunks of the source.
    pub chunk_ids: Vec<i64>,
}

impl Default for DiscoveredNodes {
    fn default() -> (r: DiscoveredNodes)
        ensures
            r.source_id is None,
            r.orphan_ids@ == Seq::<i64>::empty(),
            r.chunk_ids@ == Seq::<i64>::empty(),
    {
        DiscoveredNodes { source_id: None, orphan_ids: Vec::new(), chunk_ids: Vec::new() }
    }
}

fn append_ids(out: &mut Vec<i64>, more: &Vec<i64>)
    ensures
        final(out)@ == old(out)@ + more@,
{
    let ghost start = out@;
    let mut i: usize = 0;
    while i < more.len()
        invariant
            0 <= i <= more@.len(),
            out@ == start + more@.take(i as int),
        decreases more@.len() - i,
    {
        out.push(more[i]);
        i += 1;
        assert(out@ =~= start + more@.take(i as int));
    }
    assert(out@ =~= start + more@);
}

impl DiscoveredNodes {
    /// Every id to clean up: orphans, then chunks, then the source.
    pub open spec fn ids(self) -> Seq<i64> {
        let found = self.orphan_ids@ + self.chunk_ids@;
        match self.source_id {
            Some(s) => found.push(s),
            None => found,
        }
    }

    /// Every id to clean up, the source last.
    pub fn all_ids(&self) -> (r: Vec<i64>)
        ensures
            r@ == self.ids(),
    {
        let mut ids: Vec<i64> = Vec::new();
        append_ids(&mut ids, &self.orphan_ids);
        append_ids(&mut ids, &self.chunk_ids);
        assert(ids@ =~= self.orphan_ids@ + self.chunk_ids@);
        if let Some(s) = self.source_id {
            ids.push(s);
        }
        ids
    }

    /// How many nodes are to be removed.
    pub fn total_nodes(&self) -> (r: usize)
        requires
            self.ids().len() <= usize::MAX,
        ensures
            r == self.ids().len(),
    {
        let found = self.orphan_ids.len() + self.chunk_ids.len();
        match self.source_id {
            Some(_) => found + 1,
            None => found,
        }
    }

    /// Is there nothing to remove?
    pub fn is_empty(&self) -> (r: bool)
        ensures
            r == (self.source_id is None),
    {
        self.source_id.is_none()
    }
}

/// A given prefix without surrounding space; a blank one is none.
pub open spec fn clean_prefix(p: Option<Seq<char>>) -> Option<Seq<char>> {
    match p {
        Some(s) => if text::trimmed(s).len() == 0 {
            None
        } else {
            Some(text::trimmed(s))
        },
        None => None,
    }
}

fn cleaned(p: Option<String>) -> (r: Option<String>)
    ensures
        r.deep_view() == clean_prefix(p.deep_view()),
{
    match p {
        Some(s) => {
            let t = text::trim(s.as_str());
            if text::is_empty_text(t.as_str()) {
                None
            } else {
                Some(t)
            }
        },
        None => None,
    }
}

/// The label suffix of a node pattern.
pub open spec fn prefix_suffix_of(prefix: Option<Seq<char>>) -> Seq<char> {
    match prefix {
        Some(p) => if p.len() > 0 {
            ":"@ + p
        } else {
            Seq::empty()
        },
        None => Seq::empty(),
    }
}

/// The text of the discovery query.
pub open spec fn discover_text(prefix: Seq<char>) -> Seq<char> {
    "MATCH (s:"@ + SOURCE_LABEL@ + prefix + " {id: $source_id})\nOPTIONAL MATCH (s)<-[:"@
        + MENTION_REL@
        + "]-(e)\nWHERE e IS NOT NULL AND NOT EXISTS {\n  MATCH (e)-[:"@ + MENTION_REL@
        + "]->(other:"@ + SOURCE_LABEL@ + prefix
        + ")\n  WHERE other.id <> $source_id\n}\nWITH s, collect(DISTINCT id(e)) AS orphan_ids\nOPTIONAL MATCH (s)<-[:"@
        + PART_OF_REL@ + "]-(c:"@ + CHUNK_LABEL@ + prefix
        + ")\nWITH s, orphan_ids, collect(DISTINCT id(c)) AS chunk_ids\nRETURN id(s) AS source_id, orphan_ids, chunk_ids"@
}

/// The names of the text properties among records.
pub open spec fn text_properties(s: GraphSpecModel) -> Seq<Seq<char>>
    decreases s.len(),
{
    if s.len() == 0 {
        Seq::empty()
    } else {
        let before = text_properties(s.drop_last());
        match s.last().1 {
            SpecModel::Property(p) => if p.kind == PropertyType::Text {
                before.push(p.name)
            } else {
                before
            },
            SpecModel::Entity(_) => before,
        }
    }
}

/// The embedded properties: those of sources and chunks, and every text
/// property on record.
pub open spec fn embedded_properties(s: Option<GraphSpecModel>) -> Seq<Seq<char>> {
    let builtin = textset::set_insert(textset::set_insert(Seq::empty(), "name"@), "text"@);
    match s {
        Some(records) => textset::set_extended(builtin, text_properties(records)),
        None => builtin,
    }
}

/// The collections that may hold vectors of the removed nodes.
pub open spec fn collections_of(plan: DeletePlanModel, s: Option<GraphSpecModel>) -> Seq<
    Seq<char>,
> {
    let props = embedded_properties(s);
    Seq::new(
        props.len(),
        |i: int| types::field_collection(plan.prefix_index, plan.semantic_collection, props[i]),
    )
}

pub(crate) fn with_prefix_index(
    prefix_index: &Option<String>,
    base: &str,
    property: &str,
) -> (r: String)
    ensures
        r@ == types::field_collection(prefix_index.deep_view(), base@, property@),
{
    let prefix = match prefix_index {
        Some(p) => Some(p.as_str()),
        None => None,
    };
    types::collection_for(prefix, base, property)
}

impl DeletePlan {
    /// A prefix label that is set is an identifier.
    pub open spec fn wf(self) -> bool {
        self.prefix_label is Some ==> text::is_identifier(self.prefix_label->0@)
    }

    /// A plan for a source, without prefixes.
    pub fn new(source_id: &str, semantic_collection: &str) -> (r: Result<Self, DeletePlanError>)
        ensures
            match r {
                Ok(p) => source_id@.len() > 0 && p.wf() && p.deep_view() == (DeletePlanModel {
                    source_id: source_id@,
                    prefix_label: None,
                    prefix_index: None,
                    semantic_collection: semantic_collection@,
                }),
                Err(e) => source_id@.len() == 0 && e is EmptySourceId,
            },
    {
        if text::is_empty_text(source_id) {
            return Err(DeletePlanError::EmptySourceId);
        }
        Ok(
            DeletePlan {
                source_id: source_id.to_owned(),
                prefix_label: None,
                prefix_index: None,
                semantic_collection: semantic_collection.to_owned(),
            },
        )
    }

    /// The plan under a prefix label, which has to be an identifier. A blank one
    /// is none.
    pub fn with_prefix_label(self, prefix: Option<String>) -> (r: Result<Self, DeletePlanError>)
        ensures
            ({
                let clean = clean_prefix(prefix.deep_view());
                let valid = clean is None || text::is_identifier(clean->0);
                match r {
                    Ok(p) => valid && p.wf() && p.deep_view() == (DeletePlanModel {
                        prefix_label: clean,
                        ..self.deep_view()
                    }),
                    Err(e) => !valid && e.deep_view() == DeletePlanErrorModel::InvalidPrefixLabel(
                        clean->0,
                    ),
                }
            }),
    {
        let clean = cleaned(prefix);
        if let Some(p) = &clean {
            if !text::identifier(p.as_str()) {
                return Err(DeletePlanError::InvalidPrefixLabel(p.clone()));
            }
        }
        Ok(
            DeletePlan {
                source_id: self.source_id,
                prefix_label: clean,
                prefix_index: self.prefix_index,
                semantic_collection: self.semantic_collection,
            },
        )
    }

    /// The plan under a prefix of collection names. A blank one is none.
    pub fn with_prefix_index(self, prefix: Option<String>) -> (r: Self)
        ensures
            r.deep_view() == (DeletePlanModel {
                prefix_index: clean_prefix(prefix.deep_view()),
                ..self.deep_view()
            }),
            self.wf() ==> r.wf(),
    {
        DeletePlan {
            source_id: self.source_id,
            prefix_label: self.prefix_label,
            prefix_index: cleaned(prefix),
            semantic_collection: self.semantic_collection,
        }
    }

    /// The label suffix of the plan's node patterns.
    fn prefix_suffix(&self) -> (r: String)
        ensures
            r@ == prefix_suffix_of(self.deep_view().prefix_label),
    {
        if let Some(p) = &self.prefix_label {
            if !text::is_empty_text(p.as_str()) {
                let mut s = ":".to_owned();
                s.append(p.as_str());
                return s;
            }
        }
        String::new()
    }

    /// First phase: the ids of the source, of the entities that it alone
    /// mentions, and of its chunks.
    pub fn discover_query(&self) -> (r: CypherQuery)
        ensures
            r.deep_view() == (CypherQueryModel {
                text: discover_text(prefix_suffix_of(self.deep_view().prefix_label)),
                params: cypher::one_param("source_id"@, LiteralModel::Str(self.source_id@)),
            }),
    {
        let prefix = self.prefix_suffix();
        let mut t = "MATCH (s:".to_owned();
        t.append(SOURCE_LABEL);
        t.append(prefix.as_str());
        t.append(" {id: $source_id})\nOPTIONAL MATCH (s)<-[:");
        t.append(MENTION_REL);
        t.append("]-(e)\nWHERE e IS NOT NULL AND NOT EXISTS {\n  MATCH (e)-[:");
        t.append(MENTION_REL);
        t.append("]->(other:");
        t.append(SOURCE_LABEL);
        t.append(prefix.as_str());
        t.append(
            ")\n  WHERE other.id <> $source_id\n}\nWITH s, collect(DISTINCT id(e)) AS orphan_ids\nOPTIONAL MATCH (s)<-[:",
        );
        t.append(PART_OF_REL);
        t.append("]-(c:");
        t.append(CHUNK_LABEL);
        t.append(prefix.as_str());
        t.append(
            ")\nWITH s, orphan_ids, collect(DISTINCT id(c)) AS chunk_ids\nRETURN id(s) AS source_id, orphan_ids, chunk_ids",
        );
        let params = cypher::with_param("source_id", Literal::String(self.source_id.clone()));
        CypherQuery::new(t, params)
    }

    /// Second phase: remove the vectors of the ids from one collection.
    pub fn qlink_delete_batch_query(&self, collection: &str, ids: &[i64]) -> (r: CypherQuery)
        ensures
            r.deep_view() == (CypherQueryModel {
                text:
                    "CALL libqlink.delete_batch($coll, $ids) YIELD success\nRETURN success"@,
                params: crate::strmap::assoc_insert(
                    cypher::one_param("coll"@, LiteralModel::Str(collection@)),
                    "ids"@,
                    LiteralModel::List(cypher::int_literals(ids@)),
                ),
            }),
    {
        let mut params = cypher::with_param("coll", Literal::String(collection.to_owned()));
        params.insert("ids".to_owned(), cypher::int_list(ids));
        CypherQuery::new(
            "CALL libqlink.delete_batch($coll, $ids) YIELD success\nRETURN success".to_owned(),
            params,
        )
    }

    /// Third phase: remove the nodes of the ids with their edges.
    pub fn detach_delete_query(&self, ids: &[i64]) -> (r: CypherQuery)
        ensures
            r.deep_view() == (CypherQueryModel {
                text: "UNWIND $ids AS i\nMATCH (n) WHERE id(n) = i\nDETACH DELETE n"@,
                params: cypher::one_param(
                    "ids"@,
                    LiteralModel::List(cypher::int_literals(ids@)),
                ),
            }),
    {
        let params = cypher::with_param("ids", cypher::int_list(ids));
        CypherQuery::new(
            "UNWIND $ids AS i\nMATCH (n) WHERE id(n) = i\nDETACH DELETE n".to_owned(),
            params,
        )
    }

    /// The collections that may hold vectors of the removed nodes.
    pub fn qlink_collections(&self, spec_records: Option<&GraphSpecification>) -> (r: Vec<String>)
        ensures
            r.deep_view() == collections_of(self.deep_view(), spec_records.deep_view()),
    {
        let mut props: Vec<String> = seqs::no_items();
        textset::insert_text(&mut props, "name".to_owned());
        textset::insert_text(&mut props, "text".to_owned());
        if let Some(records) = spec_records {
            let ghost all = records.deep_view();
            let ghost builtin = props.deep_view();
            let mut i: usize = 0;
            while i < records.records.entries.len()
                invariant
                    all == records.deep_view(),
                    0 <= i <= records.records.entries@.len(),
                    props.deep_view() == textset::set_extended(
                        builtin,
                        text_properties(all.take(i as int)),
                    ),
                decreases records.records.entries@.len() - i,
            {
                proof {
                    assert(all.take(i + 1).drop_last() =~= all.take(i as int));
                    assert(all.take(i + 1).last().1
                        == records.records.entries@[i as int].1.deep_view());
                }
                if let SpecRecord::Property(p) = &records.records.entries[i].1 {
                    if p.kind == PropertyType::Text {
                        let ghost before = text_properties(all.take(i as int));
                        textset::insert_text(&mut props, p.name.clone());
                        assert(before.push(p.name@).drop_last() =~= before);
                    }
                }
                i += 1;
            }
            assert(all.take(i as int) =~= all);
        }
        let ghost names = props.deep_view();
        let ghost want = collections_of(self.deep_view(), spec_records.deep_view());
        let mut out: Vec<String> = seqs::no_items();
        let mut i: usize = 0;
        while i < props.len()
            invariant
                names == props.deep_view(),
                want.len() == names.len(),
                forall|j: int|
                    0 <= j < names.len() ==> #[trigger] want[j] == types::field_collection(
                        self.prefix_index.deep_view(),
                        self.semantic_collection@,
                        names[j],
                    ),
                0 <= i <= props@.len(),
                out.deep_view() == want.take(i as int),
            decreases props@.len() - i,
        {
            assert(names[i as int] == props@[i as int]@);
            seqs::push_item(
                &mut out,
                with_prefix_index(
                    &self.prefix_index,
                    self.semantic_collection.as_str(),
                    props[i].as_str(),
                ),
            );
            i += 1;
            assert(out.deep_view() =~= want.take(i as int));
        }
        assert(out.deep_view() =~= want);
        out
    }
}

proof fn extended_contains(s: Seq<Seq<char>>, more: Seq<Seq<char>>, y: Seq<char>)
    ensures
        textset::set_extended(s, more).contains(y) <==> (s.contains(y) || more.contains(y)),
    decreases more.len(),
{
    if more.len() > 0 {
        extended_contains(s, more.drop_last(), y);
        textset::law_insert_adds_one(
            textset::set_extended(s, more.drop_last()),
            more.last(),
            y,
        );
        let rest = more.drop_last();
        if rest.contains(y) {
            let i = choose|i: int| 0 <= i < rest.len() && rest[i] == y;
            assert(more[i] == y);
        }
        if more.contains(y) {
            let i = choose|i: int| 0 <= i < more.len() && more[i] == y;
            if i < rest.len() {
                assert(rest[i] == y);
            }
        }
        assert(more.contains(more[more.len() - 1]));
    }
}

/// The embedded properties are those of sources and chunks together with the
/// text properties on record, so the built-in ones are covered even without a
/// record.
pub proof fn law_builtin_properties_are_covered(s: Option<GraphSpecModel>, p: Seq<char>)
    ensures
        embedded_properties(s).contains(p) <==> (p == "name"@ || p == "text"@ || (s is Some
            && text_properties(s->0).contains(p))),
{
    let one = textset::set_insert(Seq::empty(), "name"@);
    textset::law_insert_adds_one(Seq::empty(), "name"@, p);
    textset::law_insert_adds_one(one, "text"@, p);
    if s is Some {
        extended_contains(textset::set_insert(one, "text"@), text_properties(s->0), p);
    }
}

/// The ids to be removed are those of the orphans, of the chunks and of the source, all of them
/// and no other.
pub proof fn law_all_found_nodes_are_removed(found: DiscoveredNodes, id: i64)
    ensures
        found.ids().contains(id) <==> found.orphan_ids@.contains(id) || found.chunk_ids@.contains(
            id,
        ) || found.source_id == Some(id),
        found.ids().len() == found.orphan_ids@.len() + found.chunk_ids@.len() + (
        if found.source_id is Some {
            1nat
        } else {
            0nat
        }),
{
    let ids = found.ids();
    let n = found.orphan_ids@.len() as int;
    let m = found.chunk_ids@.len() as int;
    if ids.contains(id) {
        let i = choose|i: int| 0 <= i < ids.len() && ids[i] == id;
        if i < n {
            assert(found.orphan_ids@[i] == id);
        } else if i < n + m {
            assert(found.chunk_ids@[i - n] == id);
        }
    }
    if found.orphan_ids@.contains(id) {
        let i = choose|i: int| 0 <= i < n && found.orphan_ids@[i] == id;
        assert(ids[i] == id);
    }
    if found.chunk_ids@.contains(id) {
        let i = choose|i: int| 0 <= i < m && found.chunk_ids@[i] == id;
        assert(ids[n + i] == id);
    }
    if found.source_id == Some(id) {
        assert(ids[n + m] == id);
    }
}

/// A text property on record is one whose record is that of a property with a text as its type.
pub proof fn law_text_properties_are_on_record(s: GraphSpecModel, name: Seq<char>)
    ensures
        text_properties(s).contains(name) <==> exists|i: int|
            0 <= i < s.len() && match (#[trigger] s[i]).1 {
                SpecModel::Property(p) => p.kind == PropertyType::Text && p.name == name,
                SpecModel::Entity(_) => false,
            },
    decreases s.len(),
{
    if s.len() > 0 {
        let rest = s.drop_last();
        law_text_properties_are_on_record(rest, name);
        let before = text_properties(rest);
        let all = text_properties(s);
        assert(s[s.len() - 1] == s.last());
        if all.contains(name) {
            let k = choose|k: int| 0 <= k < all.len() && all[k] == name;
            if k < before.len() {
                assert(before[k] == name);
                let i = choose|i: int|
                    0 <= i < rest.len() && match (#[trigger] rest[i]).1 {
                        SpecModel::Property(p) => p.kind == PropertyType::Text && p.name == name,
                        SpecModel::Entity(_) => false,
                    };
                assert(s[i] == rest[i]);
            }
        }
        if exists|i: int|
            0 <= i < s.len() && match (#[trigger] s[i]).1 {
                SpecModel::Property(p) => p.kind == PropertyType::Text && p.name == name,
                SpecModel::Entity(_) => false,
            } {
            let i = choose|i: int|
                0 <= i < s.len() && match (#[trigger] s[i]).1 {
                    SpecModel::Property(p) => p.kind == PropertyType::Text && p.name == name,
                    SpecModel::Entity(_) => false,
                };
            if i < rest.len() {
                assert(rest[i] == s[i]);
                let k = choose|k: int| 0 <= k < before.len() && before[k] == name;
                assert(all[k] == name);
            } else {
                assert(all[before.len() as int] == name);
            }
        }
    }
}

/// A collection is cleaned for every embedded property, under the prefix and the name of the
/// plan: that of the names, that of the texts, and that of each text property on record.
pub proof fn law_collections_of_all_properties_are_cleaned(
    plan: DeletePlanModel,
    s: Option<GraphSpecModel>,
    property: Seq<char>,
)
    requires
        property == "name"@ || property == "text"@ || (s is Some && text_properties(
            s->0,
        ).contains(property)),
    ensures
        collections_of(plan, s).contains(
            types::field_collection(plan.prefix_index, plan.semantic_collection, property),
        ),
{
    law_builtin_properties_are_covered(s, property);
    let props = embedded_properties(s);
    let i = choose|i: int| 0 <= i < props.len() && props[i] == property;
    assert(collections_of(plan, s)[i] == types::field_collection(
        plan.prefix_index,
        plan.semantic_collection,
        property,
    ));
}

/// A prefix is taken without the white around it; a blank one is none.
pub proof fn law_blank_prefixes_are_none(s: Seq<char>)
    ensures
        clean_prefix(None) is None,
        clean_prefix(Some(s)) is None <==> text::trimmed(s).len() == 0,
        clean_prefix(Some(s)) is Some ==> clean_prefix(Some(s))->0 == text::trimmed(s),
        prefix_suffix_of(None).len() == 0,
        s.len() > 0 ==> prefix_suffix_of(Some(s)) == ":"@ + s,
{
}

/// What hangs on a source is looked for under the prefix: the source itself, the other sources
/// that may hold an entity, and the chunks all carry it.
pub proof fn law_discovery_is_under_the_prefix(prefix: Seq<char>)
    ensures
        text::has_prefix(
            discover_text(prefix),
            "MATCH (s:"@ + SOURCE_LABEL@ + prefix + " {id: $source_id})"@,
        ),
        text::has_substring(
            discover_text(prefix),
            "]->(other:"@ + SOURCE_LABEL@ + prefix + ")"@,
        ),
        text::has_substring(discover_text(prefix), "]-(c:"@ + CHUNK_LABEL@ + prefix + ")"@),
{
    let t = discover_text(prefix);
    reveal_strlit(" {id: $source_id})");
    reveal_strlit(" {id: $source_id})\nOPTIONAL MATCH (s)<-[:");
    reveal_strlit(")");
    reveal_strlit(
        ")\n  WHERE other.id <> $source_id\n}\nWITH s, collect(DISTINCT id(e)) AS orphan_ids\nOPTIONAL MATCH (s)<-[:",
    );
    reveal_strlit(
        ")\nWITH s, orphan_ids, collect(DISTINCT id(c)) AS chunk_ids\nRETURN id(s) AS source_id, orphan_ids, chunk_ids",
    );
    let head = "MATCH (s:"@ + SOURCE_LABEL@ + prefix + " {id: $source_id})"@;
    assert(t.subrange(0, head.len() as int) =~= head);
    let a = "MATCH (s:"@ + SOURCE_LABEL@ + prefix
        + " {id: $source_id})\nOPTIONAL MATCH (s)<-[:"@ + MENTION_REL@
        + "]-(e)\nWHERE e IS NOT NULL AND NOT EXISTS {\n  MATCH (e)-[:"@ + MENTION_REL@;
    let x = "]->(other:"@ + SOURCE_LABEL@ + prefix + ")"@;
    let at = a.len() as int;
    assert(t.subrange(at, at + x.len()) =~= x);
    assert(text::occurs_at(t, x, at));
    let b = a + "]->(other:"@ + SOURCE_LABEL@ + prefix
        + ")\n  WHERE other.id <> $source_id\n}\nWITH s, collect(DISTINCT id(e)) AS orphan_ids\nOPTIONAL MATCH (s)<-[:"@
        + PART_OF_REL@;
    let y = "]-(c:"@ + CHUNK_LABEL@ + prefix + ")"@;
    let from = b.len() as int;
    assert(t.subrange(from, from + y.len()) =~= y);
    assert(text::occurs_at(t, y, from));
}

} // verus!
