//! Building a graph step by step.

use vstd::prelude::*;
use crate::graph::builtins;
use crate::graph::builtins::new_chunk;
use crate::graph::builtins::new_source;
use crate::graph::builtins::CHUNK_LABEL;
use crate::graph::builtins::MENTION_REL;
use crate::graph::builtins::PART_OF_REL;
use crate::graph::builtins::SOURCE_LABEL;
use crate::graph::canonical;
use crate::graph::schema;
use crate::graph::schema::EntityGraph;
use crate::graph::schema::EntityGraphModel;
use crate::graph::schema::OntologyPropertyType;
use crate::graph::schema::PrimaryKey;
use crate::graph::schema::PrimaryKeyModel;
use crate::graph::schema::Property;
use crate::graph::schema::PropertyModel;
use crate::graph::schema::PropertyType;
use crate::graph::schema::RelationGraph;
use crate::graph::schema::RelationGraphModel;
use crate::graph::types::EntityRef;
use crate::graph::types::GraphBuildError;
use crate::graph::types::RelationRef;
use crate::json::copy_json;
use crate::json::Json;
use crate::json::JsonModel;
use crate::strmap;
use crate::strmap::StrMap;
use crate::text;

verus! {

broadcast use vstd::string::group_string_axioms;

/// The property that soft-merged entities are recognised by.
pub const CANONICAL_FIELD: &'static str = "_canonical";

/// An owned graph.
#[derive(Debug, PartialEq)]
pub struct Graph {
    pub entities: Vec<EntityGraph>,
    pub relations: Vec<RelationGraph>,
}

pub struct GraphModel {
    pub entities: Seq<EntityGraphModel>,
    pub relations: Seq<RelationGraphModel>,
}

impl DeepView for Graph {
    type V = GraphModel;

    open spec fn deep_view(&self) -> GraphModel {
        GraphModel { entities: self.entities.deep_view(), relations: self.relations.deep_view() }
    }
}

impl GraphModel {
    /// Both ends of every relation are entities of the graph.
    pub open spec fn wf(self) -> bool {
        forall|i: int|
            0 <= i < self.relations.len() ==> (#[trigger] self.relations[i]).from.0
                < self.entities.len() && self.relations[i].to.0 < self.entities.len()
    }
}

impl Graph {
    pub fn entities(&self) -> (r: &Vec<EntityGraph>)
        ensures
            *r == self.entities,
    {
        &self.entities
    }

    pub fn relations(&self) -> (r: &Vec<RelationGraph>)
        ensures
            *r == self.relations,
    {
        &self.relations
    }

    pub fn entity(&self, entity_ref: EntityRef) -> (r: Option<&EntityGraph>)
        ensures
            r == (if entity_ref.0 < self.entities@.len() {
                Some(&self.entities@[entity_ref.0 as int])
            } else {
                None
            }),
    {
        if entity_ref.0 < self.entities.len() {
            Some(&self.entities[entity_ref.0])
        } else {
            None
        }
    }

    pub fn relation(&self, relation_ref: RelationRef) -> (r: Option<&RelationGraph>)
        ensures
            r == (if relation_ref.0 < self.relations@.len() {
                Some(&self.relations@[relation_ref.0 as int])
            } else {
                None
            }),
    {
        if relation_ref.0 < self.relations.len() {
            Some(&self.relations[relation_ref.0])
        } else {
            None
        }
    }
}

/// Builds a graph. With an active source, every entity that is added is tied to
/// it: a chunk as its part, any other user entity as mentioned by it.
#[derive(Debug, PartialEq)]
pub struct GraphBuilder {
    pub graph: Graph,
    pub auto_source: Option<EntityRef>,
}

pub struct BuilderModel {
    pub graph: GraphModel,
    pub source: Option<EntityRef>,
}

impl DeepView for GraphBuilder {
    type V = BuilderModel;

    open spec fn deep_view(&self) -> BuilderModel {
        BuilderModel { graph: self.graph.deep_view(), source: self.auto_source }
    }
}

impl BuilderModel {
    /// Relations join entities of the graph, and the active source is one.
    pub open spec fn wf(self) -> bool {
        self.graph.wf() && (self.source matches Some(s) ==> s.0 < self.graph.entities.len())
    }
}

/// The builder without entities.
pub open spec fn empty_builder() -> BuilderModel {
    BuilderModel {
        graph: GraphModel { entities: Seq::empty(), relations: Seq::empty() },
        source: None,
    }
}

/// The edge that ties an entity of the given label to the active source.
pub open spec fn auto_edge(source: Option<EntityRef>, at: EntityRef, label: Seq<char>) -> Seq<
    RelationGraphModel,
> {
    match source {
        None => Seq::empty(),
        Some(s) => if s == at || label == SOURCE_LABEL@ {
            Seq::empty()
        } else {
            seq![
                RelationGraphModel {
                    kind: if label == CHUNK_LABEL@ {
                        PART_OF_REL@
                    } else {
                        MENTION_REL@
                    },
                    from: at,
                    to: s,
                    properties: Seq::empty(),
                },
            ]
        },
    }
}

/// The values of properties by name.
pub open spec fn property_values(props: Seq<(Seq<char>, PropertyModel)>) -> Seq<
    (Seq<char>, JsonModel),
> {
    props.map_values(|p: (Seq<char>, PropertyModel)| (p.0, p.1.value))
}

/// The entity with its canonical text as a property, where it is recognised by
/// similarity and does not carry one yet.
pub open spec fn canonicalised(e: EntityGraphModel) -> EntityGraphModel {
    if e.primary_key == Some(PrimaryKeyModel::Soft) && strmap::assoc_get(
        e.properties,
        CANONICAL_FIELD@,
    ) is None {
        schema::with_property(
            e,
            CANONICAL_FIELD@,
            OntologyPropertyType::Text,
            JsonModel::Str(canonical::canonical_text(e.kind, property_values(e.properties))),
        )
    } else {
        e
    }
}

/// The builder with an entity added, and tied to the active source.
pub open spec fn entity_added(b: BuilderModel, e: EntityGraphModel) -> BuilderModel {
    let at = EntityRef(b.graph.entities.len() as usize);
    BuilderModel {
        graph: GraphModel {
            entities: b.graph.entities.push(canonicalised(e)),
            relations: b.graph.relations + auto_edge(b.source, at, e.kind),
        },
        source: b.source,
    }
}

/// The builder with a source added, which is the active one from then on.
pub open spec fn source_added(b: BuilderModel, e: EntityGraphModel) -> BuilderModel {
    BuilderModel {
        graph: GraphModel { entities: b.graph.entities.push(e), relations: b.graph.relations },
        source: Some(EntityRef(b.graph.entities.len() as usize)),
    }
}

/// The builder with a relation added between known entities.
pub open spec fn relation_added(b: BuilderModel, r: RelationGraphModel) -> BuilderModel {
    BuilderModel {
        graph: GraphModel {
            entities: b.graph.entities,
            relations: b.graph.relations.push(r),
        },
        source: b.source,
    }
}

/// What adding a relation answers, and the builder after it: the first end that
/// is unknown is the error, and then nothing changes.
pub open spec fn relation_outcome(
    before: BuilderModel,
    relation: RelationGraphModel,
    r: Result<RelationRef, GraphBuildError>,
    after: BuilderModel,
) -> bool {
    let n = before.graph.entities.len();
    if relation.from.0 >= n {
        r == Err::<RelationRef, GraphBuildError>(GraphBuildError::UnknownEntityRef(relation.from.0))
            && after == before
    } else if relation.to.0 >= n {
        r == Err::<RelationRef, GraphBuildError>(GraphBuildError::UnknownEntityRef(relation.to.0))
            && after == before
    } else {
        r == Ok::<RelationRef, GraphBuildError>(
            RelationRef(before.graph.relations.len() as usize),
        ) && after == relation_added(before, relation)
    }
}

/// Adding entities, sources and relations between known entities keeps every
/// relation between entities of the graph.
pub proof fn law_building_keeps_ends(b: BuilderModel, e: EntityGraphModel, r: RelationGraphModel)
    requires
        b.wf(),
        b.graph.entities.len() < usize::MAX,
        r.from.0 < b.graph.entities.len(),
        r.to.0 < b.graph.entities.len(),
    ensures
        empty_builder().wf(),
        entity_added(b, e).wf(),
        source_added(b, e).wf(),
        relation_added(b, r).wf(),
{
}

/// Entities that are added while a source is active get exactly one edge to it,
/// and sources none.
pub proof fn law_auto_edges(b: BuilderModel, e: EntityGraphModel, s: EntityRef)
    requires
        b.source == Some(s),
        s.0 < b.graph.entities.len() < usize::MAX,
    ensures
        auto_edge(b.source, EntityRef(b.graph.entities.len() as usize), e.kind).len() == (if e.kind
            == SOURCE_LABEL@ {
            0nat
        } else {
            1nat
        }),
{
}

fn copy_values(props: &StrMap<Property>) -> (r: StrMap<Json>)
    ensures
        r.deep_view() == property_values(props.deep_view()),
{
    let ghost all = property_values(props.deep_view());
    let mut out: Vec<(String, Json)> = Vec::new();
    let mut i: usize = 0;
    while i < props.entries.len()
        invariant
            all == property_values(props.deep_view()),
            0 <= i <= props.entries@.len(),
            out.deep_view() == all.take(i as int),
        decreases props.entries@.len() - i,
    {
        let ghost before = out.deep_view();
        assert(props.deep_view()[i as int] == props.entries@[i as int].deep_view());
        out.push((props.entries[i].0.clone(), copy_json(&props.entries[i].1.value)));
        assert(out.deep_view() =~= before.push(all[i as int]));
        i += 1;
        assert(out.deep_view() =~= all.take(i as int));
    }
    assert(out.deep_view() =~= all);
    StrMap { entries: out }
}

fn with_canonical(entity: EntityGraph) -> (r: EntityGraph)
    ensures
        r.deep_view() == canonicalised(entity.deep_view()),
{
    let soft = match &entity.primary_key {
        Some(PrimaryKey::Soft) => true,
        _ => false,
    };
    if soft && !entity.properties.contains_key(CANONICAL_FIELD) {
        let values = copy_values(&entity.properties);
        let text = canonical::build_canonical_text(entity.kind.as_str(), &values);
        entity.property(CANONICAL_FIELD, OntologyPropertyType::Text, Json::Str(text))
    } else {
        entity
    }
}

impl GraphBuilder {
    /// A builder without source: nothing is tied to anything by itself.
    pub fn new() -> (r: GraphBuilder)
        ensures
            r.deep_view() == empty_builder(),
    {
        let r = GraphBuilder {
            graph: Graph { entities: Vec::new(), relations: Vec::new() },
            auto_source: None,
        };
        assert(r.graph.entities.deep_view() =~= Seq::<EntityGraphModel>::empty());
        assert(r.graph.relations.deep_view() =~= Seq::<RelationGraphModel>::empty());
        r
    }

    /// A builder whose entities are tied to a fresh source.
    pub fn with_source(name: &str) -> (r: GraphBuilder)
        ensures
            exists|id: Seq<char>|
                builtins::is_v4_text(id) && r.deep_view() == source_added(
                    empty_builder(),
                    #[trigger] builtins::source_entity(id, name@),
                ),
    {
        let mut b = GraphBuilder::new();
        b.add_source(name);
        b
    }

    /// Add a fresh source and make it the active one. Entities added before
    /// keep the edges they have.
    pub fn add_source(&mut self, name: &str) -> (r: EntityRef)
        ensures
            r.0 == old(self).deep_view().graph.entities.len(),
            exists|id: Seq<char>|
                builtins::is_v4_text(id) && final(self).deep_view() == source_added(
                    old(self).deep_view(),
                    #[trigger] builtins::source_entity(id, name@),
                ),
    {
        let at = EntityRef(self.graph.entities.len());
        let source = new_source(name);
        let ghost model = source.deep_view();
        let ghost before = self.graph.entities.deep_view();
        self.graph.entities.push(source);
        assert(self.graph.entities.deep_view() =~= before.push(model));
        self.auto_source = Some(at);
        at
    }

    /// The active source.
    pub fn source(&self) -> (r: Option<EntityRef>)
        ensures
            r == self.deep_view().source,
    {
        self.auto_source
    }

    fn attach_auto_edge(&mut self, entity_ref: EntityRef, label: &str)
        ensures
            final(self).deep_view() == (BuilderModel {
                graph: GraphModel {
                    entities: old(self).deep_view().graph.entities,
                    relations: old(self).deep_view().graph.relations + auto_edge(
                        old(self).deep_view().source,
                        entity_ref,
                        label@,
                    ),
                },
                source: old(self).deep_view().source,
            }),
    {
        let ghost before = self.graph.relations.deep_view();
        assert(before + Seq::<RelationGraphModel>::empty() =~= before);
        let source_ref = match self.auto_source {
            None => {
                return;
            },
            Some(s) => s,
        };
        if entity_ref == source_ref {
            return;
        }
        let rel_label = if text::text_eq(label, CHUNK_LABEL) {
            proof {
                reveal_strlit("Chunk");
                reveal_strlit("Source");
                assert("Chunk"@.len() != "Source"@.len());
            }
            PART_OF_REL
        } else if text::text_eq(label, SOURCE_LABEL) {
            return;
        } else {
            MENTION_REL
        };
        let edge = RelationGraph::new(entity_ref, rel_label, source_ref);
        let ghost model = edge.deep_view();
        self.graph.relations.push(edge);
        assert(self.graph.relations.deep_view() =~= before + seq![model]);
    }

    /// Add an entity. One that is recognised by similarity gets its canonical
    /// text as a property.
    pub fn add_entity(&mut self, entity: EntityGraph) -> (r: EntityRef)
        ensures
            r.0 == old(self).deep_view().graph.entities.len(),
            final(self).deep_view() == entity_added(old(self).deep_view(), entity.deep_view()),
    {
        let label = entity.kind.clone();
        let entity = with_canonical(entity);
        let at = EntityRef(self.graph.entities.len());
        let ghost model = entity.deep_view();
        let ghost before = self.graph.entities.deep_view();
        self.graph.entities.push(entity);
        assert(self.graph.entities.deep_view() =~= before.push(model));
        self.attach_auto_edge(at, label.as_str());
        at
    }

    fn ensure_entity(&self, entity_ref: EntityRef) -> (r: Result<(), GraphBuildError>)
        ensures
            r == (if entity_ref.0 < self.deep_view().graph.entities.len() {
                Ok::<(), GraphBuildError>(())
            } else {
                Err(GraphBuildError::UnknownEntityRef(entity_ref.0))
            }),
    {
        if entity_ref.0 < self.graph.entities.len() {
            Ok(())
        } else {
            Err(GraphBuildError::UnknownEntityRef(entity_ref.0))
        }
    }

    /// Add a relation; both its ends must be entities of the graph.
    pub fn add_relationship(&mut self, relation: RelationGraph) -> (r: Result<
        RelationRef,
        GraphBuildError,
    >)
        ensures
            relation_outcome(
                old(self).deep_view(),
                relation.deep_view(),
                r,
                final(self).deep_view(),
            ),
    {
        if let Err(e) = self.ensure_entity(relation.from) {
            return Err(e);
        }
        if let Err(e) = self.ensure_entity(relation.to) {
            return Err(e);
        }
        let at = RelationRef(self.graph.relations.len());
        let ghost model = relation.deep_view();
        let ghost before = self.graph.relations.deep_view();
        self.graph.relations.push(relation);
        assert(self.graph.relations.deep_view() =~= before.push(model));
        Ok(at)
    }

    /// The graph as it stands.
    pub fn build(self) -> (r: Graph)
        ensures
            r == self.graph,
    {
        self.graph
    }
}

/// An entity under construction, to be added to a builder.
pub struct EntityBuilder<'a> {
    pub builder: &'a mut GraphBuilder,
    pub entity: EntityGraph,
}

impl GraphBuilder {
    /// Start an entity of the given type.
    pub fn entity<'a>(&'a mut self, kind: &str) -> (r: EntityBuilder<'a>)
        ensures
            *r.builder == *old(self),
            *final(r.builder) == *final(self),
            r.entity.deep_view() == schema::bare_entity(kind@),
    {
        EntityBuilder { builder: self, entity: EntityGraph::new(kind) }
    }
}

impl<'a> EntityBuilder<'a> {
    pub fn label(self, label: &str) -> (r: EntityBuilder<'a>)
        ensures
            *r.builder == *old(self.builder),
            *final(r.builder) == *final(self.builder),
            r.entity.deep_view() == (EntityGraphModel {
                labels: self.entity.deep_view().labels.push(label@),
                ..self.entity.deep_view()
            }),
    {
        EntityBuilder { builder: self.builder, entity: self.entity.label(label) }
    }

    pub fn labels(self, labels: Vec<String>) -> (r: EntityBuilder<'a>)
        ensures
            *r.builder == *old(self.builder),
            *final(r.builder) == *final(self.builder),
            r.entity.deep_view() == (EntityGraphModel {
                labels: self.entity.deep_view().labels + labels.deep_view(),
                ..self.entity.deep_view()
            }),
    {
        EntityBuilder { builder: self.builder, entity: self.entity.labels(labels) }
    }

    pub fn strict_primary_key(self, field: &str) -> (r: EntityBuilder<'a>)
        ensures
            *r.builder == *old(self.builder),
            *final(r.builder) == *final(self.builder),
            r.entity.deep_view() == (EntityGraphModel {
                primary_key: Some(PrimaryKeyModel::Strict(field@)),
                ..self.entity.deep_view()
            }),
    {
        EntityBuilder { builder: self.builder, entity: self.entity.strict_primary_key(field) }
    }

    pub fn soft_primary_key(self) -> (r: EntityBuilder<'a>)
        ensures
            *r.builder == *old(self.builder),
            *final(r.builder) == *final(self.builder),
            r.entity.deep_view() == (EntityGraphModel {
                primary_key: Some(PrimaryKeyModel::Soft),
                ..self.entity.deep_view()
            }),
    {
        EntityBuilder { builder: self.builder, entity: self.entity.soft_primary_key() }
    }

    pub fn property(self, name: &str, property_type: PropertyType, value: Json) -> (r:
        EntityBuilder<'a>)
        ensures
            *r.builder == *old(self.builder),
            *final(r.builder) == *final(self.builder),
            r.entity.deep_view() == schema::with_property(
                self.entity.deep_view(),
                name@,
                property_type,
                value.deep_view(),
            ),
    {
        EntityBuilder {
            builder: self.builder,
            entity: self.entity.property(name, property_type, value),
        }
    }

    /// Put the entity into the graph.
    pub fn add(self) -> (r: EntityRef)
        ensures
            r.0 == old(self.builder).deep_view().graph.entities.len(),
            final(self.builder).deep_view() == entity_added(
                old(self.builder).deep_view(),
                self.entity.deep_view(),
            ),
    {
        self.builder.add_entity(self.entity)
    }
}

/// A chunk under construction, to be added to a builder.
pub struct ChunkBuilder<'a> {
    pub builder: &'a mut GraphBuilder,
    pub entity: EntityGraph,
}

impl GraphBuilder {
    /// Start a chunk with a fresh id and the given text.
    pub fn chunk<'a>(&'a mut self, text: &str) -> (r: ChunkBuilder<'a>)
        ensures
            *r.builder == *old(self),
            *final(r.builder) == *final(self),
            exists|id: Seq<char>|
                builtins::is_v4_text(id) && #[trigger] builtins::chunk_entity(id, text@)
                    == r.entity.deep_view(),
    {
        ChunkBuilder { builder: self, entity: new_chunk(text) }
    }
}

impl<'a> ChunkBuilder<'a> {
    pub fn label(self, label: &str) -> (r: ChunkBuilder<'a>)
        ensures
            *r.builder == *old(self.builder),
            *final(r.builder) == *final(self.builder),
            r.entity.deep_view() == (EntityGraphModel {
                labels: self.entity.deep_view().labels.push(label@),
                ..self.entity.deep_view()
            }),
    {
        ChunkBuilder { builder: self.builder, entity: self.entity.label(label) }
    }

    pub fn property(self, name: &str, property_type: PropertyType, value: Json) -> (r:
        ChunkBuilder<'a>)
        ensures
            *r.builder == *old(self.builder),
            *final(r.builder) == *final(self.builder),
            r.entity.deep_view() == schema::with_property(
                self.entity.deep_view(),
                name@,
                property_type,
                value.deep_view(),
            ),
    {
        ChunkBuilder {
            builder: self.builder,
            entity: self.entity.property(name, property_type, value),
        }
    }

    /// Put the chunk into the graph; there must be an active source for it.
    pub fn add(self) -> (r: Result<EntityRef, GraphBuildError>)
        ensures
            match old(self.builder).deep_view().source {
                None => r == Err::<EntityRef, GraphBuildError>(GraphBuildError::ChunkWithoutSource)
                    && *final(self.builder) == *old(self.builder),
                Some(_) => r == Ok::<EntityRef, GraphBuildError>(
                    EntityRef(old(self.builder).deep_view().graph.entities.len() as usize),
                ) && final(self.builder).deep_view() == entity_added(
                    old(self.builder).deep_view(),
                    self.entity.deep_view(),
                ),
            },
    {
        if self.builder.auto_source.is_none() {
            return Err(GraphBuildError::ChunkWithoutSource);
        }
        Ok(self.builder.add_entity(self.entity))
    }
}

/// A relation under construction, to be added to a builder.
pub struct RelationshipBuilder<'a> {
    pub builder: &'a mut GraphBuilder,
    pub relation: RelationGraph,
}

impl GraphBuilder {
    /// Start a relation of the given type between two entities.
    pub fn relationship<'a>(&'a mut self, from: EntityRef, kind: &str, to: EntityRef) -> (r:
        RelationshipBuilder<'a>)
        ensures
            *r.builder == *old(self),
            *final(r.builder) == *final(self),
            r.relation.deep_view() == (RelationGraphModel {
                kind: kind@,
                from,
                to,
                properties: Seq::empty(),
            }),
    {
        RelationshipBuilder { builder: self, relation: RelationGraph::new(from, kind, to) }
    }
}

impl<'a> RelationshipBuilder<'a> {
    pub fn property(self, name: &str, property_type: PropertyType, value: Json) -> (r:
        RelationshipBuilder<'a>)
        ensures
            *r.builder == *old(self.builder),
            *final(r.builder) == *final(self.builder),
            r.relation.deep_view() == (RelationGraphModel {
                properties: strmap::assoc_insert(
                    self.relation.deep_view().properties,
                    name@,
                    PropertyModel { name: name@, property_type, value: value.deep_view() },
                ),
                ..self.relation.deep_view()
            }),
    {
        RelationshipBuilder {
            builder: self.builder,
            relation: self.relation.property(name, property_type, value),
        }
    }

    /// Put the relation into the graph; both its ends must be known there.
    pub fn add(self) -> (r: Result<RelationRef, GraphBuildError>)
        ensures
            relation_outcome(
                old(self.builder).deep_view(),
                self.relation.deep_view(),
                r,
                final(self.builder).deep_view(),
            ),
    {
        self.builder.add_relationship(self.relation)
    }
}

/// An entity that is added comes last, and all that was there stays. While a source is active, it
/// gets an edge from itself to the source: a chunk is a part of it, any other entity mentions it,
/// but for a source, which gets none. Without an active source there is no edge.
pub proof fn law_added_entities_point_to_their_source(b: BuilderModel, e: EntityGraphModel)
    requires
        b.wf(),
        b.graph.entities.len() < usize::MAX,
    ensures
        ({
            let after = entity_added(b, e);
            let n = b.graph.entities.len();
            let m = b.graph.relations.len();
            &&& after.graph.entities.len() == n + 1
            &&& after.graph.entities.take(n as int) == b.graph.entities
            &&& after.graph.entities[n as int].kind == e.kind
            &&& after.graph.relations.take(m as int) == b.graph.relations
            &&& after.source == b.source
            &&& b.source is None || e.kind == SOURCE_LABEL@ ==> after.graph.relations.len() == m
            &&& b.source is Some && e.kind != SOURCE_LABEL@ ==> ({
                let edge = after.graph.relations[m as int];
                &&& after.graph.relations.len() == m + 1
                &&& edge.from.0 == n
                &&& edge.to == b.source->0
                &&& edge.properties.len() == 0
                &&& e.kind == CHUNK_LABEL@ ==> edge.kind == PART_OF_REL@
                &&& e.kind != CHUNK_LABEL@ ==> edge.kind == MENTION_REL@
            })
        }),
{
    let after = entity_added(b, e);
    let n = b.graph.entities.len() as int;
    let m = b.graph.relations.len() as int;
    assert(after.graph.entities.take(n) =~= b.graph.entities);
    assert(after.graph.relations.take(m) =~= b.graph.relations);
}

/// An entity that is recognised by similarity carries its canonical text: the one that it has, or
/// else that of its type and of the properties that it has. Nothing else of an entity changes, and
/// an entity with a key of its own stays as it is.
pub proof fn law_soft_entities_carry_their_text(e: EntityGraphModel, k: Seq<char>)
    ensures
        ({
            let c = canonicalised(e);
            let soft = e.primary_key == Some(PrimaryKeyModel::Soft);
            let known = strmap::assoc_get(e.properties, CANONICAL_FIELD@);
            &&& !soft || known is Some ==> c == e
            &&& soft && known is None ==> match strmap::assoc_get(c.properties, CANONICAL_FIELD@) {
                Some(p) => p.value == JsonModel::Str(
                    canonical::canonical_text(e.kind, property_values(e.properties)),
                ) && p.name == CANONICAL_FIELD@ && p.property_type == OntologyPropertyType::Text,
                None => false,
            }
            &&& k != CANONICAL_FIELD@ ==> strmap::assoc_get(c.properties, k) == strmap::assoc_get(
                e.properties,
                k,
            )
            &&& c.kind == e.kind && c.labels == e.labels && c.domain == e.domain && c.scopes
                == e.scopes && c.primary_key == e.primary_key
        }),
{
    let p = PropertyModel {
        name: CANONICAL_FIELD@,
        property_type: OntologyPropertyType::Text,
        value: JsonModel::Str(canonical::canonical_text(e.kind, property_values(e.properties))),
    };
    strmap::law_get_after_insert(e.properties, CANONICAL_FIELD@, p);
    if k != CANONICAL_FIELD@ {
        strmap::law_get_other_after_insert(e.properties, CANONICAL_FIELD@, p, k);
    }
}

/// A source that is added comes last and is the active one from then on; it gets no edge.
pub proof fn law_added_sources_are_active(b: BuilderModel, e: EntityGraphModel)
    requires
        b.graph.entities.len() < usize::MAX,
    ensures
        ({
            let after = source_added(b, e);
            let n = b.graph.entities.len();
            &&& after.graph.entities.len() == n + 1
            &&& after.graph.entities.take(n as int) == b.graph.entities
            &&& after.graph.entities[n as int] == e
            &&& after.graph.relations == b.graph.relations
            &&& after.source is Some
            &&& (after.source->0).0 == n
        }),
{
    let n = b.graph.entities.len() as int;
    assert(source_added(b, e).graph.entities.take(n) =~= b.graph.entities);
}

/// A relation that is added comes last, with its own ends; all that was there stays.
pub proof fn law_added_relations_keep_their_ends(b: BuilderModel, r: RelationGraphModel)
    ensures
        ({
            let after = relation_added(b, r);
            let m = b.graph.relations.len();
            &&& after.graph.entities == b.graph.entities
            &&& after.graph.relations.len() == m + 1
            &&& after.graph.relations.take(m as int) == b.graph.relations
            &&& after.graph.relations[m as int].from == r.from
            &&& after.graph.relations[m as int].to == r.to
            &&& after.graph.relations[m as int].kind == r.kind
            &&& after.graph.relations[m as int].properties == r.properties
            &&& after.source == b.source
        }),
{
    let m = b.graph.relations.len() as int;
    assert(relation_added(b, r).graph.relations.take(m) =~= b.graph.relations);
}

/// A relation is added exactly where both its ends are known, behind those that there are; the
/// first end that is not known is named, and then nothing changes.
pub proof fn law_relations_need_both_ends(
    before: BuilderModel,
    relation: RelationGraphModel,
    r: Result<RelationRef, GraphBuildError>,
    after: BuilderModel,
)
    requires
        relation_outcome(before, relation, r, after),
        before.graph.relations.len() < usize::MAX,
    ensures
        r is Ok <==> relation.from.0 < before.graph.entities.len() && relation.to.0
            < before.graph.entities.len(),
        after.graph.entities == before.graph.entities,
        after.source == before.source,
        match r {
            Ok(at) => after.graph.relations.len() == before.graph.relations.len() + 1
                && after.graph.relations[at.0 as int] == relation && after.graph.relations.drop_last()
                == before.graph.relations,
            Err(GraphBuildError::UnknownEntityRef(at)) => after.graph.relations
                == before.graph.relations && at >= before.graph.entities.len() && (at
                == relation.from.0 || (at == relation.to.0 && relation.from.0
                < before.graph.entities.len())),
            Err(_) => false,
        },
{
    if r is Ok {
        assert(after.graph.relations.drop_last() =~= before.graph.relations);
    }
}

} // verus!
