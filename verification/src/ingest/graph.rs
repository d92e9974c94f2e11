//! Lowering an owned graph into insert batches.

use vstd::prelude::*;
use crate::ast;
use crate::ast::InsertQuery;
use crate::ast::InsertQueryModel;
use crate::ast::NodeBatch;
use crate::ast::NodeBatchModel;
use crate::ast::NodeRow;
use crate::ast::NodeRowModel;
use crate::ast::RelationBatch;
use crate::ast::RelationBatchModel;
use crate::ast::RelationRow;
use crate::ast::RelationRowModel;
use crate::graph::builder::Graph;
use crate::graph::builder::GraphModel;
use crate::graph::builder::CANONICAL_FIELD;
use crate::graph::schema;
use crate::graph::schema::EntityGraph;
use crate::graph::schema::EntityGraphModel;
use crate::graph::schema::OntologyPropertyType;
use crate::graph::schema::PrimaryKey;
use crate::graph::schema::PrimaryKeyModel;
use crate::graph::schema::Property;
use crate::graph::schema::PropertyModel;
use crate::graph::schema::PropertyType;
use crate::graph::schema::RelationGraph;
use crate::graph::schema::RelationGraphModel;
use crate::graph::scope;
use crate::groups;
use crate::ingest::convert;
use crate::ingest::convert::FloatTable;
use crate::ingest::convert::FloatTableModel;
use crate::ingest::error;
use crate::ingest::error::IngestError;
use crate::ingest::error::IngestErrorModel;
use crate::ingest::error::PlannerOptions;
use crate::literal;
use crate::literal::copy_literal;
use crate::literal::Literal;
use crate::literal::LiteralModel;
use crate::sorting;
use crate::strmap;
use crate::strmap::StrMap;
use crate::text;
use crate::types::IngestInput;
use crate::types::IngestInputModel;
use crate::types::SideEffect;
use crate::types::SideEffectModel;
use crate::types::Stored;
use crate::types::StoredModel;
use crate::types::TypeRegistry;

verus! {

broadcast use vstd::string::group_string_axioms;

/// The property that nodes of an entity are merged on.
pub open spec fn merge_field(e: EntityGraphModel) -> Result<Seq<char>, IngestErrorModel> {
    match e.primary_key {
        Some(PrimaryKeyModel::Strict(f)) => Ok(f),
        Some(PrimaryKeyModel::Soft) => Ok(CANONICAL_FIELD@),
        None => Err(IngestErrorModel::MissingGraphPrimaryKey(e.kind)),
    }
}

fn merge_on(e: &EntityGraph) -> (r: Result<String, IngestError>)
    ensures
        error::outcome_model(r) == merge_field(e.deep_view()),
{
    match &e.primary_key {
        Some(PrimaryKey::Strict(f)) => Ok(f.clone()),
        Some(PrimaryKey::Soft) => Ok(CANONICAL_FIELD.to_owned()),
        None => Err(IngestError::MissingGraphPrimaryKey(e.kind.clone())),
    }
}

/// The id of an entity: the value of its key property.
pub open spec fn id_of(e: EntityGraphModel, field: Seq<char>, floats: FloatTableModel) -> Result<
    LiteralModel,
    IngestErrorModel,
> {
    match strmap::assoc_get(e.properties, field) {
        None => Err(IngestErrorModel::MissingGraphPrimaryKeyValue { label: e.kind, field }),
        Some(p) => convert::typed_literal(p.value, p.name, p.property_type, floats),
    }
}

fn entity_id(e: &EntityGraph, field: &str, floats: &FloatTable) -> (r: Result<
    Literal,
    IngestError,
>)
    ensures
        error::outcome_model(r) == id_of(e.deep_view(), field@, floats.deep_view()),
{
    match e.properties.get(field) {
        None => Err(
            IngestError::MissingGraphPrimaryKeyValue {
                label: e.kind.clone(),
                field: field.to_owned(),
            },
        ),
        Some(p) => convert::literal_from_json_as_type(
            &p.value,
            p.name.as_str(),
            p.property_type,
            floats,
        ),
    }
}

/// What is said of a type without handler.
pub open spec fn no_handler(type_id: Seq<char>) -> IngestErrorModel {
    IngestErrorModel::Type("no handler is registered for type '"@ + type_id + "'"@)
}

fn missing_handler(type_id: &str) -> (r: IngestError)
    ensures
        r.deep_view() == no_handler(type_id@),
{
    let mut m = "no handler is registered for type '".to_owned();
    m.append(type_id);
    m.append("'");
    IngestError::Type(m)
}

/// What becomes of one property: the effects that its handler set off, and the
/// literal to store, if any.
pub struct PropertyOutcome {
    pub effects: Seq<SideEffectModel>,
    pub stored: Result<Option<LiteralModel>, IngestErrorModel>,
}

/// A node property under its handler.
pub open spec fn node_property<R: TypeRegistry>(
    registry: R,
    floats: FloatTableModel,
    prefix_index: Option<Seq<char>>,
    label: Seq<char>,
    key_field: Seq<char>,
    key_value: LiteralModel,
    p: PropertyModel,
) -> PropertyOutcome {
    let type_id = schema::handler_of(p.property_type);
    if !registry.registered(type_id) {
        PropertyOutcome { effects: Seq::empty(), stored: Err(no_handler(type_id)) }
    } else {
        let input = IngestInputModel {
            label,
            key_field,
            key_value,
            field: p.name,
            value: p.value,
            prefix_index,
        };
        match registry.answer(type_id, input) {
            Err(m) => PropertyOutcome {
                effects: Seq::empty(),
                stored: Err(IngestErrorModel::Type(m)),
            },
            Ok(l) => PropertyOutcome {
                effects: l.effects,
                stored: match l.stored {
                    StoredModel::Untouched => match convert::typed_literal(
                        p.value,
                        p.name,
                        p.property_type,
                        floats,
                    ) {
                        Ok(x) => Ok(Some(x)),
                        Err(e) => Err(e),
                    },
                    StoredModel::Replaced(x) => Ok(Some(x)),
                    StoredModel::Skipped => Ok(None),
                },
            },
        }
    }
}

fn append_effects(queue: &mut Vec<SideEffect>, more: Vec<SideEffect>)
    ensures
        final(queue).deep_view() == old(queue).deep_view() + more.deep_view(),
{
    let ghost added = more.deep_view();
    let mut more = more;
    queue.append(&mut more);
    assert(queue.deep_view() =~= old(queue).deep_view() + added);
}

fn lower_node_property<R: TypeRegistry>(
    registry: &R,
    floats: &FloatTable,
    prefix_index: Option<&str>,
    label: &str,
    key_field: &str,
    key_value: &Literal,
    p: &Property,
    effects: &mut Vec<SideEffect>,
) -> (r: Result<Option<Literal>, IngestError>)
    ensures
        error::outcome_model(r) == node_property(
            *registry,
            floats.deep_view(),
            prefix_index.deep_view(),
            label@,
            key_field@,
            key_value.deep_view(),
            p.deep_view(),
        ).stored,
        final(effects).deep_view() == old(effects).deep_view() + node_property(
            *registry,
            floats.deep_view(),
            prefix_index.deep_view(),
            label@,
            key_field@,
            key_value.deep_view(),
            p.deep_view(),
        ).effects,
{
    assert(effects.deep_view() + Seq::<SideEffectModel>::empty() =~= effects.deep_view());
    let type_id = p.property_type.handler_id();
    if !registry.contains(type_id) {
        return Err(missing_handler(type_id));
    }
    let input = IngestInput {
        label,
        key_field,
        key_value,
        field: p.name.as_str(),
        value: &p.value,
        prefix_index,
    };
    match registry.on_ingest(type_id, &input) {
        Err(m) => Err(IngestError::Type(m)),
        Ok(l) => {
            append_effects(effects, l.effects);
            match l.stored {
                Stored::Untouched => match convert::literal_from_json_as_type(
                    &p.value,
                    p.name.as_str(),
                    p.property_type,
                    floats,
                ) {
                    Ok(x) => Ok(Some(x)),
                    Err(e) => Err(e),
                },
                Stored::Replaced(x) => Ok(Some(x)),
                Stored::Skipped => Ok(None),
            }
        },
    }
}

/// The stored properties of an entity so far, the effects they set off, and
/// what ended the work, if anything did.
pub struct PropertyWalk {
    pub props: Seq<(Seq<char>, LiteralModel)>,
    pub effects: Seq<SideEffectModel>,
    pub error: Option<IngestErrorModel>,
}

/// One more property.
pub open spec fn property_step(w: PropertyWalk, name: Seq<char>, o: PropertyOutcome) ->
    PropertyWalk {
    if w.error is Some {
        w
    } else {
        match o.stored {
            Err(e) => PropertyWalk {
                props: w.props,
                effects: w.effects + o.effects,
                error: Some(e),
            },
            Ok(None) => PropertyWalk {
                props: w.props,
                effects: w.effects + o.effects,
                error: None,
            },
            Ok(Some(x)) => PropertyWalk {
                props: strmap::assoc_insert(w.props, name, x),
                effects: w.effects + o.effects,
                error: None,
            },
        }
    }
}

/// The first `n` properties of an entity, in key order.
pub open spec fn properties_walked<R: TypeRegistry>(
    registry: R,
    floats: FloatTableModel,
    prefix_index: Option<Seq<char>>,
    e: EntityGraphModel,
    key_field: Seq<char>,
    id: LiteralModel,
    n: nat,
) -> PropertyWalk
    decreases n,
{
    if n == 0 {
        PropertyWalk { props: Seq::empty(), effects: Seq::empty(), error: None }
    } else {
        let p = e.properties[n - 1].1;
        property_step(
            properties_walked(registry, floats, prefix_index, e, key_field, id, (n - 1) as nat),
            p.name,
            node_property(registry, floats, prefix_index, e.kind, key_field, id, p),
        )
    }
}

proof fn properties_stay_failed<R: TypeRegistry>(
    registry: R,
    floats: FloatTableModel,
    prefix_index: Option<Seq<char>>,
    e: EntityGraphModel,
    key_field: Seq<char>,
    id: LiteralModel,
    n: nat,
    m: nat,
)
    requires
        n <= m,
        properties_walked(registry, floats, prefix_index, e, key_field, id, n).error is Some,
    ensures
        properties_walked(registry, floats, prefix_index, e, key_field, id, m)
            == properties_walked(registry, floats, prefix_index, e, key_field, id, n),
    decreases m - n,
{
    if n < m {
        properties_stay_failed(
            registry,
            floats,
            prefix_index,
            e,
            key_field,
            id,
            n,
            (m - 1) as nat,
        );
    }
}

fn lower_entity_properties<R: TypeRegistry>(
    registry: &R,
    floats: &FloatTable,
    prefix_index: Option<&str>,
    e: &EntityGraph,
    key_field: &str,
    id: &Literal,
    effects: &mut Vec<SideEffect>,
) -> (r: Result<StrMap<Literal>, IngestError>)
    ensures
        ({
            let w = properties_walked(
                *registry,
                floats.deep_view(),
                prefix_index.deep_view(),
                e.deep_view(),
                key_field@,
                id.deep_view(),
                e.deep_view().properties.len(),
            );
            &&& final(effects).deep_view() == old(effects).deep_view() + w.effects
            &&& error::outcome_model(r) == (match w.error {
                Some(err) => Err(err),
                None => Ok(w.props),
            })
        }),
{
    let ghost (fl, pi, em, kf, im) = (
        floats.deep_view(),
        prefix_index.deep_view(),
        e.deep_view(),
        key_field@,
        id.deep_view(),
    );
    let ghost start = effects.deep_view();
    let mut out: StrMap<Literal> = StrMap::new();
    assert(start + Seq::<SideEffectModel>::empty() =~= start);
    let mut i: usize = 0;
    while i < e.properties.entries.len()
        invariant
            fl == floats.deep_view(),
            pi == prefix_index.deep_view(),
            em == e.deep_view(),
            kf == key_field@,
            im == id.deep_view(),
            start == old(effects).deep_view(),
            0 <= i <= e.properties.entries@.len(),
            properties_walked(*registry, fl, pi, em, kf, im, i as nat).error is None,
            properties_walked(*registry, fl, pi, em, kf, im, i as nat).props == out.deep_view(),
            effects.deep_view() == start + properties_walked(
                *registry,
                fl,
                pi,
                em,
                kf,
                im,
                i as nat,
            ).effects,
        decreases e.properties.entries@.len() - i,
    {
        let ghost before = properties_walked(*registry, fl, pi, em, kf, im, i as nat);
        assert(em.properties[i as int] == e.properties.entries@[i as int].deep_view());
        let p = &e.properties.entries[i].1;
        let ghost o = node_property(*registry, fl, pi, em.kind, kf, im, p.deep_view());
        let stored = lower_node_property(
            registry,
            floats,
            prefix_index,
            e.kind.as_str(),
            key_field,
            id,
            p,
            effects,
        );
        assert(start + before.effects + o.effects =~= start + (before.effects + o.effects));
        match stored {
            Err(err) => {
                proof {
                    properties_stay_failed(
                        *registry,
                        fl,
                        pi,
                        em,
                        kf,
                        im,
                        (i + 1) as nat,
                        em.properties.len(),
                    );
                }
                return Err(err);
            },
            Ok(None) => {},
            Ok(Some(x)) => {
                out.insert(p.name.clone(), x);
            },
        }
        i += 1;
    }
    Ok(out)
}

/// Where the node of an entity is found: its label, key property and id, and
/// the domain it belongs to.
pub struct EntityKeyModel {
    pub label: Seq<char>,
    pub key_field: Seq<char>,
    pub domain: Option<Seq<char>>,
    pub id: LiteralModel,
}

struct EntityKey {
    label: String,
    key_field: String,
    domain: Option<String>,
    id: Literal,
}

impl DeepView for EntityKey {
    type V = EntityKeyModel;

    closed spec fn deep_view(&self) -> EntityKeyModel {
        EntityKeyModel {
            label: self.label@,
            key_field: self.key_field@,
            domain: self.domain.deep_view(),
            id: self.id.deep_view(),
        }
    }
}

/// A key with the domain at its end, where there is one.
pub open spec fn with_domain(key: Seq<Seq<char>>, domain: Option<Seq<char>>) -> Seq<Seq<char>> {
    match domain {
        Some(d) => key.push(d),
        None => key,
    }
}

/// What the walk over the entities has gathered.
pub struct EntityWalk {
    pub keys: Seq<EntityKeyModel>,
    pub nodes: Seq<(Seq<Seq<char>>, Seq<NodeRowModel>)>,
    pub effects: Seq<SideEffectModel>,
    pub error: Option<IngestErrorModel>,
}

pub open spec fn entity_failed(
    w: EntityWalk,
    effects: Seq<SideEffectModel>,
    e: IngestErrorModel,
) -> EntityWalk {
    EntityWalk { effects: w.effects + effects, error: Some(e), ..w }
}

/// One more entity: its row, with the labels of its scopes, in the group of its
/// label, key and domain.
pub open spec fn entity_step<R: TypeRegistry>(
    registry: R,
    floats: FloatTableModel,
    prefix_index: Option<Seq<char>>,
    w: EntityWalk,
    e: EntityGraphModel,
) -> EntityWalk {
    if w.error is Some {
        w
    } else {
        match merge_field(e) {
            Err(err) => entity_failed(w, Seq::empty(), err),
            Ok(field) => match id_of(e, field, floats) {
                Err(err) => entity_failed(w, Seq::empty(), err),
                Ok(id) => {
                    let p = properties_walked(
                        registry,
                        floats,
                        prefix_index,
                        e,
                        field,
                        id,
                        e.properties.len(),
                    );
                    match p.error {
                        Some(err) => entity_failed(w, p.effects, err),
                        None => EntityWalk {
                            keys: w.keys.push(
                                EntityKeyModel {
                                    label: e.kind,
                                    key_field: field,
                                    domain: e.domain,
                                    id,
                                },
                            ),
                            nodes: groups::group_push(
                                w.nodes,
                                with_domain(seq![e.kind, field], e.domain),
                                NodeRowModel {
                                    id,
                                    props: p.props,
                                    scope_labels: scope::labels_of(e.scopes),
                                },
                            ),
                            effects: w.effects + p.effects,
                            error: None,
                        },
                    }
                },
            },
        }
    }
}

/// The first `n` entities.
pub open spec fn entities_walked<R: TypeRegistry>(
    registry: R,
    floats: FloatTableModel,
    prefix_index: Option<Seq<char>>,
    entities: Seq<EntityGraphModel>,
    n: nat,
) -> EntityWalk
    decreases n,
{
    if n == 0 {
        EntityWalk { keys: Seq::empty(), nodes: Seq::empty(), effects: Seq::empty(), error: None }
    } else {
        entity_step(
            registry,
            floats,
            prefix_index,
            entities_walked(registry, floats, prefix_index, entities, (n - 1) as nat),
            entities[n - 1],
        )
    }
}

proof fn entities_stay_failed<R: TypeRegistry>(
    registry: R,
    floats: FloatTableModel,
    prefix_index: Option<Seq<char>>,
    entities: Seq<EntityGraphModel>,
    n: nat,
    m: nat,
)
    requires
        n <= m,
        entities_walked(registry, floats, prefix_index, entities, n).error is Some,
    ensures
        entities_walked(registry, floats, prefix_index, entities, m) == entities_walked(
            registry,
            floats,
            prefix_index,
            entities,
            n,
        ),
    decreases m - n,
{
    if n < m {
        entities_stay_failed(registry, floats, prefix_index, entities, n, (m - 1) as nat);
    }
}

/// The handler of a relation property: as for nodes, but never an embedding one.
pub open spec fn relation_handler(t: PropertyType) -> Seq<char> {
    match t {
        OntologyPropertyType::Text => "Keyword"@,
        _ => schema::handler_of(t),
    }
}

/// A relation property under its handler, which must set off no effect.
pub open spec fn relation_property<R: TypeRegistry>(
    registry: R,
    floats: FloatTableModel,
    p: PropertyModel,
) -> Result<LiteralModel, IngestErrorModel> {
    let type_id = relation_handler(p.property_type);
    if !registry.registered(type_id) {
        Err(no_handler(type_id))
    } else {
        let input = IngestInputModel {
            label: "__Relationship"@,
            key_field: "id"@,
            key_value: LiteralModel::Str("__relationship__"@),
            field: p.name,
            value: p.value,
            prefix_index: None,
        };
        match registry.answer(type_id, input) {
            Err(m) => Err(IngestErrorModel::Type(m)),
            Ok(l) => if l.effects.len() > 0 {
                Err(
                    IngestErrorModel::Type(
                        "relationship properties cannot produce node-scoped side effects"@,
                    ),
                )
            } else {
                match l.stored {
                    StoredModel::Untouched => convert::typed_literal(
                        p.value,
                        p.name,
                        p.property_type,
                        floats,
                    ),
                    StoredModel::Replaced(x) => Ok(x),
                    StoredModel::Skipped => Ok(LiteralModel::Null),
                }
            },
        }
    }
}

fn lower_relation_property<R: TypeRegistry>(
    registry: &R,
    floats: &FloatTable,
    p: &Property,
) -> (r: Result<Literal, IngestError>)
    ensures
        error::outcome_model(r) == relation_property(
            *registry,
            floats.deep_view(),
            p.deep_view(),
        ),
{
    let type_id = match p.property_type {
        OntologyPropertyType::Text => "Keyword",
        _ => p.property_type.handler_id(),
    };
    if !registry.contains(type_id) {
        return Err(missing_handler(type_id));
    }
    let key = Literal::String("__relationship__".to_owned());
    let input = IngestInput {
        label: "__Relationship",
        key_field: "id",
        key_value: &key,
        field: p.name.as_str(),
        value: &p.value,
        prefix_index: None,
    };
    match registry.on_ingest(type_id, &input) {
        Err(m) => Err(IngestError::Type(m)),
        Ok(l) => {
            if l.effects.len() > 0 {
                return Err(
                    IngestError::Type(
                        "relationship properties cannot produce node-scoped side effects".to_owned(),
                    ),
                );
            }
            match l.stored {
                Stored::Untouched => convert::literal_from_json_as_type(
                    &p.value,
                    p.name.as_str(),
                    p.property_type,
                    floats,
                ),
                Stored::Replaced(x) => Ok(x),
                Stored::Skipped => Ok(Literal::Null),
            }
        },
    }
}

/// The stored properties of a relation, or the first error, in key order.
pub open spec fn relation_properties<R: TypeRegistry>(
    registry: R,
    floats: FloatTableModel,
    props: Seq<(Seq<char>, PropertyModel)>,
) -> Result<Seq<(Seq<char>, LiteralModel)>, IngestErrorModel>
    decreases props.len(),
{
    if props.len() == 0 {
        Ok(Seq::empty())
    } else {
        match relation_properties(registry, floats, props.drop_last()) {
            Err(e) => Err(e),
            Ok(out) => match relation_property(registry, floats, props.last().1) {
                Err(e) => Err(e),
                Ok(x) => Ok(strmap::assoc_insert(out, props.last().1.name, x)),
            },
        }
    }
}

proof fn relation_properties_fail<R: TypeRegistry>(
    registry: R,
    floats: FloatTableModel,
    props: Seq<(Seq<char>, PropertyModel)>,
    n: int,
)
    requires
        0 <= n <= props.len(),
        relation_properties(registry, floats, props.take(n)) is Err,
    ensures
        relation_properties(registry, floats, props) == relation_properties(
            registry,
            floats,
            props.take(n),
        ),
    decreases props.len() - n,
{
    if n == props.len() {
        assert(props.take(n) =~= props);
    } else {
        assert(props.take(n + 1).drop_last() =~= props.take(n));
        relation_properties_fail(registry, floats, props, n + 1);
    }
}

fn lower_relation_properties<R: TypeRegistry>(
    registry: &R,
    floats: &FloatTable,
    props: &StrMap<Property>,
) -> (r: Result<StrMap<Literal>, IngestError>)
    ensures
        error::outcome_model(r) == relation_properties(
            *registry,
            floats.deep_view(),
            props.deep_view(),
        ),
{
    let ghost fl = floats.deep_view();
    let ghost all = props.deep_view();
    let mut out: StrMap<Literal> = StrMap::new();
    let mut i: usize = 0;
    while i < props.entries.len()
        invariant
            fl == floats.deep_view(),
            all == props.deep_view(),
            0 <= i <= props.entries@.len(),
            relation_properties(*registry, fl, all.take(i as int)) == Ok::<
                Seq<(Seq<char>, LiteralModel)>,
                IngestErrorModel,
            >(out.deep_view()),
        decreases props.entries@.len() - i,
    {
        let p = &props.entries[i].1;
        proof {
            assert(all.take(i + 1).drop_last() =~= all.take(i as int));
            assert(all.take(i + 1).last() == props.entries@[i as int].deep_view());
            if relation_properties(*registry, fl, all.take(i + 1)) is Err {
                relation_properties_fail(*registry, fl, all, i + 1);
            }
        }
        match lower_relation_property(registry, floats, p) {
            Err(e) => {
                return Err(e);
            },
            Ok(x) => {
                out.insert(p.name.clone(), x);
            },
        }
        i += 1;
    }
    assert(all.take(i as int) =~= all);
    Ok(out)
}

/// The domain of a relation: the one that both its ends share.
pub open spec fn shared_domain(a: Option<Seq<char>>, b: Option<Seq<char>>) -> Option<Seq<char>> {
    if a is Some && a == b {
        a
    } else {
        None
    }
}

/// What one relation becomes: its group and its row.
pub open spec fn relation_entry<R: TypeRegistry>(
    registry: R,
    floats: FloatTableModel,
    keys: Seq<EntityKeyModel>,
    rel: RelationGraphModel,
) -> Result<(Seq<Seq<char>>, RelationRowModel), IngestErrorModel> {
    if rel.from.0 >= keys.len() {
        Err(IngestErrorModel::UnknownGraphEntityRef(rel.from.0))
    } else if rel.to.0 >= keys.len() {
        Err(IngestErrorModel::UnknownGraphEntityRef(rel.to.0))
    } else {
        let from = keys[rel.from.0 as int];
        let to = keys[rel.to.0 as int];
        match relation_properties(registry, floats, rel.properties) {
            Err(e) => Err(e),
            Ok(props) => Ok(
                (
                    with_domain(
                        seq![rel.kind, from.label, from.key_field, to.label, to.key_field],
                        shared_domain(from.domain, to.domain),
                    ),
                    RelationRowModel { from_id: from.id, to_id: to.id, props },
                ),
            ),
        }
    }
}

/// The relation rows in their groups, or the first error.
pub open spec fn relation_groups<R: TypeRegistry>(
    registry: R,
    floats: FloatTableModel,
    keys: Seq<EntityKeyModel>,
    relations: Seq<RelationGraphModel>,
) -> Result<Seq<(Seq<Seq<char>>, Seq<RelationRowModel>)>, IngestErrorModel>
    decreases relations.len(),
{
    if relations.len() == 0 {
        Ok(Seq::empty())
    } else {
        match relation_groups(registry, floats, keys, relations.drop_last()) {
            Err(e) => Err(e),
            Ok(out) => match relation_entry(registry, floats, keys, relations.last()) {
                Err(e) => Err(e),
                Ok((key, row)) => Ok(groups::group_push(out, key, row)),
            },
        }
    }
}

proof fn relation_groups_fail<R: TypeRegistry>(
    registry: R,
    floats: FloatTableModel,
    keys: Seq<EntityKeyModel>,
    relations: Seq<RelationGraphModel>,
    n: int,
)
    requires
        0 <= n <= relations.len(),
        relation_groups(registry, floats, keys, relations.take(n)) is Err,
    ensures
        relation_groups(registry, floats, keys, relations) == relation_groups(
            registry,
            floats,
            keys,
            relations.take(n),
        ),
    decreases relations.len() - n,
{
    if n == relations.len() {
        assert(relations.take(n) =~= relations);
    } else {
        assert(relations.take(n + 1).drop_last() =~= relations.take(n));
        relation_groups_fail(registry, floats, keys, relations, n + 1);
    }
}

/// Node rows in the order of their ids.
pub open spec fn node_order() -> spec_fn(NodeRowModel, NodeRowModel) -> bool {
    |a: NodeRowModel, b: NodeRowModel| literal::literal_le(a.id, b.id)
}

/// Relation rows in the order of the ids at their ends.
pub open spec fn relation_order() -> spec_fn(RelationRowModel, RelationRowModel) -> bool {
    |a: RelationRowModel, b: RelationRowModel|
        literal::literal_lt(a.from_id, b.from_id) || (!literal::literal_lt(b.from_id, a.from_id)
            && literal::literal_le(a.to_id, b.to_id))
}

fn node_in_order(a: &NodeRow, b: &NodeRow) -> (r: bool)
    ensures
        r == node_order()(a.deep_view(), b.deep_view()),
{
    !literal::literal_before(&b.id, &a.id)
}

fn relation_in_order(a: &RelationRow, b: &RelationRow) -> (r: bool)
    ensures
        r == relation_order()(a.deep_view(), b.deep_view()),
{
    literal::literal_before(&a.from_id, &b.from_id) || (!literal::literal_before(
        &b.from_id,
        &a.from_id,
    ) && !literal::literal_before(&b.to_id, &a.to_id))
}

/// The domain at the end of a key of `n` texts and maybe a domain.
pub open spec fn domain_of_key(key: Seq<Seq<char>>, n: int) -> Option<Seq<char>> {
    if key.len() > n {
        Some(key[n])
    } else {
        None
    }
}

/// The batches of one group of nodes.
pub open spec fn node_batches(
    key: Seq<Seq<char>>,
    rows: Seq<NodeRowModel>,
    prefix_label: Option<Seq<char>>,
    n: nat,
) -> Seq<NodeBatchModel> {
    ast::chunked(sorting::sorted_by(rows, node_order()), n).map_values(
        |run: Seq<NodeRowModel>|
            NodeBatchModel {
                label: key[0],
                merge_on: key[1],
                prefix_label,
                domain_label: domain_of_key(key, 2),
                rows: run,
            },
    )
}

/// The batches of one group of relations.
pub open spec fn relation_batches(
    key: Seq<Seq<char>>,
    rows: Seq<RelationRowModel>,
    prefix_label: Option<Seq<char>>,
    n: nat,
) -> Seq<RelationBatchModel> {
    ast::chunked(sorting::sorted_by(rows, relation_order()), n).map_values(
        |run: Seq<RelationRowModel>|
            RelationBatchModel {
                rel_type: key[0],
                from_label: key[1],
                from_key: key[2],
                to_label: key[3],
                to_key: key[4],
                prefix_label,
                domain_label: domain_of_key(key, 5),
                rows: run,
            },
    )
}

pub open spec fn all_node_batches(
    groups: Seq<(Seq<Seq<char>>, Seq<NodeRowModel>)>,
    prefix_label: Option<Seq<char>>,
    n: nat,
) -> Seq<NodeBatchModel>
    decreases groups.len(),
{
    if groups.len() == 0 {
        Seq::empty()
    } else {
        all_node_batches(groups.drop_last(), prefix_label, n) + node_batches(
            groups.last().0,
            groups.last().1,
            prefix_label,
            n,
        )
    }
}

pub open spec fn all_relation_batches(
    groups: Seq<(Seq<Seq<char>>, Seq<RelationRowModel>)>,
    prefix_label: Option<Seq<char>>,
    n: nat,
) -> Seq<RelationBatchModel>
    decreases groups.len(),
{
    if groups.len() == 0 {
        Seq::empty()
    } else {
        all_relation_batches(groups.drop_last(), prefix_label, n) + relation_batches(
            groups.last().0,
            groups.last().1,
            prefix_label,
            n,
        )
    }
}

/// A prefix without white space around it; none where nothing is left.
pub open spec fn prefix_of(p: Option<Seq<char>>) -> Option<Seq<char>> {
    match p {
        Some(s) => if text::trimmed(s).len() == 0 {
            None
        } else {
            Some(text::trimmed(s))
        },
        None => None,
    }
}

fn normal_prefix(p: Option<&str>) -> (r: Option<String>)
    ensures
        r.deep_view() == prefix_of(p.deep_view()),
{
    match p {
        Some(s) => {
            let t = text::trim(s);
            if t.as_str().is_empty() {
                None
            } else {
                Some(t)
            }
        },
        None => None,
    }
}

fn opt_str(p: &Option<String>) -> (r: Option<&str>)
    ensures
        r.deep_view() == p.deep_view(),
{
    match p {
        Some(s) => Some(s.as_str()),
        None => None,
    }
}

/// The outcome of planning a graph.
pub open spec fn graph_outcome<R: TypeRegistry>(
    registry: R,
    floats: FloatTableModel,
    graph: GraphModel,
    n: nat,
    prefix_label: Option<Seq<char>>,
    prefix_index: Option<Seq<char>>,
) -> Result<InsertQueryModel, IngestErrorModel> {
    if n == 0 {
        Err(IngestErrorModel::InvalidBatchSize)
    } else {
        let w = entities_walked(
            registry,
            floats,
            prefix_of(prefix_index),
            graph.entities,
            graph.entities.len(),
        );
        match w.error {
            Some(e) => Err(e),
            None => match relation_groups(registry, floats, w.keys, graph.relations) {
                Err(e) => Err(e),
                Ok(rels) => Ok(
                    InsertQueryModel {
                        node_batches: all_node_batches(w.nodes, prefix_of(prefix_label), n),
                        relation_batches: all_relation_batches(rels, prefix_of(prefix_label), n),
                    },
                ),
            },
        }
    }
}

/// The effects that planning a graph queues, also where it ends in an error.
pub open spec fn graph_effects<R: TypeRegistry>(
    registry: R,
    floats: FloatTableModel,
    graph: GraphModel,
    n: nat,
    prefix_index: Option<Seq<char>>,
) -> Seq<SideEffectModel> {
    if n == 0 {
        Seq::empty()
    } else {
        entities_walked(
            registry,
            floats,
            prefix_of(prefix_index),
            graph.entities,
            graph.entities.len(),
        ).effects
    }
}

fn copy_opt(p: &Option<String>) -> (r: Option<String>)
    ensures
        r.deep_view() == p.deep_view(),
{
    match p {
        Some(s) => Some(s.clone()),
        None => None,
    }
}

fn domain_at(key: &Vec<String>, n: usize) -> (r: Option<String>)
    ensures
        r.deep_view() == domain_of_key(key.deep_view(), n as int),
{
    if key.len() > n {
        Some(key[n].clone())
    } else {
        None
    }
}

fn node_group_batches(
    key: &Vec<String>,
    rows: Vec<NodeRow>,
    prefix_label: &Option<String>,
    n: usize,
) -> (r: Vec<NodeBatch>)
    requires
        n > 0,
        key@.len() >= 2,
    ensures
        r.deep_view() == node_batches(
            key.deep_view(),
            rows.deep_view(),
            prefix_label.deep_view(),
            n as nat,
        ),
{
    let ghost km = key.deep_view();
    let ghost goal = node_batches(km, rows.deep_view(), prefix_label.deep_view(), n as nat);
    let mut rows = rows;
    sorting::sort_items(&mut rows, node_in_order, Ghost(node_order()));
    let ghost runs_of = rows.deep_view();
    let mut runs = ast::chunk_rows(rows, n);
    let ghost all = runs.deep_view();
    let mut out: Vec<NodeBatch> = Vec::new();
    while runs.len() > 0
        invariant
            km == key.deep_view(),
            key@.len() >= 2,
            all == ast::chunked(runs_of, n as nat),
            goal.len() == all.len(),
            forall|i: int|
                0 <= i < goal.len() ==> #[trigger] goal[i] == (NodeBatchModel {
                    label: km[0],
                    merge_on: km[1],
                    prefix_label: prefix_label.deep_view(),
                    domain_label: domain_of_key(km, 2),
                    rows: all[i],
                }),
            out@.len() + runs@.len() == all.len(),
            runs.deep_view() == all.skip(out@.len() as int),
            out.deep_view() == goal.take(out@.len() as int),
        decreases runs@.len(),
    {
        let ghost k = out@.len() as int;
        let ghost rest = runs.deep_view();
        assert(rest[0] == all[k]);
        let rows = runs.remove(0);
        assert(runs.deep_view() =~= rest.remove(0));
        assert(runs.deep_view() =~= all.skip(k + 1));
        let batch = NodeBatch {
            label: key[0].clone(),
            merge_on: key[1].clone(),
            prefix_label: copy_opt(prefix_label),
            domain_label: domain_at(key, 2),
            rows,
        };
        assert(batch.deep_view() == goal[k]);
        let ghost before = out.deep_view();
        out.push(batch);
        assert(out.deep_view() =~= before.push(batch.deep_view()));
        assert(out.deep_view() =~= goal.take(k + 1));
    }
    assert(out.deep_view() =~= goal);
    out
}

fn relation_group_batches(
    key: &Vec<String>,
    rows: Vec<RelationRow>,
    prefix_label: &Option<String>,
    n: usize,
) -> (r: Vec<RelationBatch>)
    requires
        n > 0,
        key@.len() >= 5,
    ensures
        r.deep_view() == relation_batches(
            key.deep_view(),
            rows.deep_view(),
            prefix_label.deep_view(),
            n as nat,
        ),
{
    let ghost km = key.deep_view();
    let ghost goal = relation_batches(km, rows.deep_view(), prefix_label.deep_view(), n as nat);
    let mut rows = rows;
    sorting::sort_items(&mut rows, relation_in_order, Ghost(relation_order()));
    let ghost runs_of = rows.deep_view();
    let mut runs = ast::chunk_rows(rows, n);
    let ghost all = runs.deep_view();
    let mut out: Vec<RelationBatch> = Vec::new();
    while runs.len() > 0
        invariant
            km == key.deep_view(),
            key@.len() >= 5,
            all == ast::chunked(runs_of, n as nat),
            goal.len() == all.len(),
            forall|i: int|
                0 <= i < goal.len() ==> #[trigger] goal[i] == (RelationBatchModel {
                    rel_type: km[0],
                    from_label: km[1],
                    from_key: km[2],
                    to_label: km[3],
                    to_key: km[4],
                    prefix_label: prefix_label.deep_view(),
                    domain_label: domain_of_key(km, 5),
                    rows: all[i],
                }),
            out@.len() + runs@.len() == all.len(),
            runs.deep_view() == all.skip(out@.len() as int),
            out.deep_view() == goal.take(out@.len() as int),
        decreases runs@.len(),
    {
        let ghost k = out@.len() as int;
        let ghost rest = runs.deep_view();
        assert(rest[0] == all[k]);
        let rows = runs.remove(0);
        assert(runs.deep_view() =~= rest.remove(0));
        assert(runs.deep_view() =~= all.skip(k + 1));
        let batch = RelationBatch {
            rel_type: key[0].clone(),
            from_label: key[1].clone(),
            from_key: key[2].clone(),
            to_label: key[3].clone(),
            to_key: key[4].clone(),
            prefix_label: copy_opt(prefix_label),
            domain_label: domain_at(key, 5),
            rows,
        };
        assert(batch.deep_view() == goal[k]);
        let ghost before = out.deep_view();
        out.push(batch);
        assert(out.deep_view() =~= before.push(batch.deep_view()));
        assert(out.deep_view() =~= goal.take(k + 1));
    }
    assert(out.deep_view() =~= goal);
    out
}

/// Every key holds at least `n` texts.
pub open spec fn keys_of<T>(groups: Seq<(Seq<Seq<char>>, Seq<T>)>, n: nat) -> bool {
    forall|i: int| 0 <= i < groups.len() ==> (#[trigger] groups[i]).0.len() >= n
}

proof fn entity_keys_hold<R: TypeRegistry>(
    registry: R,
    floats: FloatTableModel,
    prefix_index: Option<Seq<char>>,
    entities: Seq<EntityGraphModel>,
    n: nat,
)
    ensures
        keys_of(entities_walked(registry, floats, prefix_index, entities, n).nodes, 2),
    decreases n,
{
    if n > 0 {
        entity_keys_hold(registry, floats, prefix_index, entities, (n - 1) as nat);
        let w = entities_walked(registry, floats, prefix_index, entities, (n - 1) as nat);
        let e = entities[n - 1];
        let v = entity_step(registry, floats, prefix_index, w, e);
        if w.error is None && v.error is None {
            let field = merge_field(e)->Ok_0;
            let id = id_of(e, field, floats)->Ok_0;
            let p = properties_walked(
                registry,
                floats,
                prefix_index,
                e,
                field,
                id,
                e.properties.len(),
            );
            groups::group_push_keeps(
                w.nodes,
                with_domain(seq![e.kind, field], e.domain),
                NodeRowModel { id, props: p.props, scope_labels: scope::labels_of(e.scopes) },
                |k: Seq<Seq<char>>| k.len() >= 2,
            );
        }
    }
}

proof fn relation_keys_hold<R: TypeRegistry>(
    registry: R,
    floats: FloatTableModel,
    keys: Seq<EntityKeyModel>,
    relations: Seq<RelationGraphModel>,
)
    ensures
        match relation_groups(registry, floats, keys, relations) {
            Ok(g) => keys_of(g, 5),
            Err(_) => true,
        },
    decreases relations.len(),
{
    if relations.len() > 0 {
        relation_keys_hold(registry, floats, keys, relations.drop_last());
        if let Ok(out) = relation_groups(registry, floats, keys, relations.drop_last()) {
            if let Ok((key, row)) = relation_entry(registry, floats, keys, relations.last()) {
                groups::group_push_keeps(out, key, row, |k: Seq<Seq<char>>| k.len() >= 5);
            }
        }
    }
}

fn batch_nodes(
    groups: Vec<(Vec<String>, Vec<NodeRow>)>,
    prefix_label: &Option<String>,
    n: usize,
) -> (r: Vec<NodeBatch>)
    requires
        n > 0,
        keys_of(groups.deep_view(), 2),
    ensures
        r.deep_view() == all_node_batches(
            groups.deep_view(),
            prefix_label.deep_view(),
            n as nat,
        ),
{
    let ghost all = groups.deep_view();
    let ghost p = prefix_label.deep_view();
    let mut groups = groups;
    let mut out: Vec<NodeBatch> = Vec::new();
    assert(out.deep_view() =~= Seq::<NodeBatchModel>::empty());
    let ghost mut k: int = 0;
    while groups.len() > 0
        invariant
            n > 0,
            keys_of(all, 2),
            p == prefix_label.deep_view(),
            0 <= k <= all.len(),
            groups@.len() == all.len() - k,
            groups.deep_view() == all.skip(k),
            out.deep_view() == all_node_batches(all.take(k), p, n as nat),
        decreases groups@.len(),
    {
        let ghost rest = groups.deep_view();
        assert(rest[0] == all[k]);
        let (key, rows) = groups.remove(0);
        assert(groups.deep_view() =~= rest.remove(0));
        assert(groups.deep_view() =~= all.skip(k + 1));
        assert(key.deep_view() == all[k].0);
        assert(all[k].0.len() >= 2);
        proof {
            assert(all.take(k + 1).drop_last() =~= all.take(k));
            assert(all.take(k + 1).last() == all[k]);
        }
        let ghost before = out.deep_view();
        let mut more = node_group_batches(&key, rows, prefix_label, n);
        let ghost added = more.deep_view();
        out.append(&mut more);
        assert(out.deep_view() =~= before + added);
        proof {
            k = k + 1;
        }
    }
    assert(all.take(k) =~= all);
    out
}

fn batch_relations(
    groups: Vec<(Vec<String>, Vec<RelationRow>)>,
    prefix_label: &Option<String>,
    n: usize,
) -> (r: Vec<RelationBatch>)
    requires
        n > 0,
        keys_of(groups.deep_view(), 5),
    ensures
        r.deep_view() == all_relation_batches(
            groups.deep_view(),
            prefix_label.deep_view(),
            n as nat,
        ),
{
    let ghost all = groups.deep_view();
    let ghost p = prefix_label.deep_view();
    let mut groups = groups;
    let mut out: Vec<RelationBatch> = Vec::new();
    assert(out.deep_view() =~= Seq::<RelationBatchModel>::empty());
    let ghost mut k: int = 0;
    while groups.len() > 0
        invariant
            n > 0,
            keys_of(all, 5),
            p == prefix_label.deep_view(),
            0 <= k <= all.len(),
            groups@.len() == all.len() - k,
            groups.deep_view() == all.skip(k),
            out.deep_view() == all_relation_batches(all.take(k), p, n as nat),
        decreases groups@.len(),
    {
        let ghost rest = groups.deep_view();
        assert(rest[0] == all[k]);
        let (key, rows) = groups.remove(0);
        assert(groups.deep_view() =~= rest.remove(0));
        assert(groups.deep_view() =~= all.skip(k + 1));
        assert(key.deep_view() == all[k].0);
        assert(all[k].0.len() >= 5);
        proof {
            assert(all.take(k + 1).drop_last() =~= all.take(k));
            assert(all.take(k + 1).last() == all[k]);
        }
        let ghost before = out.deep_view();
        let mut more = relation_group_batches(&key, rows, prefix_label, n);
        let ghost added = more.deep_view();
        out.append(&mut more);
        assert(out.deep_view() =~= before + added);
        proof {
            k = k + 1;
        }
    }
    assert(all.take(k) =~= all);
    out
}

fn add_relation<R: TypeRegistry>(
    registry: &R,
    floats: &FloatTable,
    keys: &Vec<EntityKey>,
    rel: &RelationGraph,
    out: &mut Vec<(Vec<String>, Vec<RelationRow>)>,
) -> (r: Result<(), IngestError>)
    ensures
        match relation_entry(*registry, floats.deep_view(), keys.deep_view(), rel.deep_view()) {
            Err(e) => r matches Err(err) && err.deep_view() == e,
            Ok((key, row)) => r is Ok && final(out).deep_view() == groups::group_push(
                old(out).deep_view(),
                key,
                row,
            ),
        },
{
    if rel.from.0 >= keys.len() {
        return Err(IngestError::UnknownGraphEntityRef(rel.from.0));
    }
    if rel.to.0 >= keys.len() {
        return Err(IngestError::UnknownGraphEntityRef(rel.to.0));
    }
    let from = &keys[rel.from.0];
    let to = &keys[rel.to.0];
    assert(keys.deep_view()[rel.from.0 as int] == from.deep_view());
    assert(keys.deep_view()[rel.to.0 as int] == to.deep_view());
    match lower_relation_properties(registry, floats, &rel.properties) {
        Err(e) => Err(e),
        Ok(props) => {
            let mut key: Vec<String> = Vec::new();
            key.push(rel.kind.clone());
            key.push(from.label.clone());
            key.push(from.key_field.clone());
            key.push(to.label.clone());
            key.push(to.key_field.clone());
            let ghost base = seq![rel.kind@, from.label@, from.key_field@, to.label@, to.key_field@];
            assert(key.deep_view() =~= base);
            if let (Some(a), Some(b)) = (&from.domain, &to.domain) {
                if text::text_eq(a.as_str(), b.as_str()) {
                    key.push(a.clone());
                    assert(key.deep_view() =~= base.push(a@));
                }
            }
            assert(key.deep_view() == with_domain(
                base,
                shared_domain(from.domain.deep_view(), to.domain.deep_view()),
            ));
            groups::push_to_group(
                out,
                key,
                RelationRow {
                    from_id: copy_literal(&from.id),
                    to_id: copy_literal(&to.id),
                    props,
                },
            );
            Ok(())
        },
    }
}

/// Plan the insertion of a graph in batches of bounded size. `prefix_label` goes
/// on every batch, `prefix_index` into the vector collections that handlers
/// name; either counts as absent where it is blank. `floats` says how texts of
/// number properties read as floats. The effects that handlers set off are
/// queued in `effects`.
pub fn plan_graph_with_registry_and_prefixes<R: TypeRegistry>(
    graph: &Graph,
    opts: PlannerOptions,
    registry: &R,
    floats: &FloatTable,
    effects: &mut Vec<SideEffect>,
    prefix_label: Option<&str>,
    prefix_index: Option<&str>,
) -> (r: Result<InsertQuery, IngestError>)
    ensures
        error::outcome_model(r) == graph_outcome(
            *registry,
            floats.deep_view(),
            graph.deep_view(),
            opts.max_batch_size as nat,
            prefix_label.deep_view(),
            prefix_index.deep_view(),
        ),
        final(effects).deep_view() == old(effects).deep_view() + graph_effects(
            *registry,
            floats.deep_view(),
            graph.deep_view(),
            opts.max_batch_size as nat,
            prefix_index.deep_view(),
        ),
{
    let ghost start = effects.deep_view();
    assert(start + Seq::<SideEffectModel>::empty() =~= start);
    if opts.max_batch_size == 0 {
        return Err(IngestError::InvalidBatchSize);
    }
    let label = normal_prefix(prefix_label);
    let index = normal_prefix(prefix_index);
    let ghost (fl, pi, es) = (floats.deep_view(), index.deep_view(), graph.entities.deep_view());
    let mut keys: Vec<EntityKey> = Vec::new();
    let mut nodes: Vec<(Vec<String>, Vec<NodeRow>)> = Vec::new();
    assert(keys.deep_view() =~= Seq::<EntityKeyModel>::empty());
    assert(nodes.deep_view() =~= Seq::<(Seq<Seq<char>>, Seq<NodeRowModel>)>::empty());
    let mut i: usize = 0;
    while i < graph.entities.len()
        invariant
            fl == floats.deep_view(),
            pi == index.deep_view(),
            pi == prefix_of(prefix_index.deep_view()),
            es == graph.entities.deep_view(),
            opts.max_batch_size > 0,
            0 <= i <= graph.entities@.len(),
            start == old(effects).deep_view(),
            entities_walked(*registry, fl, pi, es, i as nat).error is None,
            entities_walked(*registry, fl, pi, es, i as nat).keys == keys.deep_view(),
            entities_walked(*registry, fl, pi, es, i as nat).nodes == nodes.deep_view(),
            effects.deep_view() == start + entities_walked(*registry, fl, pi, es, i as nat).effects,
        decreases graph.entities@.len() - i,
    {
        let ghost w = entities_walked(*registry, fl, pi, es, i as nat);
        let e = &graph.entities[i];
        let ghost em = e.deep_view();
        proof {
            assert(es[i as int] == em);
            assert(start + w.effects =~= start + (w.effects + Seq::<SideEffectModel>::empty()));
            let v = entities_walked(*registry, fl, pi, es, (i + 1) as nat);
            if v.error is Some {
                entities_stay_failed(*registry, fl, pi, es, (i + 1) as nat, es.len());
            }
        }
        let field = match merge_on(e) {
            Err(err) => {
                return Err(err);
            },
            Ok(f) => f,
        };
        let id = match entity_id(e, field.as_str(), floats) {
            Err(err) => {
                return Err(err);
            },
            Ok(x) => x,
        };
        let ghost p = properties_walked(
            *registry,
            fl,
            pi,
            em,
            field@,
            id.deep_view(),
            em.properties.len(),
        );
        let lowered = lower_entity_properties(
            registry,
            floats,
            opt_str(&index),
            e,
            field.as_str(),
            &id,
            effects,
        );
        assert(start + w.effects + p.effects =~= start + (w.effects + p.effects));
        let props = match lowered {
            Err(err) => {
                return Err(err);
            },
            Ok(props) => props,
        };
        let key = EntityKey {
            label: e.kind.clone(),
            key_field: field.clone(),
            domain: copy_opt(&e.domain),
            id: copy_literal(&id),
        };
        let ghost before = keys.deep_view();
        keys.push(key);
        assert(keys.deep_view() =~= before.push(key.deep_view()));
        let mut group: Vec<String> = Vec::new();
        let ghost base = seq![e.kind@, field@];
        group.push(e.kind.clone());
        group.push(field);
        assert(group.deep_view() =~= base);
        if let Some(d) = &e.domain {
            group.push(d.clone());
            assert(group.deep_view() =~= base.push(d@));
        }
        assert(group.deep_view() == with_domain(base, em.domain));
        let scope_labels = e.scopes.cypher_labels();
        groups::push_to_group(&mut nodes, group, NodeRow { id, props, scope_labels });
        i += 1;
    }
    let ghost km = keys.deep_view();
    let ghost rs = graph.relations.deep_view();
    let mut rels: Vec<(Vec<String>, Vec<RelationRow>)> = Vec::new();
    assert(rels.deep_view() =~= Seq::<(Seq<Seq<char>>, Seq<RelationRowModel>)>::empty());
    let mut j: usize = 0;
    while j < graph.relations.len()
        invariant
            fl == floats.deep_view(),
            pi == prefix_of(prefix_index.deep_view()),
            es == graph.entities.deep_view(),
            rs == graph.relations.deep_view(),
            km == keys.deep_view(),
            opts.max_batch_size > 0,
            start == old(effects).deep_view(),
            entities_walked(*registry, fl, pi, es, es.len()).error is None,
            entities_walked(*registry, fl, pi, es, es.len()).keys == km,
            effects.deep_view() == start + entities_walked(
                *registry,
                fl,
                pi,
                es,
                es.len(),
            ).effects,
            0 <= j <= graph.relations@.len(),
            relation_groups(*registry, fl, km, rs.take(j as int)) == Ok::<
                Seq<(Seq<Seq<char>>, Seq<RelationRowModel>)>,
                IngestErrorModel,
            >(rels.deep_view()),
        decreases graph.relations@.len() - j,
    {
        proof {
            assert(rs.take(j + 1).drop_last() =~= rs.take(j as int));
            assert(rs.take(j + 1).last() == graph.relations@[j as int].deep_view());
            if relation_groups(*registry, fl, km, rs.take(j + 1)) is Err {
                relation_groups_fail(*registry, fl, km, rs, j + 1);
            }
        }
        if let Err(e) = add_relation(registry, floats, &keys, &graph.relations[j], &mut rels) {
            return Err(e);
        }
        j += 1;
    }
    proof {
        assert(rs.take(j as int) =~= rs);
        entity_keys_hold(*registry, fl, pi, es, es.len());
        relation_keys_hold(*registry, fl, km, rs);
    }
    Ok(
        InsertQuery {
            node_batches: batch_nodes(nodes, &label, opts.max_batch_size),
            relation_batches: batch_relations(rels, &label, opts.max_batch_size),
        },
    )
}

/// As [`plan_graph_with_registry_and_prefixes`], without index prefix.
pub fn plan_graph_with_registry_and_prefix<R: TypeRegistry>(
    graph: &Graph,
    opts: PlannerOptions,
    registry: &R,
    floats: &FloatTable,
    effects: &mut Vec<SideEffect>,
    prefix_label: Option<&str>,
) -> (r: Result<InsertQuery, IngestError>)
    ensures
        error::outcome_model(r) == graph_outcome(
            *registry,
            floats.deep_view(),
            graph.deep_view(),
            opts.max_batch_size as nat,
            prefix_label.deep_view(),
            None,
        ),
        final(effects).deep_view() == old(effects).deep_view() + graph_effects(
            *registry,
            floats.deep_view(),
            graph.deep_view(),
            opts.max_batch_size as nat,
            None,
        ),
{
    plan_graph_with_registry_and_prefixes(graph, opts, registry, floats, effects, prefix_label, None)
}

/// As [`plan_graph_with_registry_and_prefixes`], without prefixes.
pub fn plan_graph_with_registry<R: TypeRegistry>(
    graph: &Graph,
    opts: PlannerOptions,
    registry: &R,
    floats: &FloatTable,
    effects: &mut Vec<SideEffect>,
) -> (r: Result<InsertQuery, IngestError>)
    ensures
        error::outcome_model(r) == graph_outcome(
            *registry,
            floats.deep_view(),
            graph.deep_view(),
            opts.max_batch_size as nat,
            None,
            None,
        ),
        final(effects).deep_view() == old(effects).deep_view() + graph_effects(
            *registry,
            floats.deep_view(),
            graph.deep_view(),
            opts.max_batch_size as nat,
            None,
        ),
{
    plan_graph_with_registry_and_prefix(graph, opts, registry, floats, effects, None)
}

} // verus!
