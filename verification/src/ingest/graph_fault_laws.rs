//! Why planning a graph fails: each error names a fault of an entity or of a relation.

use vstd::prelude::*;
use crate::graph::builder::GraphModel;
use crate::graph::schema;
use crate::graph::schema::EntityGraphModel;
use crate::graph::schema::PrimaryKeyModel;
use crate::graph::schema::PropertyModel;
use crate::graph::schema::RelationGraphModel;
use crate::ingest::convert;
use crate::ingest::convert::FloatTableModel;
use crate::ingest::error::IngestErrorModel;
use crate::ingest::graph;
use crate::ingest::graph::EntityKeyModel;
use crate::literal::LiteralModel;
use crate::strmap;
use crate::types::IngestInputModel;
use crate::types::TypeRegistry;

verus! {

broadcast use vstd::string::group_string_axioms;

/// Is this what a handler finds wrong with a property: there is none, it refuses the value, or it
/// leaves a value that its type cannot read?
pub open spec fn handler_faults<R: TypeRegistry>(
    registry: R,
    floats: FloatTableModel,
    type_id: Seq<char>,
    input: IngestInputModel,
    p: PropertyModel,
    err: IngestErrorModel,
) -> bool {
    if !registry.registered(type_id) {
        err == IngestErrorModel::Type("no handler is registered for type '"@ + type_id + "'"@)
    } else {
        match registry.answer(type_id, input) {
            Err(m) => err == IngestErrorModel::Type(m),
            Ok(l) => l.stored is Untouched && convert::typed_literal(
                p.value,
                p.name,
                p.property_type,
                floats,
            ) == Err::<LiteralModel, IngestErrorModel>(err),
        }
    }
}

/// The field that holds the key of an entity: the one that it names, or that of its canonical text.
pub open spec fn key_field_of(e: EntityGraphModel) -> Seq<char> {
    match e.primary_key {
        Some(PrimaryKeyModel::Strict(f)) => f,
        _ => "_canonical"@,
    }
}

/// Is a property of an entity at fault?
pub open spec fn property_faults<R: TypeRegistry>(
    registry: R,
    floats: FloatTableModel,
    prefix_index: Option<Seq<char>>,
    e: EntityGraphModel,
    p: PropertyModel,
    err: IngestErrorModel,
) -> bool {
    exists|id: LiteralModel| #[trigger]
        handler_faults(
            registry,
            floats,
            schema::handler_of(p.property_type),
            IngestInputModel {
                label: e.kind,
                key_field: key_field_of(e),
                key_value: id,
                field: p.name,
                value: p.value,
                prefix_index,
            },
            p,
            err,
        )
}

/// Is an entity at fault: it has no key, no value under its key, one that its type cannot read, or a
/// property that is at fault?
pub open spec fn entity_faults<R: TypeRegistry>(
    registry: R,
    floats: FloatTableModel,
    prefix_index: Option<Seq<char>>,
    e: EntityGraphModel,
    err: IngestErrorModel,
) -> bool {
    if e.primary_key is None {
        err == IngestErrorModel::MissingGraphPrimaryKey(e.kind)
    } else {
        match strmap::assoc_get(e.properties, key_field_of(e)) {
            None => err == (IngestErrorModel::MissingGraphPrimaryKeyValue {
                label: e.kind,
                field: key_field_of(e),
            }),
            Some(k) => convert::typed_literal(k.value, k.name, k.property_type, floats) == Err::<
                LiteralModel,
                IngestErrorModel,
            >(err) || exists|i: int|
                0 <= i < e.properties.len() && property_faults(
                    registry,
                    floats,
                    prefix_index,
                    e,
                    (#[trigger] e.properties[i]).1,
                    err,
                ),
        }
    }
}

proof fn walked_property_faults<R: TypeRegistry>(
    registry: R,
    floats: FloatTableModel,
    prefix_index: Option<Seq<char>>,
    e: EntityGraphModel,
    id: LiteralModel,
    n: nat,
)
    requires
        n <= e.properties.len(),
    ensures
        match graph::properties_walked(registry, floats, prefix_index, e, key_field_of(e), id, n).error {
            Some(err) => exists|i: int|
                0 <= i < n && property_faults(
                    registry,
                    floats,
                    prefix_index,
                    e,
                    (#[trigger] e.properties[i]).1,
                    err,
                ),
            None => true,
        },
    decreases n,
{
    if n > 0 {
        let m = (n - 1) as nat;
        walked_property_faults(registry, floats, prefix_index, e, id, m);
        let before = graph::properties_walked(
            registry,
            floats,
            prefix_index,
            e,
            key_field_of(e),
            id,
            m,
        );
        let after = graph::properties_walked(
            registry,
            floats,
            prefix_index,
            e,
            key_field_of(e),
            id,
            n,
        );
        if before.error is None && after.error is Some {
            let p = e.properties[m as int].1;
            let input = IngestInputModel {
                label: e.kind,
                key_field: key_field_of(e),
                key_value: id,
                field: p.name,
                value: p.value,
                prefix_index,
            };
            assert(handler_faults(
                registry,
                floats,
                schema::handler_of(p.property_type),
                input,
                p,
                after.error->0,
            ));
            assert(property_faults(
                registry,
                floats,
                prefix_index,
                e,
                e.properties[m as int].1,
                after.error->0,
            ));
        }
    }
}

proof fn walked_entity_faults<R: TypeRegistry>(
    registry: R,
    floats: FloatTableModel,
    prefix_index: Option<Seq<char>>,
    es: Seq<EntityGraphModel>,
    n: nat,
)
    requires
        n <= es.len(),
    ensures
        ({
            let w = graph::entities_walked(registry, floats, prefix_index, es, n);
            match w.error {
                Some(err) => exists|i: int|
                    0 <= i < n && entity_faults(registry, floats, prefix_index, #[trigger] es[i], err),
                None => w.keys.len() == n,
            }
        }),
    decreases n,
{
    if n > 0 {
        let m = (n - 1) as nat;
        walked_entity_faults(registry, floats, prefix_index, es, m);
        let before = graph::entities_walked(registry, floats, prefix_index, es, m);
        let after = graph::entities_walked(registry, floats, prefix_index, es, n);
        let e = es[m as int];
        if before.error is Some {
            let err = before.error->0;
            let i = choose|i: int|
                0 <= i < m && entity_faults(registry, floats, prefix_index, #[trigger] es[i], err);
            assert(entity_faults(registry, floats, prefix_index, es[i], err));
        } else if after.error is Some {
            if e.primary_key is Some {
                if let Ok(id) = graph::id_of(e, key_field_of(e), floats) {
                    walked_property_faults(
                        registry,
                        floats,
                        prefix_index,
                        e,
                        id,
                        e.properties.len(),
                    );
                }
            }
            assert(entity_faults(registry, floats, prefix_index, es[m as int], after.error->0));
        }
    }
}

/// Is a property of a relation at fault: is it so under its handler, or does the handler set off
/// what only a node may?
pub open spec fn relation_property_faults<R: TypeRegistry>(
    registry: R,
    floats: FloatTableModel,
    p: PropertyModel,
    err: IngestErrorModel,
) -> bool {
    let type_id = if schema::handler_of(p.property_type) == "SemanticText"@ {
        "Keyword"@
    } else {
        schema::handler_of(p.property_type)
    };
    let input = IngestInputModel {
        label: "__Relationship"@,
        key_field: "id"@,
        key_value: LiteralModel::Str("__relationship__"@),
        field: p.name,
        value: p.value,
        prefix_index: None,
    };
    let answer = registry.answer(type_id, input);
    if registry.registered(type_id) && answer is Ok && answer->Ok_0.effects.len() > 0 {
        err == IngestErrorModel::Type(
            "relationship properties cannot produce node-scoped side effects"@,
        )
    } else {
        handler_faults(registry, floats, type_id, input, p, err)
    }
}

/// Is a relation at fault: is its start unknown, or else its end, or a property of it at fault?
pub open spec fn relation_faults<R: TypeRegistry>(
    registry: R,
    floats: FloatTableModel,
    known: nat,
    rel: RelationGraphModel,
    err: IngestErrorModel,
) -> bool {
    if rel.from.0 >= known {
        err == IngestErrorModel::UnknownGraphEntityRef(rel.from.0)
    } else if rel.to.0 >= known {
        err == IngestErrorModel::UnknownGraphEntityRef(rel.to.0)
    } else {
        exists|i: int|
            0 <= i < rel.properties.len() && relation_property_faults(
                registry,
                floats,
                (#[trigger] rel.properties[i]).1,
                err,
            )
    }
}

proof fn lowered_property_faults<R: TypeRegistry>(
    registry: R,
    floats: FloatTableModel,
    props: Seq<(Seq<char>, PropertyModel)>,
)
    ensures
        match graph::relation_properties(registry, floats, props) {
            Err(err) => exists|i: int|
                0 <= i < props.len() && relation_property_faults(
                    registry,
                    floats,
                    (#[trigger] props[i]).1,
                    err,
                ),
            Ok(_) => true,
        },
    decreases props.len(),
{
    if props.len() > 0 {
        let rest = props.drop_last();
        lowered_property_faults(registry, floats, rest);
        let n = props.len() - 1;
        match graph::relation_properties(registry, floats, rest) {
            Err(err) => {
                let i = choose|i: int|
                    0 <= i < rest.len() && relation_property_faults(
                        registry,
                        floats,
                        (#[trigger] rest[i]).1,
                        err,
                    );
                assert(props[i] == rest[i]);
            },
            Ok(_) => {
                if let Err(err) = graph::relation_properties(registry, floats, props) {
                    crate::ingest::graph_laws::law_relation_properties_are_not_embedded(
                        props[n].1.property_type,
                    );
                    assert(relation_property_faults(registry, floats, props[n].1, err));
                }
            },
        }
    }
}

proof fn grouped_relation_faults<R: TypeRegistry>(
    registry: R,
    floats: FloatTableModel,
    keys: Seq<EntityKeyModel>,
    rels: Seq<RelationGraphModel>,
)
    ensures
        match graph::relation_groups(registry, floats, keys, rels) {
            Err(err) => exists|i: int|
                0 <= i < rels.len() && relation_faults(
                    registry,
                    floats,
                    keys.len(),
                    #[trigger] rels[i],
                    err,
                ),
            Ok(_) => true,
        },
    decreases rels.len(),
{
    if rels.len() > 0 {
        let rest = rels.drop_last();
        grouped_relation_faults(registry, floats, keys, rest);
        let n = rels.len() - 1;
        match graph::relation_groups(registry, floats, keys, rest) {
            Err(err) => {
                let i = choose|i: int|
                    0 <= i < rest.len() && relation_faults(
                        registry,
                        floats,
                        keys.len(),
                        #[trigger] rest[i],
                        err,
                    );
                assert(rels[i] == rest[i]);
            },
            Ok(_) => {
                if let Err(err) = graph::relation_groups(registry, floats, keys, rels) {
                    lowered_property_faults(registry, floats, rels[n].properties);
                    assert(relation_faults(registry, floats, keys.len(), rels[n], err));
                }
            },
        }
    }
}

/// Planning a graph fails only with batches of nothing, or over an entity or a relation that is at
/// fault, and the error names that fault; a graph without faults is planned.
pub proof fn law_graph_errors_name_faults<R: TypeRegistry>(
    registry: R,
    floats: FloatTableModel,
    g: GraphModel,
    n: nat,
    prefix_label: Option<Seq<char>>,
    prefix_index: Option<Seq<char>>,
)
    ensures
        n == 0 ==> graph::graph_outcome(registry, floats, g, n, prefix_label, prefix_index) is Err,
        match graph::graph_outcome(registry, floats, g, n, prefix_label, prefix_index) {
            Err(err) => if n == 0 {
                err == IngestErrorModel::InvalidBatchSize
            } else {
                (exists|i: int|
                    0 <= i < g.entities.len() && entity_faults(
                        registry,
                        floats,
                        graph::prefix_of(prefix_index),
                        #[trigger] g.entities[i],
                        err,
                    )) || (exists|i: int|
                    0 <= i < g.relations.len() && relation_faults(
                        registry,
                        floats,
                        g.entities.len(),
                        #[trigger] g.relations[i],
                        err,
                    ))
            },
            Ok(_) => true,
        },
{
    if n > 0 {
        let index = graph::prefix_of(prefix_index);
        walked_entity_faults(registry, floats, index, g.entities, g.entities.len());
        let w = graph::entities_walked(registry, floats, index, g.entities, g.entities.len());
        if w.error is None {
            grouped_relation_faults(registry, floats, w.keys, g.relations);
        }
    }
}

} // verus!
