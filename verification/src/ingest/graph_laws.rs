//! What a planned graph holds: every entity with its properties, every relation with its
//! ends, and nothing else.

use vstd::prelude::*;
use crate::ast;
use crate::ast::InsertQueryModel;
use crate::ast::NodeBatchModel;
use crate::ast::NodeRowModel;
use crate::ast::RelationBatchModel;
use crate::ast::RelationRowModel;
use crate::graph::builder::GraphModel;
use crate::graph::builder::CANONICAL_FIELD;
use crate::graph::schema;
use crate::graph::schema::EntityGraphModel;
use crate::graph::schema::OntologyPropertyType;
use crate::graph::schema::PrimaryKeyModel;
use crate::graph::schema::PropertyModel;
use crate::graph::schema::PropertyType;
use crate::graph::schema::RelationGraphModel;
use crate::graph::scope;
use crate::groups;
use crate::ingest::convert;
use crate::ingest::convert::FloatTableModel;
use crate::ingest::error::IngestErrorModel;
use crate::ingest::graph;
use crate::ingest::graph::EntityKeyModel;
use crate::ingest::laws;
use crate::literal::LiteralModel;
use crate::sorting;
use crate::strmap;
use crate::text;
use crate::types::IngestInputModel;
use crate::types::SideEffectModel;
use crate::types::StoredModel;
use crate::types::TypeRegistry;

verus! {

broadcast use vstd::string::group_string_axioms;

pub type PropertiesModel = Seq<(Seq<char>, PropertyModel)>;

pub type StoredProps = Seq<(Seq<char>, LiteralModel)>;

/// Is the property at `i` the last of its name among the first `n`?
pub open spec fn last_of_name(ps: PropertiesModel, i: int, n: int) -> bool {
    forall|j: int| i < j < n ==> (#[trigger] ps[j]).1.name != ps[i].1.name
}

/// Is the property at `i` the only one of its name among the first `n`?
pub open spec fn only_of_name(ps: PropertiesModel, i: int, n: int) -> bool {
    forall|j: int| 0 <= j < n && j != i ==> (#[trigger] ps[j]).1.name != ps[i].1.name
}

/// What the handler of a node's property is asked.
pub open spec fn asked_of_node(
    e: EntityGraphModel,
    key_field: Seq<char>,
    id: LiteralModel,
    p: PropertyModel,
    index: Option<Seq<char>>,
) -> IngestInputModel {
    IngestInputModel {
        label: e.kind,
        key_field,
        key_value: id,
        field: p.name,
        value: p.value,
        prefix_index: index,
    }
}

/// The type id of the handler that a property goes to.
pub open spec fn handler_name(t: PropertyType) -> Seq<char> {
    match t {
        OntologyPropertyType::Keyword => "Keyword"@,
        OntologyPropertyType::List => "Keyword"@,
        OntologyPropertyType::Text => "SemanticText"@,
        OntologyPropertyType::Number => "Number"@,
        OntologyPropertyType::Bool => "Boolean"@,
        OntologyPropertyType::Datetime => "Timestamp"@,
    }
}

/// Is a value stored under the name of a property as its handler answers: as the declared
/// type reads it where it is left untouched, the replacement where there is one?
pub open spec fn kept_as_answered(
    stored: StoredModel,
    p: PropertyModel,
    floats: FloatTableModel,
    props: StoredProps,
) -> bool {
    match stored {
        StoredModel::Untouched => strmap::assoc_get(props, p.name) is Some
            && convert::typed_literal(p.value, p.name, p.property_type, floats) == Ok::<
            LiteralModel,
            IngestErrorModel,
        >(strmap::assoc_get(props, p.name)->0),
        StoredModel::Replaced(x) => strmap::assoc_get(props, p.name) == Some(x),
        StoredModel::Skipped => true,
    }
}

/// Is the property at `i`, of the first `n` of an entity, stored as its handler answers? The
/// last one of a name counts. Where the handler skips the only one of a name, nothing is
/// stored.
pub open spec fn property_is_held<R: TypeRegistry>(
    registry: R,
    floats: FloatTableModel,
    index: Option<Seq<char>>,
    e: EntityGraphModel,
    key_field: Seq<char>,
    id: LiteralModel,
    props: StoredProps,
    i: int,
    n: int,
) -> bool {
    let p = e.properties[i].1;
    let answer = registry.answer(
        handler_name(p.property_type),
        asked_of_node(e, key_field, id, p, index),
    );
    &&& registry.registered(handler_name(p.property_type))
    &&& answer is Ok
    &&& last_of_name(e.properties, i, n) ==> kept_as_answered(
        answer->Ok_0.stored,
        p,
        floats,
        props,
    )
    &&& only_of_name(e.properties, i, n) && answer->Ok_0.stored is Skipped ==> strmap::assoc_get(
        props,
        p.name,
    ) is None
}

/// Is `k` the name of one of the first `n` properties?
pub open spec fn names_property(ps: PropertiesModel, n: int, k: Seq<char>) -> bool {
    exists|i: int| 0 <= i < n && (#[trigger] ps[i]).1.name == k
}

/// Do stored properties hold the first `n` properties of an entity, as their handlers
/// answer, and no key besides their names?
pub open spec fn holds_properties<R: TypeRegistry>(
    registry: R,
    floats: FloatTableModel,
    index: Option<Seq<char>>,
    e: EntityGraphModel,
    key_field: Seq<char>,
    id: LiteralModel,
    props: StoredProps,
    n: int,
) -> bool {
    &&& forall|i: int|
        0 <= i < n ==> #[trigger] property_is_held(
            registry,
            floats,
            index,
            e,
            key_field,
            id,
            props,
            i,
            n,
        )
    &&& forall|k: Seq<char>|
        strmap::assoc_get(props, k) is Some ==> #[trigger] names_property(e.properties, n, k)
}

proof fn handler_is_named(t: PropertyType)
    ensures
        schema::handler_of(t) == handler_name(t),
{
    reveal_strlit("SemanticText");
}

proof fn property_stays_held<R: TypeRegistry>(
    registry: R,
    floats: FloatTableModel,
    index: Option<Seq<char>>,
    e: EntityGraphModel,
    key_field: Seq<char>,
    id: LiteralModel,
    before: StoredProps,
    after: StoredProps,
    i: int,
    m: int,
)
    requires
        0 <= i < m < e.properties.len(),
        property_is_held(registry, floats, index, e, key_field, id, before, i, m),
        e.properties[i].1.name != e.properties[m].1.name ==> strmap::assoc_get(
            after,
            e.properties[i].1.name,
        ) == strmap::assoc_get(before, e.properties[i].1.name),
    ensures
        property_is_held(registry, floats, index, e, key_field, id, after, i, m + 1),
{
    if last_of_name(e.properties, i, m + 1) {
        assert(last_of_name(e.properties, i, m));
        assert(e.properties[m].1.name != e.properties[i].1.name);
    }
    if only_of_name(e.properties, i, m + 1) {
        assert(only_of_name(e.properties, i, m));
        assert(e.properties[m].1.name != e.properties[i].1.name);
    }
}

proof fn property_becomes_held<R: TypeRegistry>(
    registry: R,
    floats: FloatTableModel,
    index: Option<Seq<char>>,
    e: EntityGraphModel,
    key_field: Seq<char>,
    id: LiteralModel,
    before: StoredProps,
    after: StoredProps,
    m: int,
)
    requires
        0 <= m < e.properties.len(),
        strmap::assoc_get(before, e.properties[m].1.name) is Some ==> names_property(
            e.properties,
            m,
            e.properties[m].1.name,
        ),
        ({
            let o = graph::node_property(
                registry,
                floats,
                index,
                e.kind,
                key_field,
                id,
                e.properties[m].1,
            );
            o.stored is Ok && strmap::assoc_get(after, e.properties[m].1.name) == (
            if o.stored->Ok_0 is Some {
                o.stored->Ok_0
            } else {
                strmap::assoc_get(before, e.properties[m].1.name)
            })
        }),
    ensures
        property_is_held(registry, floats, index, e, key_field, id, after, m, m + 1),
{
    let p = e.properties[m].1;
    handler_is_named(p.property_type);
    if only_of_name(e.properties, m, m + 1) && strmap::assoc_get(before, p.name) is Some {
        let j = choose|j: int| 0 <= j < m && (#[trigger] e.properties[j]).1.name == p.name;
        assert(e.properties[j].1.name != p.name);
    }
}

proof fn walked_properties_hold<R: TypeRegistry>(
    registry: R,
    floats: FloatTableModel,
    index: Option<Seq<char>>,
    e: EntityGraphModel,
    key_field: Seq<char>,
    id: LiteralModel,
    n: nat,
)
    requires
        n <= e.properties.len(),
        graph::properties_walked(registry, floats, index, e, key_field, id, n).error is None,
    ensures
        holds_properties(
            registry,
            floats,
            index,
            e,
            key_field,
            id,
            graph::properties_walked(registry, floats, index, e, key_field, id, n).props,
            n as int,
        ),
    decreases n,
{
    let after = graph::properties_walked(registry, floats, index, e, key_field, id, n).props;
    if n > 0 {
        let m = n - 1;
        walked_properties_hold(registry, floats, index, e, key_field, id, m as nat);
        let before = graph::properties_walked(
            registry,
            floats,
            index,
            e,
            key_field,
            id,
            m as nat,
        ).props;
        let q = e.properties[m].1;
        let o = graph::node_property(registry, floats, index, e.kind, key_field, id, q);
        if o.stored->Ok_0 is Some {
            strmap::law_get_after_insert(before, q.name, o.stored->Ok_0->0);
        }
        assert(strmap::assoc_get(before, q.name) is Some ==> names_property(
            e.properties,
            m,
            q.name,
        ));
        property_becomes_held(registry, floats, index, e, key_field, id, before, after, m);
        assert forall|i: int| 0 <= i < n implies #[trigger] property_is_held(
            registry,
            floats,
            index,
            e,
            key_field,
            id,
            after,
            i,
            n as int,
        ) by {
            if i < m {
                let k = e.properties[i].1.name;
                if k != q.name && o.stored->Ok_0 is Some {
                    strmap::law_get_other_after_insert(before, q.name, o.stored->Ok_0->0, k);
                }
                assert(property_is_held(
                    registry,
                    floats,
                    index,
                    e,
                    key_field,
                    id,
                    before,
                    i,
                    m,
                ));
                property_stays_held(
                    registry,
                    floats,
                    index,
                    e,
                    key_field,
                    id,
                    before,
                    after,
                    i,
                    m,
                );
            }
        }
        assert forall|k: Seq<char>| strmap::assoc_get(after, k) is Some implies
            #[trigger] names_property(e.properties, n as int, k) by {
            if k == q.name {
                assert(e.properties[m].1.name == k);
            } else {
                if o.stored->Ok_0 is Some {
                    strmap::law_get_other_after_insert(before, q.name, o.stored->Ok_0->0, k);
                }
                assert(names_property(e.properties, m, k));
                let i = choose|i: int| 0 <= i < m && (#[trigger] e.properties[i]).1.name == k;
                assert(e.properties[i].1.name == k);
            }
        }
    }
}

/// Is a row of a batch the node of an entity: under its label, key property, id, domain and
/// scopes, with its properties as their handlers answer?
pub open spec fn is_node_of<R: TypeRegistry>(
    registry: R,
    floats: FloatTableModel,
    index: Option<Seq<char>>,
    e: EntityGraphModel,
    b: NodeBatchModel,
    row: NodeRowModel,
) -> bool {
    &&& b.label == e.kind
    &&& b.domain_label == e.domain
    &&& match e.primary_key {
        Some(PrimaryKeyModel::Strict(f)) => b.merge_on == f,
        Some(PrimaryKeyModel::Soft) => b.merge_on == CANONICAL_FIELD@,
        None => false,
    }
    &&& strmap::assoc_get(e.properties, b.merge_on) is Some
    &&& ({
        let p = strmap::assoc_get(e.properties, b.merge_on)->0;
        convert::typed_literal(p.value, p.name, p.property_type, floats) == Ok::<
            LiteralModel,
            IngestErrorModel,
        >(row.id)
    })
    &&& row.scope_labels == scope::labels_of(e.scopes)
    &&& holds_properties(
        registry,
        floats,
        index,
        e,
        b.merge_on,
        row.id,
        row.props,
        e.properties.len() as int,
    )
}

/// The row that an entity becomes.
spec fn row_of<R: TypeRegistry>(
    registry: R,
    floats: FloatTableModel,
    index: Option<Seq<char>>,
    e: EntityGraphModel,
) -> NodeRowModel {
    let field = graph::merge_field(e)->Ok_0;
    let id = graph::id_of(e, field, floats)->Ok_0;
    NodeRowModel {
        id,
        props: graph::properties_walked(
            registry,
            floats,
            index,
            e,
            field,
            id,
            e.properties.len(),
        ).props,
        scope_labels: scope::labels_of(e.scopes),
    }
}

spec fn group_of(e: EntityGraphModel) -> Seq<Seq<char>> {
    graph::with_domain(seq![e.kind, graph::merge_field(e)->Ok_0], e.domain)
}

/// What holds of an entity that was planned without error.
spec fn lowered_well<R: TypeRegistry>(
    registry: R,
    floats: FloatTableModel,
    index: Option<Seq<char>>,
    e: EntityGraphModel,
) -> bool {
    let field = graph::merge_field(e)->Ok_0;
    let id = graph::id_of(e, field, floats)->Ok_0;
    graph::merge_field(e) is Ok && graph::id_of(e, field, floats) is Ok
        && graph::properties_walked(
        registry,
        floats,
        index,
        e,
        field,
        id,
        e.properties.len(),
    ).error is None
}

spec fn is_of_entities<R: TypeRegistry>(
    registry: R,
    floats: FloatTableModel,
    index: Option<Seq<char>>,
    es: Seq<EntityGraphModel>,
    n: int,
) -> spec_fn(Seq<Seq<char>>, NodeRowModel) -> bool {
    |k: Seq<Seq<char>>, row: NodeRowModel|
        exists|i: int|
            0 <= i < n && k == group_of(#[trigger] es[i]) && row == row_of(
                registry,
                floats,
                index,
                es[i],
            )
}

proof fn walked_rows<R: TypeRegistry>(
    registry: R,
    floats: FloatTableModel,
    index: Option<Seq<char>>,
    es: Seq<EntityGraphModel>,
    n: nat,
)
    requires
        n <= es.len(),
        graph::entities_walked(registry, floats, index, es, n).error is None,
    ensures
        ({
            let w = graph::entities_walked(registry, floats, index, es, n);
            &&& forall|i: int|
                0 <= i < n ==> lowered_well(registry, floats, index, #[trigger] es[i])
                    && laws::in_group(
                    w.nodes,
                    group_of(es[i]),
                    row_of(registry, floats, index, es[i]),
                )
            &&& laws::rows_hold(w.nodes, is_of_entities(registry, floats, index, es, n as int))
            &&& w.keys.len() == n
            &&& forall|i: int|
                0 <= i < n ==> (#[trigger] w.keys[i]) == (EntityKeyModel {
                    label: es[i].kind,
                    key_field: graph::merge_field(es[i])->Ok_0,
                    domain: es[i].domain,
                    id: row_of(registry, floats, index, es[i]).id,
                })
            &&& group_rows(w.nodes) == n
        }),
    decreases n,
{
    let w = graph::entities_walked(registry, floats, index, es, n);
    if n > 0 {
        let m = (n - 1) as nat;
        walked_rows(registry, floats, index, es, m);
        let v = graph::entities_walked(registry, floats, index, es, m);
        let e = es[n - 1];
        let row = row_of(registry, floats, index, e);
        assert(lowered_well(registry, floats, index, e));
        assert(w.nodes == groups::group_push(v.nodes, group_of(e), row));
        laws::push_is_in_group(v.nodes, group_of(e), row);
        assert forall|i: int| 0 <= i < n implies lowered_well(
            registry,
            floats,
            index,
            #[trigger] es[i],
        ) && laws::in_group(w.nodes, group_of(es[i]), row_of(registry, floats, index, es[i])) by {
            if i < m {
                laws::push_keeps_groups(
                    v.nodes,
                    group_of(e),
                    row,
                    group_of(es[i]),
                    row_of(registry, floats, index, es[i]),
                );
            }
        }
        let p = is_of_entities(registry, floats, index, es, n as int);
        let before = is_of_entities(registry, floats, index, es, m as int);
        assert forall|i: int, j: int| 0 <= i < v.nodes.len() && 0 <= j < v.nodes[i].1.len() implies p(
            v.nodes[i].0,
            #[trigger] v.nodes[i].1[j],
        ) by {
            assert(before(v.nodes[i].0, v.nodes[i].1[j]));
        }
        assert(p(group_of(es[n - 1]), row));
        laws::push_keeps_rows(v.nodes, group_of(e), row, p);
        pushing_adds_a_row(v.nodes, group_of(e), row);
    }
}

/// How many rows there are in groups.
pub open spec fn group_rows<T>(s: Seq<(Seq<Seq<char>>, Seq<T>)>) -> nat
    decreases s.len(),
{
    if s.len() == 0 {
        0
    } else {
        s[0].1.len() + group_rows(s.drop_first())
    }
}

proof fn pushing_adds_a_row<T>(s: Seq<(Seq<Seq<char>>, Seq<T>)>, k: Seq<Seq<char>>, x: T)
    ensures
        group_rows(groups::group_push(s, k, x)) == group_rows(s) + 1,
    decreases s.len(),
{
    let t = groups::group_push(s, k, x);
    if s.len() == 0 {
        assert(t.drop_first() =~= s);
    } else if s[0].0 == k {
        assert(t.drop_first() =~= s.drop_first());
    } else if groups::list_lt(s[0].0, k) {
        pushing_adds_a_row(s.drop_first(), k, x);
        assert(t.drop_first() =~= groups::group_push(s.drop_first(), k, x));
    } else {
        assert(t.drop_first() =~= s);
    }
}

proof fn group_rows_of_last<T>(s: Seq<(Seq<Seq<char>>, Seq<T>)>)
    requires
        s.len() > 0,
    ensures
        group_rows(s) == group_rows(s.drop_last()) + s.last().1.len(),
    decreases s.len(),
{
    if s.len() == 1 {
        assert(s.drop_first() =~= s.drop_last());
    } else {
        group_rows_of_last(s.drop_first());
        assert(s.drop_first().drop_last() =~= s.drop_last().drop_first());
        assert(s.drop_first().last() == s.last());
    }
}

/// How many rows there are in runs.
pub open spec fn run_rows<T>(runs: Seq<Seq<T>>) -> nat
    decreases runs.len(),
{
    if runs.len() == 0 {
        0
    } else {
        run_rows(runs.drop_last()) + runs.last().len()
    }
}

proof fn run_rows_add_up<T>(a: Seq<Seq<T>>, b: Seq<Seq<T>>)
    ensures
        run_rows(a + b) == run_rows(a) + run_rows(b),
    decreases b.len(),
{
    if b.len() == 0 {
        assert(a + b =~= a);
    } else {
        run_rows_add_up(a, b.drop_last());
        assert((a + b).drop_last() =~= a + b.drop_last());
        assert((a + b).last() == b.last());
    }
}

proof fn cutting_keeps_count<T>(s: Seq<T>, n: nat)
    requires
        n > 0,
    ensures
        run_rows(ast::chunked(s, n)) == s.len(),
    decreases s.len(),
{
    assert(run_rows(Seq::<Seq<T>>::empty()) == 0);
    if s.len() == 0 {
    } else if s.len() <= n {
        assert(ast::chunked(s, n).drop_last() =~= Seq::<Seq<T>>::empty());
    } else {
        cutting_keeps_count(s.skip(n as int), n);
        let first = seq![s.take(n as int)];
        assert(first.drop_last() =~= Seq::<Seq<T>>::empty());
        assert(run_rows(first) == n);
        run_rows_add_up(first, ast::chunked(s.skip(n as int), n));
    }
}

/// The runs of rows of node batches.
pub open spec fn node_runs(all: Seq<NodeBatchModel>) -> Seq<Seq<NodeRowModel>> {
    Seq::new(all.len(), |i: int| all[i].rows)
}

/// The runs of rows of relation batches.
pub open spec fn relation_runs(all: Seq<RelationBatchModel>) -> Seq<Seq<RelationRowModel>> {
    Seq::new(all.len(), |i: int| all[i].rows)
}

proof fn sorting_keeps_length<T>(s: Seq<T>, le: spec_fn(T, T) -> bool)
    ensures
        sorting::sorted_by(s, le).len() == s.len(),
    decreases s.len(),
{
    if s.len() > 0 {
        sorting_keeps_length(s.drop_last(), le);
        inserting_adds_one(sorting::sorted_by(s.drop_last(), le), s.last(), le);
    }
}

proof fn inserting_adds_one<T>(s: Seq<T>, x: T, le: spec_fn(T, T) -> bool)
    ensures
        sorting::insert_by(s, x, le).len() == s.len() + 1,
    decreases s.len(),
{
    if s.len() > 0 && !le(s.last(), x) {
        inserting_adds_one(s.drop_last(), x, le);
    }
}

/// Is a row of a batch in the group that the batch is of?
spec fn node_is_grouped(
    s: Seq<(Seq<Seq<char>>, Seq<NodeRowModel>)>,
    b: NodeBatchModel,
    row: NodeRowModel,
) -> bool {
    exists|g: int|
        0 <= g < s.len() && b.label == (#[trigger] s[g]).0[0] && b.merge_on == s[g].0[1]
            && b.domain_label == graph::domain_of_key(s[g].0, 2) && s[g].1.contains(row)
}

proof fn batching_keeps_nodes(
    s: Seq<(Seq<Seq<char>>, Seq<NodeRowModel>)>,
    prefix: Option<Seq<char>>,
    n: nat,
)
    requires
        n > 0,
    ensures
        run_rows(node_runs(graph::all_node_batches(s, prefix, n))) == group_rows(s),
        forall|i: int, j: int|
            0 <= i < graph::all_node_batches(s, prefix, n).len() && 0 <= j
                < graph::all_node_batches(s, prefix, n)[i].rows.len() ==> node_is_grouped(
                s,
                graph::all_node_batches(s, prefix, n)[i],
                #[trigger] graph::all_node_batches(s, prefix, n)[i].rows[j],
            ),
    decreases s.len(),
{
    let all = graph::all_node_batches(s, prefix, n);
    if s.len() == 0 {
        assert(node_runs(all) =~= Seq::<Seq<NodeRowModel>>::empty());
    } else {
        let rest = s.drop_last();
        batching_keeps_nodes(rest, prefix, n);
        let head = graph::all_node_batches(rest, prefix, n);
        let rows = sorting::sorted_by(s.last().1, graph::node_order());
        let mine = graph::node_batches(s.last().0, s.last().1, prefix, n);
        cutting_keeps_count(rows, n);
        sorting_keeps_length(s.last().1, graph::node_order());
        run_rows_add_up(node_runs(head), node_runs(mine));
        assert(node_runs(all) =~= node_runs(head) + node_runs(mine));
        assert(node_runs(mine) =~= ast::chunked(rows, n));
        group_rows_of_last(s);
        assert forall|i: int, j: int|
            0 <= i < all.len() && 0 <= j < all[i].rows.len() implies node_is_grouped(
            s,
            all[i],
            #[trigger] all[i].rows[j],
        ) by {
            let row = all[i].rows[j];
            if i < head.len() {
                assert(all[i] == head[i]);
                assert(node_is_grouped(rest, head[i], head[i].rows[j]));
                let g = choose|g: int|
                    0 <= g < rest.len() && head[i].label == (#[trigger] rest[g]).0[0]
                        && head[i].merge_on == rest[g].0[1] && head[i].domain_label
                        == graph::domain_of_key(rest[g].0, 2) && rest[g].1.contains(
                        head[i].rows[j],
                    );
                assert(s[g] == rest[g]);
            } else {
                let r = i - head.len();
                assert(all[i] == mine[r]);
                assert(ast::chunked(rows, n)[r].contains(row));
                laws::cutting_adds_none(rows, n, r, row);
                sorting::sorting_adds_none(s.last().1, graph::node_order(), row);
                assert(s[s.len() - 1].1.contains(row));
            }
        }
    }
}

/// Has an entity its node in a query?
pub open spec fn entity_has_node<R: TypeRegistry>(
    registry: R,
    floats: FloatTableModel,
    index: Option<Seq<char>>,
    q: InsertQueryModel,
    e: EntityGraphModel,
) -> bool {
    exists|b: int, j: int|
        0 <= b < q.node_batches.len() && 0 <= j < q.node_batches[b].rows.len() && is_node_of(
            registry,
            floats,
            index,
            e,
            q.node_batches[b],
            #[trigger] q.node_batches[b].rows[j],
        )
}

/// Is a row of a batch the node of one of the entities?
pub open spec fn node_has_entity<R: TypeRegistry>(
    registry: R,
    floats: FloatTableModel,
    index: Option<Seq<char>>,
    es: Seq<EntityGraphModel>,
    b: NodeBatchModel,
    row: NodeRowModel,
) -> bool {
    exists|i: int|
        0 <= i < es.len() && is_node_of(registry, floats, index, #[trigger] es[i], b, row)
}

/// Every entity of a planned graph is a node of the query, with each of its properties as
/// the property's handler answers; every node of the query is such an entity; and there
/// are as many nodes as entities.
#[verifier::rlimit(40)]
pub proof fn law_graph_nodes_are_the_entities<R: TypeRegistry>(
    registry: R,
    floats: FloatTableModel,
    g: GraphModel,
    n: nat,
    prefix_label: Option<Seq<char>>,
    prefix_index: Option<Seq<char>>,
)
    ensures
        match graph::graph_outcome(registry, floats, g, n, prefix_label, prefix_index) {
            Ok(q) => {
                let index = graph::prefix_of(prefix_index);
                &&& forall|i: int|
                    0 <= i < g.entities.len() ==> entity_has_node(
                        registry,
                        floats,
                        index,
                        q,
                        #[trigger] g.entities[i],
                    )
                &&& forall|b: int, j: int|
                    0 <= b < q.node_batches.len() && 0 <= j < q.node_batches[b].rows.len()
                        ==> node_has_entity(
                        registry,
                        floats,
                        index,
                        g.entities,
                        q.node_batches[b],
                        #[trigger] q.node_batches[b].rows[j],
                    )
                &&& run_rows(node_runs(q.node_batches)) == g.entities.len()
            },
            Err(_) => true,
        },
{
    let prefix = graph::prefix_of(prefix_label);
    let index = graph::prefix_of(prefix_index);
    let es = g.entities;
    if let Ok(q) = graph::graph_outcome(registry, floats, g, n, prefix_label, prefix_index) {
        let w = graph::entities_walked(registry, floats, index, es, es.len());
        walked_rows(registry, floats, index, es, es.len());
        batching_keeps_nodes(w.nodes, prefix, n);
        assert forall|i: int| 0 <= i < es.len() implies entity_has_node(
            registry,
            floats,
            index,
            q,
            #[trigger] es[i],
        ) by {
            let row = row_of(registry, floats, index, es[i]);
            assert(lowered_well(registry, floats, index, es[i]));
            let at = laws::grouped_row_is_batched(w.nodes, prefix, n, group_of(es[i]), row);
            row_is_of_entity(registry, floats, index, es[i], q.node_batches[at.0]);
            assert(q.node_batches[at.0].rows[at.1] == row);
        }
        assert forall|b: int, j: int|
            0 <= b < q.node_batches.len() && 0 <= j
                < q.node_batches[b].rows.len() implies node_has_entity(
            registry,
            floats,
            index,
            es,
            q.node_batches[b],
            #[trigger] q.node_batches[b].rows[j],
        ) by {
            let row = q.node_batches[b].rows[j];
            let bat = q.node_batches[b];
            let s = w.nodes;
            assert(node_is_grouped(s, bat, graph::all_node_batches(s, prefix, n)[b].rows[j]));
            let k = choose|k: int|
                0 <= k < s.len() && bat.label == (#[trigger] s[k]).0[0] && bat.merge_on == s[k].0[1]
                    && bat.domain_label == graph::domain_of_key(s[k].0, 2) && s[k].1.contains(row);
            let m = choose|m: int| 0 <= m < s[k].1.len() && s[k].1[m] == row;
            assert(is_of_entities(registry, floats, index, es, es.len() as int)(s[k].0, s[k].1[m]));
            let i = choose|i: int|
                0 <= i < es.len() && s[k].0 == group_of(#[trigger] es[i]) && row == row_of(
                    registry,
                    floats,
                    index,
                    es[i],
                );
            assert(lowered_well(registry, floats, index, es[i]));
            row_is_of_entity(registry, floats, index, es[i], bat);
        }
    }
}

proof fn row_is_of_entity<R: TypeRegistry>(
    registry: R,
    floats: FloatTableModel,
    index: Option<Seq<char>>,
    e: EntityGraphModel,
    b: NodeBatchModel,
)
    requires
        lowered_well(registry, floats, index, e),
        b.label == group_of(e)[0],
        b.merge_on == group_of(e)[1],
        b.domain_label == graph::domain_of_key(group_of(e), 2),
    ensures
        is_node_of(registry, floats, index, e, b, row_of(registry, floats, index, e)),
{
    let field = graph::merge_field(e)->Ok_0;
    let id = graph::id_of(e, field, floats)->Ok_0;
    walked_properties_hold(registry, floats, index, e, field, id, e.properties.len());
}

/// What the handler of a relation's property is asked.
pub open spec fn asked_of_relation(p: PropertyModel) -> IngestInputModel {
    IngestInputModel {
        label: "__Relationship"@,
        key_field: "id"@,
        key_value: LiteralModel::Str("__relationship__"@),
        field: p.name,
        value: p.value,
        prefix_index: None,
    }
}

/// Is the property at `i`, of the first `n` of a relation, stored as its handler answers? A
/// text goes to the handler of keywords, and what is skipped is stored as null.
pub open spec fn relation_property_is_held<R: TypeRegistry>(
    registry: R,
    floats: FloatTableModel,
    ps: PropertiesModel,
    props: StoredProps,
    i: int,
    n: int,
) -> bool {
    let p = ps[i].1;
    let type_id = if p.property_type is Text {
        "Keyword"@
    } else {
        handler_name(p.property_type)
    };
    let answer = registry.answer(type_id, asked_of_relation(p));
    &&& registry.registered(type_id)
    &&& answer is Ok
    &&& answer->Ok_0.effects.len() == 0
    &&& last_of_name(ps, i, n) ==> kept_as_answered(answer->Ok_0.stored, p, floats, props) && (
    answer->Ok_0.stored is Skipped ==> strmap::assoc_get(props, p.name) == Some(LiteralModel::Null))
}

/// Do stored properties hold the properties of a relation, and no key besides their names?
pub open spec fn holds_relation_properties<R: TypeRegistry>(
    registry: R,
    floats: FloatTableModel,
    ps: PropertiesModel,
    props: StoredProps,
) -> bool {
    &&& forall|i: int|
        0 <= i < ps.len() ==> #[trigger] relation_property_is_held(
            registry,
            floats,
            ps,
            props,
            i,
            ps.len() as int,
        )
    &&& forall|k: Seq<char>|
        strmap::assoc_get(props, k) is Some ==> #[trigger] names_property(ps, ps.len() as int, k)
}

proof fn relation_property_stays<R: TypeRegistry>(
    registry: R,
    floats: FloatTableModel,
    ps: PropertiesModel,
    before: StoredProps,
    after: StoredProps,
    i: int,
)
    requires
        0 <= i < ps.len() - 1,
        relation_property_is_held(registry, floats, ps.drop_last(), before, i, ps.len() - 1),
        ps[i].1.name != ps.last().1.name ==> strmap::assoc_get(after, ps[i].1.name)
            == strmap::assoc_get(before, ps[i].1.name),
    ensures
        relation_property_is_held(registry, floats, ps, after, i, ps.len() as int),
{
    let rest = ps.drop_last();
    if last_of_name(ps, i, ps.len() as int) {
        assert forall|j: int| i < j < ps.len() - 1 implies (#[trigger] rest[j]).1.name
            != rest[i].1.name by {
            assert(ps[j].1.name != ps[i].1.name);
        }
        assert(ps[ps.len() - 1].1.name != ps[i].1.name);
    }
}

proof fn lowered_relation_properties_hold<R: TypeRegistry>(
    registry: R,
    floats: FloatTableModel,
    ps: PropertiesModel,
)
    requires
        graph::relation_properties(registry, floats, ps) is Ok,
    ensures
        holds_relation_properties(
            registry,
            floats,
            ps,
            graph::relation_properties(registry, floats, ps)->Ok_0,
        ),
    decreases ps.len(),
{
    let after = graph::relation_properties(registry, floats, ps)->Ok_0;
    if ps.len() > 0 {
        let rest = ps.drop_last();
        let m = ps.len() - 1;
        lowered_relation_properties_hold(registry, floats, rest);
        let before = graph::relation_properties(registry, floats, rest)->Ok_0;
        let q = ps.last().1;
        handler_is_named(q.property_type);
        let x = graph::relation_property(registry, floats, q)->Ok_0;
        strmap::law_get_after_insert(before, q.name, x);
        assert forall|i: int| 0 <= i < ps.len() implies #[trigger] relation_property_is_held(
            registry,
            floats,
            ps,
            after,
            i,
            ps.len() as int,
        ) by {
            if i < m {
                let k = ps[i].1.name;
                if k != q.name {
                    strmap::law_get_other_after_insert(before, q.name, x, k);
                }
                assert(relation_property_is_held(registry, floats, rest, before, i, m));
                relation_property_stays(registry, floats, ps, before, after, i);
            }
        }
        assert forall|k: Seq<char>| strmap::assoc_get(after, k) is Some implies
            #[trigger] names_property(ps, ps.len() as int, k) by {
            if k == q.name {
                assert(ps[m].1.name == k);
            } else {
                strmap::law_get_other_after_insert(before, q.name, x, k);
                assert(names_property(rest, m, k));
                let i = choose|i: int| 0 <= i < m && (#[trigger] rest[i]).1.name == k;
                assert(ps[i].1.name == k);
            }
        }
    }
}

/// Is `id` the id of an entity under a key property?
pub open spec fn identifies(
    e: EntityGraphModel,
    key: Seq<char>,
    id: LiteralModel,
    floats: FloatTableModel,
) -> bool {
    &&& match e.primary_key {
        Some(PrimaryKeyModel::Strict(f)) => key == f,
        Some(PrimaryKeyModel::Soft) => key == CANONICAL_FIELD@,
        None => false,
    }
    &&& strmap::assoc_get(e.properties, key) is Some
    &&& ({
        let p = strmap::assoc_get(e.properties, key)->0;
        convert::typed_literal(p.value, p.name, p.property_type, floats) == Ok::<
            LiteralModel,
            IngestErrorModel,
        >(id)
    })
}

/// Is a row of a batch the edge of a relation: of its type, from the one entity to the
/// other, in the domain that both share, with its properties?
pub open spec fn is_edge_of<R: TypeRegistry>(
    registry: R,
    floats: FloatTableModel,
    es: Seq<EntityGraphModel>,
    rel: RelationGraphModel,
    b: RelationBatchModel,
    row: RelationRowModel,
) -> bool {
    &&& rel.from.0 < es.len() && rel.to.0 < es.len()
    &&& ({
        let from = es[rel.from.0 as int];
        let to = es[rel.to.0 as int];
        &&& b.rel_type == rel.kind
        &&& b.from_label == from.kind
        &&& b.to_label == to.kind
        &&& identifies(from, b.from_key, row.from_id, floats)
        &&& identifies(to, b.to_key, row.to_id, floats)
        &&& b.domain_label == (if from.domain == to.domain {
            from.domain
        } else {
            None
        })
    })
    &&& holds_relation_properties(registry, floats, rel.properties, row.props)
}

/// Has a relation its edge in a query?
pub open spec fn relation_has_edge<R: TypeRegistry>(
    registry: R,
    floats: FloatTableModel,
    es: Seq<EntityGraphModel>,
    q: InsertQueryModel,
    rel: RelationGraphModel,
) -> bool {
    exists|b: int, j: int|
        0 <= b < q.relation_batches.len() && 0 <= j < q.relation_batches[b].rows.len()
            && is_edge_of(
            registry,
            floats,
            es,
            rel,
            q.relation_batches[b],
            #[trigger] q.relation_batches[b].rows[j],
        )
}

/// Is a row of a batch the edge of one of the relations?
pub open spec fn edge_has_relation<R: TypeRegistry>(
    registry: R,
    floats: FloatTableModel,
    g: GraphModel,
    b: RelationBatchModel,
    row: RelationRowModel,
) -> bool {
    exists|i: int|
        0 <= i < g.relations.len() && is_edge_of(
            registry,
            floats,
            g.entities,
            #[trigger] g.relations[i],
            b,
            row,
        )
}

spec fn entry_is_of<R: TypeRegistry>(
    registry: R,
    floats: FloatTableModel,
    keys: Seq<EntityKeyModel>,
    rels: Seq<RelationGraphModel>,
) -> spec_fn(Seq<Seq<char>>, RelationRowModel) -> bool {
    |k: Seq<Seq<char>>, row: RelationRowModel|
        exists|i: int|
            0 <= i < rels.len() && graph::relation_entry(registry, floats, keys, #[trigger] rels[i])
                == Ok::<(Seq<Seq<char>>, RelationRowModel), IngestErrorModel>((k, row))
}

proof fn grouped_relations<R: TypeRegistry>(
    registry: R,
    floats: FloatTableModel,
    keys: Seq<EntityKeyModel>,
    rels: Seq<RelationGraphModel>,
)
    requires
        graph::relation_groups(registry, floats, keys, rels) is Ok,
    ensures
        ({
            let s = graph::relation_groups(registry, floats, keys, rels)->Ok_0;
            &&& forall|i: int|
                0 <= i < rels.len() ==> {
                    let entry = graph::relation_entry(registry, floats, keys, #[trigger] rels[i]);
                    entry is Ok && laws::in_group(s, entry->Ok_0.0, entry->Ok_0.1)
                }
            &&& laws::rows_hold(s, entry_is_of(registry, floats, keys, rels))
            &&& group_rows(s) == rels.len()
        }),
    decreases rels.len(),
{
    if rels.len() > 0 {
        let rest = rels.drop_last();
        grouped_relations(registry, floats, keys, rest);
        let before = graph::relation_groups(registry, floats, keys, rest)->Ok_0;
        let after = graph::relation_groups(registry, floats, keys, rels)->Ok_0;
        let (k, row) = graph::relation_entry(registry, floats, keys, rels.last())->Ok_0;
        laws::push_is_in_group(before, k, row);
        pushing_adds_a_row(before, k, row);
        assert forall|i: int| 0 <= i < rels.len() implies {
            let entry = graph::relation_entry(registry, floats, keys, #[trigger] rels[i]);
            entry is Ok && laws::in_group(after, entry->Ok_0.0, entry->Ok_0.1)
        } by {
            if i < rest.len() {
                assert(rest[i] == rels[i]);
                let entry = graph::relation_entry(registry, floats, keys, rels[i])->Ok_0;
                laws::push_keeps_groups(before, k, row, entry.0, entry.1);
            }
        }
        let p = entry_is_of(registry, floats, keys, rels);
        let was = entry_is_of(registry, floats, keys, rest);
        assert forall|i: int, j: int| 0 <= i < before.len() && 0 <= j < before[i].1.len() implies p(
            before[i].0,
            #[trigger] before[i].1[j],
        ) by {
            assert(was(before[i].0, before[i].1[j]));
            let m = choose|m: int|
                0 <= m < rest.len() && graph::relation_entry(
                    registry,
                    floats,
                    keys,
                    #[trigger] rest[m],
                ) == Ok::<(Seq<Seq<char>>, RelationRowModel), IngestErrorModel>(
                    (before[i].0, before[i].1[j]),
                );
            assert(rels[m] == rest[m]);
        }
        assert(rels[rels.len() - 1] == rels.last());
        assert(p(k, row));
        laws::push_keeps_rows(before, k, row, p);
    }
}

/// Is a row of a batch in the group that the batch is of?
spec fn edge_is_grouped(
    s: Seq<(Seq<Seq<char>>, Seq<RelationRowModel>)>,
    b: RelationBatchModel,
    row: RelationRowModel,
) -> bool {
    exists|g: int|
        0 <= g < s.len() && is_batch_of((#[trigger] s[g]).0, b) && s[g].1.contains(row)
}

spec fn is_batch_of(k: Seq<Seq<char>>, b: RelationBatchModel) -> bool {
    b.rel_type == k[0] && b.from_label == k[1] && b.from_key == k[2] && b.to_label == k[3]
        && b.to_key == k[4] && b.domain_label == graph::domain_of_key(k, 5)
}

proof fn batching_keeps_relations(
    s: Seq<(Seq<Seq<char>>, Seq<RelationRowModel>)>,
    prefix: Option<Seq<char>>,
    n: nat,
)
    requires
        n > 0,
    ensures
        run_rows(relation_runs(graph::all_relation_batches(s, prefix, n))) == group_rows(s),
        forall|i: int, j: int|
            0 <= i < graph::all_relation_batches(s, prefix, n).len() && 0 <= j
                < graph::all_relation_batches(s, prefix, n)[i].rows.len() ==> edge_is_grouped(
                s,
                graph::all_relation_batches(s, prefix, n)[i],
                #[trigger] graph::all_relation_batches(s, prefix, n)[i].rows[j],
            ),
    decreases s.len(),
{
    let all = graph::all_relation_batches(s, prefix, n);
    if s.len() == 0 {
        assert(relation_runs(all) =~= Seq::<Seq<RelationRowModel>>::empty());
    } else {
        let rest = s.drop_last();
        batching_keeps_relations(rest, prefix, n);
        let head = graph::all_relation_batches(rest, prefix, n);
        let rows = sorting::sorted_by(s.last().1, graph::relation_order());
        let mine = graph::relation_batches(s.last().0, s.last().1, prefix, n);
        cutting_keeps_count(rows, n);
        sorting_keeps_length(s.last().1, graph::relation_order());
        run_rows_add_up(relation_runs(head), relation_runs(mine));
        assert(relation_runs(all) =~= relation_runs(head) + relation_runs(mine));
        assert(relation_runs(mine) =~= ast::chunked(rows, n));
        group_rows_of_last(s);
        assert forall|i: int, j: int|
            0 <= i < all.len() && 0 <= j < all[i].rows.len() implies edge_is_grouped(
            s,
            all[i],
            #[trigger] all[i].rows[j],
        ) by {
            let row = all[i].rows[j];
            if i < head.len() {
                assert(all[i] == head[i]);
                assert(edge_is_grouped(rest, head[i], head[i].rows[j]));
                let g = choose|g: int|
                    0 <= g < rest.len() && is_batch_of((#[trigger] rest[g]).0, head[i])
                        && rest[g].1.contains(row);
                assert(s[g] == rest[g]);
            } else {
                let r = i - head.len();
                assert(all[i] == mine[r]);
                assert(ast::chunked(rows, n)[r].contains(row));
                laws::cutting_adds_none(rows, n, r, row);
                sorting::sorting_adds_none(s.last().1, graph::relation_order(), row);
                assert(s[s.len() - 1].1.contains(row));
            }
        }
    }
}

proof fn grouped_relation_is_batched(
    s: Seq<(Seq<Seq<char>>, Seq<RelationRowModel>)>,
    prefix: Option<Seq<char>>,
    n: nat,
    k: Seq<Seq<char>>,
    row: RelationRowModel,
) -> (at: (int, int))
    requires
        n > 0,
        laws::in_group(s, k, row),
    ensures
        ({
            let all = graph::all_relation_batches(s, prefix, n);
            0 <= at.0 < all.len() && 0 <= at.1 < all[at.0].rows.len() && is_batch_of(k, all[at.0])
                && all[at.0].rows[at.1] == row
        }),
    decreases s.len(),
{
    let i = choose|i: int| 0 <= i < s.len() && (#[trigger] s[i]).0 == k && s[i].1.contains(row);
    let head = graph::all_relation_batches(s.drop_last(), prefix, n);
    let all = graph::all_relation_batches(s, prefix, n);
    if i < s.len() - 1 {
        assert(s.drop_last()[i] == s[i]);
        let at = grouped_relation_is_batched(s.drop_last(), prefix, n, k, row);
        assert(all[at.0] == head[at.0]);
        at
    } else {
        let rows = sorting::sorted_by(s.last().1, graph::relation_order());
        sorting::sorting_keeps(s.last().1, graph::relation_order(), row);
        let r = laws::cutting_keeps(rows, n, row);
        let run = ast::chunked(rows, n)[r];
        let j = choose|j: int| 0 <= j < run.len() && run[j] == row;
        assert(all[head.len() + r].rows == run);
        (head.len() + r, j)
    }
}

proof fn entry_is_an_edge<R: TypeRegistry>(
    registry: R,
    floats: FloatTableModel,
    index: Option<Seq<char>>,
    es: Seq<EntityGraphModel>,
    rel: RelationGraphModel,
    b: RelationBatchModel,
)
    requires
        graph::entities_walked(registry, floats, index, es, es.len()).error is None,
        ({
            let w = graph::entities_walked(registry, floats, index, es, es.len());
            let entry = graph::relation_entry(registry, floats, w.keys, rel);
            entry is Ok && is_batch_of(entry->Ok_0.0, b)
        }),
    ensures
        ({
            let w = graph::entities_walked(registry, floats, index, es, es.len());
            let entry = graph::relation_entry(registry, floats, w.keys, rel);
            is_edge_of(registry, floats, es, rel, b, entry->Ok_0.1)
        }),
{
    let w = graph::entities_walked(registry, floats, index, es, es.len());
    walked_rows(registry, floats, index, es, es.len());
    let (i, j) = (rel.from.0 as int, rel.to.0 as int);
    assert(lowered_well(registry, floats, index, es[i]));
    assert(lowered_well(registry, floats, index, es[j]));
    assert(w.keys[i].label == es[i].kind);
    assert(w.keys[j].label == es[j].kind);
    lowered_relation_properties_hold(registry, floats, rel.properties);
}

/// Every relation of a planned graph is an edge of the query, from its one end to the other
/// and not the other way round, with its properties; every edge of the query is such a
/// relation; and there are as many edges as relations.
#[verifier::rlimit(40)]
pub proof fn law_graph_edges_are_the_relations<R: TypeRegistry>(
    registry: R,
    floats: FloatTableModel,
    g: GraphModel,
    n: nat,
    prefix_label: Option<Seq<char>>,
    prefix_index: Option<Seq<char>>,
)
    ensures
        match graph::graph_outcome(registry, floats, g, n, prefix_label, prefix_index) {
            Ok(q) => {
                &&& forall|i: int|
                    0 <= i < g.relations.len() ==> relation_has_edge(
                        registry,
                        floats,
                        g.entities,
                        q,
                        #[trigger] g.relations[i],
                    )
                &&& forall|b: int, j: int|
                    0 <= b < q.relation_batches.len() && 0 <= j < q.relation_batches[b].rows.len()
                        ==> edge_has_relation(
                        registry,
                        floats,
                        g,
                        q.relation_batches[b],
                        #[trigger] q.relation_batches[b].rows[j],
                    )
                &&& run_rows(relation_runs(q.relation_batches)) == g.relations.len()
            },
            Err(_) => true,
        },
{
    let prefix = graph::prefix_of(prefix_label);
    let index = graph::prefix_of(prefix_index);
    let es = g.entities;
    let rels = g.relations;
    if let Ok(q) = graph::graph_outcome(registry, floats, g, n, prefix_label, prefix_index) {
        let w = graph::entities_walked(registry, floats, index, es, es.len());
        grouped_relations(registry, floats, w.keys, rels);
        let s = graph::relation_groups(registry, floats, w.keys, rels)->Ok_0;
        batching_keeps_relations(s, prefix, n);
        assert forall|i: int| 0 <= i < rels.len() implies relation_has_edge(
            registry,
            floats,
            es,
            q,
            #[trigger] rels[i],
        ) by {
            let entry = graph::relation_entry(registry, floats, w.keys, rels[i])->Ok_0;
            let at = grouped_relation_is_batched(s, prefix, n, entry.0, entry.1);
            entry_is_an_edge(registry, floats, index, es, rels[i], q.relation_batches[at.0]);
            assert(q.relation_batches[at.0].rows[at.1] == entry.1);
        }
        assert forall|b: int, j: int|
            0 <= b < q.relation_batches.len() && 0 <= j
                < q.relation_batches[b].rows.len() implies edge_has_relation(
            registry,
            floats,
            g,
            q.relation_batches[b],
            #[trigger] q.relation_batches[b].rows[j],
        ) by {
            let bat = q.relation_batches[b];
            let row = bat.rows[j];
            assert(edge_is_grouped(s, bat, graph::all_relation_batches(s, prefix, n)[b].rows[j]));
            let k = choose|k: int|
                0 <= k < s.len() && is_batch_of((#[trigger] s[k]).0, bat) && s[k].1.contains(row);
            let m = choose|m: int| 0 <= m < s[k].1.len() && s[k].1[m] == row;
            assert(entry_is_of(registry, floats, w.keys, rels)(s[k].0, s[k].1[m]));
            let i = choose|i: int|
                0 <= i < rels.len() && graph::relation_entry(
                    registry,
                    floats,
                    w.keys,
                    #[trigger] rels[i],
                ) == Ok::<(Seq<Seq<char>>, RelationRowModel), IngestErrorModel>((s[k].0, row));
            entry_is_an_edge(registry, floats, index, es, rels[i], bat);
        }
    }
}

/// Is an effect one that the handler of a property of an entity sets off?
pub open spec fn is_effect_of<R: TypeRegistry>(
    registry: R,
    floats: FloatTableModel,
    index: Option<Seq<char>>,
    e: EntityGraphModel,
    x: SideEffectModel,
) -> bool {
    let field = graph::merge_field(e)->Ok_0;
    let id = graph::id_of(e, field, floats)->Ok_0;
    graph::merge_field(e) is Ok && graph::id_of(e, field, floats) is Ok && exists|i: int|
        0 <= i < e.properties.len() && property_sets_off(
            registry,
            index,
            e,
            field,
            id,
            (#[trigger] e.properties[i]).1,
            x,
        )
}

/// Does the handler of a property set off an effect?
pub open spec fn property_sets_off<R: TypeRegistry>(
    registry: R,
    index: Option<Seq<char>>,
    e: EntityGraphModel,
    field: Seq<char>,
    id: LiteralModel,
    p: PropertyModel,
    x: SideEffectModel,
) -> bool {
    let answer = registry.answer(
        handler_name(p.property_type),
        asked_of_node(e, field, id, p, index),
    );
    answer is Ok && answer->Ok_0.effects.contains(x)
}

proof fn walked_property_effects<R: TypeRegistry>(
    registry: R,
    floats: FloatTableModel,
    index: Option<Seq<char>>,
    e: EntityGraphModel,
    field: Seq<char>,
    id: LiteralModel,
    n: nat,
    x: SideEffectModel,
)
    requires
        n <= e.properties.len(),
        graph::properties_walked(registry, floats, index, e, field, id, n).error is None,
    ensures
        graph::properties_walked(registry, floats, index, e, field, id, n).effects.contains(x)
            <==> exists|i: int|
            0 <= i < n && property_sets_off(
                registry,
                index,
                e,
                field,
                id,
                (#[trigger] e.properties[i]).1,
                x,
            ),
    decreases n,
{
    let after = graph::properties_walked(registry, floats, index, e, field, id, n).effects;
    if n > 0 {
        let m = (n - 1) as nat;
        walked_property_effects(registry, floats, index, e, field, id, m, x);
        let before = graph::properties_walked(registry, floats, index, e, field, id, m).effects;
        let p = e.properties[n - 1].1;
        handler_is_named(p.property_type);
        let o = graph::node_property(registry, floats, index, e.kind, field, id, p);
        assert(after == before + o.effects);
        sum_contains(before, o.effects, x);
        assert(o.effects.contains(x) <==> property_sets_off(registry, index, e, field, id, p, x));
        if before.contains(x) {
            let i = choose|i: int|
                0 <= i < m && property_sets_off(
                    registry,
                    index,
                    e,
                    field,
                    id,
                    (#[trigger] e.properties[i]).1,
                    x,
                );
            assert(property_sets_off(registry, index, e, field, id, e.properties[i].1, x));
        }
        if o.effects.contains(x) {
            assert(property_sets_off(registry, index, e, field, id, e.properties[n - 1].1, x));
        }
    }
}

proof fn sum_contains<T>(a: Seq<T>, b: Seq<T>, x: T)
    ensures
        (a + b).contains(x) <==> a.contains(x) || b.contains(x),
{
    if a.contains(x) {
        let i = choose|i: int| 0 <= i < a.len() && a[i] == x;
        assert((a + b)[i] == x);
    }
    if b.contains(x) {
        let i = choose|i: int| 0 <= i < b.len() && b[i] == x;
        assert((a + b)[a.len() + i] == x);
    }
    if (a + b).contains(x) {
        let i = choose|i: int| 0 <= i < (a + b).len() && (a + b)[i] == x;
        if i < a.len() {
            assert(a[i] == x);
        } else {
            assert(b[i - a.len()] == x);
        }
    }
}

proof fn walked_entity_effects<R: TypeRegistry>(
    registry: R,
    floats: FloatTableModel,
    index: Option<Seq<char>>,
    es: Seq<EntityGraphModel>,
    n: nat,
    x: SideEffectModel,
)
    requires
        n <= es.len(),
        graph::entities_walked(registry, floats, index, es, n).error is None,
    ensures
        graph::entities_walked(registry, floats, index, es, n).effects.contains(x) <==> exists|
            i: int,
        |
            0 <= i < n && is_effect_of(registry, floats, index, #[trigger] es[i], x),
    decreases n,
{
    if n > 0 {
        let m = (n - 1) as nat;
        walked_entity_effects(registry, floats, index, es, m, x);
        let v = graph::entities_walked(registry, floats, index, es, m);
        let w = graph::entities_walked(registry, floats, index, es, n);
        let e = es[n - 1];
        let field = graph::merge_field(e)->Ok_0;
        let id = graph::id_of(e, field, floats)->Ok_0;
        let p = graph::properties_walked(
            registry,
            floats,
            index,
            e,
            field,
            id,
            e.properties.len(),
        );
        assert(w.effects == v.effects + p.effects);
        sum_contains(v.effects, p.effects, x);
        walked_property_effects(registry, floats, index, e, field, id, e.properties.len(), x);
        assert(p.effects.contains(x) <==> is_effect_of(registry, floats, index, es[n - 1], x));
    }
}

/// The effects that planning a graph queues are those that the handlers of its entities'
/// properties set off, all of them and no others.
pub proof fn law_graph_effects_are_of_the_handlers<R: TypeRegistry>(
    registry: R,
    floats: FloatTableModel,
    g: GraphModel,
    n: nat,
    prefix_label: Option<Seq<char>>,
    prefix_index: Option<Seq<char>>,
    x: SideEffectModel,
)
    ensures
        graph::graph_outcome(registry, floats, g, n, prefix_label, prefix_index) is Ok ==> (
        graph::graph_effects(registry, floats, g, n, prefix_index).contains(x) <==> exists|i: int|
            0 <= i < g.entities.len() && is_effect_of(
                registry,
                floats,
                graph::prefix_of(prefix_index),
                #[trigger] g.entities[i],
                x,
            )),
{
    if graph::graph_outcome(registry, floats, g, n, prefix_label, prefix_index) is Ok {
        walked_entity_effects(
            registry,
            floats,
            graph::prefix_of(prefix_index),
            g.entities,
            g.entities.len(),
            x,
        );
    }
}

/// A prefix counts without the white space around it, and not at all where it is blank.
pub proof fn law_prefixes_are_trimmed(p: Seq<char>)
    ensures
        graph::prefix_of(None) is None,
        text::trimmed(p).len() == 0 ==> graph::prefix_of(Some(p)) is None,
        text::trimmed(p).len() > 0 ==> graph::prefix_of(Some(p)) == Some(text::trimmed(p)),
{
}

/// A property of a relation is never embedded: texts are stored plainly there, and every other type
/// as it is on a node.
pub proof fn law_relation_properties_are_not_embedded(t: crate::graph::schema::PropertyType)
    ensures
        graph::relation_handler(t) != "SemanticText"@,
        crate::graph::schema::handler_of(t) != "SemanticText"@ ==> graph::relation_handler(t)
            == crate::graph::schema::handler_of(t),
        crate::graph::schema::handler_of(t) == "SemanticText"@ ==> graph::relation_handler(t)
            == "Keyword"@,
{
    reveal_strlit("SemanticText");
    reveal_strlit("Keyword");
    reveal_strlit("Number");
    reveal_strlit("Boolean");
    reveal_strlit("Timestamp");
    assert("SemanticText"@.len() == 12 && "Keyword"@.len() == 7 && "Number"@.len() == 6);
    assert("Boolean"@.len() == 7 && "Timestamp"@.len() == 9);
}

/// A relation is of a domain where both its ends are of that domain.
pub proof fn law_relations_share_their_domain(a: Option<Seq<char>>, b: Option<Seq<char>>)
    ensures
        graph::shared_domain(a, b) is Some <==> a is Some && b is Some && a->0 == b->0,
        graph::shared_domain(a, b) is Some ==> graph::shared_domain(a, b) == a,
{
}

proof fn runs_in_order<T>(s: Seq<T>, n: nat, le: spec_fn(T, T) -> bool, b: int, i: int, j: int)
    requires
        n > 0,
        sorting::in_order(s, le),
        0 <= b < ast::chunked(s, n).len(),
        0 <= i < j < ast::chunked(s, n)[b].len(),
    ensures
        le(ast::chunked(s, n)[b][i], ast::chunked(s, n)[b][j]),
    decreases s.len(),
{
    let runs = ast::chunked(s, n);
    if s.len() == 0 {
    } else if s.len() <= n {
        assert(runs[0] == s);
        assert(le(s[i], s[j]));
    } else if b == 0 {
        assert(runs[0] == s.take(n as int));
        assert(le(s[i], s[j]));
    } else {
        let rest = s.skip(n as int);
        assert forall|x: int, y: int| 0 <= x < y < rest.len() implies le(
            #[trigger] rest[x],
            #[trigger] rest[y],
        ) by {
            assert(le(s[x + n], s[y + n]));
        }
        assert(runs[b] == ast::chunked(rest, n)[b - 1]);
        runs_in_order(rest, n, le, b - 1, i, j);
    }
}

proof fn row_orders_are_total()
    ensures
        sorting::is_total_preorder(graph::node_order()),
        sorting::is_total_preorder(graph::relation_order()),
{
    let le = graph::node_order();
    assert forall|a: NodeRowModel, b: NodeRowModel| #[trigger] le(a, b) || le(b, a) by {
        crate::literal::law_literal_order_is_total(a.id, b.id);
    }
    assert forall|a: NodeRowModel, b: NodeRowModel, c: NodeRowModel|
        #[trigger] le(a, b) && #[trigger] le(b, c) implies le(a, c) by {
        crate::literal::law_literal_order_is_transitive(a.id, b.id, c.id);
    }
    crate::ingest::dsl::law_row_orders_are_total();
    let by_ends = crate::ingest::dsl::relation_row_le();
    let rel = graph::relation_order();
    assert forall|a: RelationRowModel, b: RelationRowModel| #[trigger] rel(a, b) == by_ends(
        ends_of(a),
        ends_of(b),
    ) by {}
    assert forall|a: RelationRowModel, b: RelationRowModel| #[trigger] rel(a, b) || rel(b, a) by {
        assert(by_ends(ends_of(a), ends_of(b)) || by_ends(ends_of(b), ends_of(a)));
        assert(rel(a, b) == by_ends(ends_of(a), ends_of(b)));
        assert(rel(b, a) == by_ends(ends_of(b), ends_of(a)));
    }
    assert forall|a: RelationRowModel, b: RelationRowModel, c: RelationRowModel|
        #[trigger] rel(a, b) && #[trigger] rel(b, c) implies rel(a, c) by {
        assert(by_ends(ends_of(a), ends_of(b)) && by_ends(ends_of(b), ends_of(c)));
        assert(rel(a, c) == by_ends(ends_of(a), ends_of(c)));
    }
}

spec fn ends_of(r: RelationRowModel) -> crate::ingest::dsl::RelationDataModel {
    crate::ingest::dsl::RelationDataModel { from_id: r.from_id, to_id: r.to_id }
}

/// The nodes of a batch come by their ids, and the relations of a batch by the ids of their starts,
/// those from one start by the ids of their ends.
pub proof fn law_rows_come_by_id(
    key: Seq<Seq<char>>,
    nodes: Seq<NodeRowModel>,
    rels: Seq<RelationRowModel>,
    prefix: Option<Seq<char>>,
    n: nat,
    b: int,
    i: int,
    j: int,
)
    requires
        n > 0,
        0 <= i < j,
    ensures
        0 <= b < graph::node_batches(key, nodes, prefix, n).len() && j < graph::node_batches(
            key,
            nodes,
            prefix,
            n,
        )[b].rows.len() ==> ({
            let rows = graph::node_batches(key, nodes, prefix, n)[b].rows;
            crate::literal::literal_le(rows[i].id, rows[j].id)
        }),
        0 <= b < graph::relation_batches(key, rels, prefix, n).len() && j < graph::relation_batches(
            key,
            rels,
            prefix,
            n,
        )[b].rows.len() ==> ({
            let rows = graph::relation_batches(key, rels, prefix, n)[b].rows;
            ||| crate::literal::literal_lt(rows[i].from_id, rows[j].from_id)
            ||| !crate::literal::literal_lt(rows[j].from_id, rows[i].from_id)
                && crate::literal::literal_le(rows[i].to_id, rows[j].to_id)
        }),
{
    row_orders_are_total();
    let s = sorting::sorted_by(nodes, graph::node_order());
    let t = sorting::sorted_by(rels, graph::relation_order());
    sorting::law_sorted_by(nodes, graph::node_order());
    sorting::law_sorted_by(rels, graph::relation_order());
    if 0 <= b < graph::node_batches(key, nodes, prefix, n).len() && j < graph::node_batches(
        key,
        nodes,
        prefix,
        n,
    )[b].rows.len() {
        runs_in_order(s, n, graph::node_order(), b, i, j);
    }
    if 0 <= b < graph::relation_batches(key, rels, prefix, n).len() && j < graph::relation_batches(
        key,
        rels,
        prefix,
        n,
    )[b].rows.len() {
        runs_in_order(t, n, graph::relation_order(), b, i, j);
    }
}

} // verus!
